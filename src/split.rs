//! Splitting a trimmed statement into jobs, arguments and redirections.
//!
//! The scan is a state machine over the statement's characters: `run` states
//! it and `parse_pipeline` carries it out.

use vstd::prelude::*;
use crate::scan::ScanState;
use crate::text::{chars_of, piece};
use crate::trim::{is_blank, trimmed, PipelineIterator};
use crate::types::{
    jobs_view, jobs_wf, redirection_view, strings_view, Job, JobView, Pipeline, PipelineView,
    Redirection, RedirectionView,
};

verus! {

/// Where the scan stands.
#[derive(Clone, Copy)]
pub enum Phase {
    /// Reading arguments, pipes and the background marker.
    Words,
    /// Just after `>`: a second `>` asks for appending.
    OutputStart,
    /// Reading the output file name.
    Output { append: bool },
    /// Reading the input file name.
    Input,
    /// The output file is known; only `<` still counts.
    OutputDone,
    /// The input file is known; only `>` still counts.
    InputDone,
}

impl Phase {
    pub open spec fn reads_name(self) -> bool {
        self is OutputStart || self is Output || self is Input
    }
}

/// Why a statement yields no pipeline.
#[derive(Clone, Copy)]
pub enum ParseError {
    MissingOutputFile,
    MissingInputFile,
}

impl ParseError {
    pub open spec fn text(self) -> Seq<char> {
        match self {
            ParseError::MissingOutputFile => "missing standard output file argument after '>'"@,
            ParseError::MissingInputFile => "missing standard input file argument after '<'"@,
        }
    }

    pub fn message(&self) -> (r: &'static str)
        ensures
            r@ == self.text(),
    {
        match self {
            ParseError::MissingOutputFile => "missing standard output file argument after '>'",
            ParseError::MissingInputFile => "missing standard input file argument after '<'",
        }
    }
}

/// What the scan has built so far.
pub struct SplitState {
    pub scan: ScanState,
    pub phase: Phase,
    /// A backslash in a file name; the next character belongs to the name.
    pub escape: bool,
    /// The argument being read.
    pub word: Seq<char>,
    /// The finished arguments of the current job.
    pub words: Seq<Seq<char>>,
    pub jobs: Seq<JobView>,
    /// The file name being read.
    pub name: Seq<char>,
    pub stdin: Option<RedirectionView>,
    pub stdout: Option<RedirectionView>,
}

pub enum Step {
    Next(SplitState),
    Stop(Result<PipelineView, ParseError>),
}

pub open spec fn initial_state() -> SplitState {
    SplitState {
        scan: ScanState::initial(),
        phase: Phase::Words,
        escape: false,
        word: seq![],
        words: seq![],
        jobs: seq![],
        name: seq![],
        stdin: None,
        stdout: None,
    }
}

/// `words` with `word` appended, unless it is empty.
pub open spec fn with_word(words: Seq<Seq<char>>, word: Seq<char>) -> Seq<Seq<char>> {
    if word.len() > 0 {
        words.push(word)
    } else {
        words
    }
}

/// `jobs` with a job of `words` appended, unless there are none.
pub open spec fn with_job(jobs: Seq<JobView>, words: Seq<Seq<char>>, background: bool) -> Seq<
    JobView,
> {
    if words.len() > 0 {
        jobs.push(JobView { args: words, background })
    } else {
        jobs
    }
}

pub open spec fn pipeline_of(m: SplitState) -> PipelineView {
    PipelineView { jobs: m.jobs, stdin: m.stdin, stdout: m.stdout }
}

/// The current job, ended; then the scan goes on in `phase`.
pub open spec fn job_ended(m: SplitState, phase: Phase) -> SplitState {
    SplitState {
        phase,
        escape: false,
        word: seq![],
        words: seq![],
        jobs: with_job(m.jobs, with_word(m.words, m.word), false),
        name: seq![],
        ..m
    }
}

pub open spec fn word_step(m: SplitState, c: char) -> Step {
    let scan = m.scan.next(c);
    if m.scan.significant() {
        Step::Next(SplitState { scan, word: m.word.push(c), ..m })
    } else if is_blank(c) {
        Step::Next(SplitState { scan, word: seq![], words: with_word(m.words, m.word), ..m })
    } else if c == '|' {
        Step::Next(SplitState { scan, ..job_ended(m, Phase::Words) })
    } else if c == '&' {
        Step::Stop(
            Ok(
                PipelineView {
                    jobs: with_job(m.jobs, with_word(m.words, m.word), true),
                    stdin: m.stdin,
                    stdout: m.stdout,
                },
            ),
        )
    } else if c == '>' {
        Step::Next(SplitState { scan, ..job_ended(m, Phase::OutputStart) })
    } else if c == '<' {
        Step::Next(SplitState { scan, ..job_ended(m, Phase::Input) })
    } else {
        Step::Next(SplitState { scan, word: m.word.push(c), ..m })
    }
}

/// The file name read so far, recorded as the output or the input file.
pub open spec fn capture(m: SplitState, output: bool, append: bool) -> SplitState {
    let r = Some(RedirectionView { file: m.name, append });
    if output {
        SplitState { stdout: r, name: seq![], ..m }
    } else {
        SplitState { stdin: r, name: seq![], ..m }
    }
}

/// After the output file (`output`) or the input file, the other one is read,
/// unless it is known already: then the scan ends.
pub open spec fn switch(m: SplitState, output: bool) -> Step {
    if output {
        if m.stdin is Some {
            Step::Stop(Ok(pipeline_of(m)))
        } else {
            Step::Next(SplitState { phase: Phase::Input, escape: false, name: seq![], ..m })
        }
    } else {
        if m.stdout is Some {
            Step::Stop(Ok(pipeline_of(m)))
        } else {
            Step::Next(SplitState { phase: Phase::OutputStart, escape: false, name: seq![], ..m })
        }
    }
}

pub open spec fn missing(output: bool) -> ParseError {
    if output {
        ParseError::MissingOutputFile
    } else {
        ParseError::MissingInputFile
    }
}

/// One character of an output (`output`) or input file name.
pub open spec fn name_step(m: SplitState, c: char, output: bool, append: bool) -> Step {
    let other = if output {
        '<'
    } else {
        '>'
    };
    if m.escape {
        Step::Next(SplitState { escape: false, name: m.name.push(c), ..m })
    } else if c == '\\' {
        Step::Next(SplitState { escape: true, name: m.name.push(c), ..m })
    } else if is_blank(c) || c == '|' {
        if m.name.len() == 0 {
            Step::Next(m)
        } else {
            Step::Next(
                SplitState {
                    phase: if output {
                        Phase::OutputDone
                    } else {
                        Phase::InputDone
                    },
                    ..capture(m, output, append)
                },
            )
        }
    } else if c == other {
        if m.name.len() == 0 {
            Step::Stop(Err(missing(output)))
        } else {
            switch(capture(m, output, append), output)
        }
    } else {
        Step::Next(SplitState { name: m.name.push(c), ..m })
    }
}

pub open spec fn step(m: SplitState, c: char) -> Step {
    match m.phase {
        Phase::Words => word_step(m, c),
        Phase::OutputStart => if c == '>' {
            Step::Next(SplitState { phase: Phase::Output { append: true }, ..m })
        } else {
            name_step(SplitState { phase: Phase::Output { append: false }, ..m }, c, true, false)
        },
        Phase::Output { append } => name_step(m, c, true, append),
        Phase::Input => name_step(m, c, false, false),
        Phase::OutputDone => if c == '<' {
            switch(m, true)
        } else {
            Step::Next(m)
        },
        Phase::InputDone => if c == '>' {
            switch(m, false)
        } else {
            Step::Next(m)
        },
    }
}

/// What the scan yields when the statement ends.
pub open spec fn finish(m: SplitState) -> Result<PipelineView, ParseError> {
    match m.phase {
        Phase::Words => Ok(
            PipelineView {
                jobs: with_job(m.jobs, with_word(m.words, m.word), false),
                stdin: m.stdin,
                stdout: m.stdout,
            },
        ),
        Phase::OutputStart => Err(ParseError::MissingOutputFile),
        Phase::Output { append } => if m.name.len() == 0 {
            Err(ParseError::MissingOutputFile)
        } else {
            Ok(pipeline_of(capture(m, true, append)))
        },
        Phase::Input => if m.name.len() == 0 {
            Err(ParseError::MissingInputFile)
        } else {
            Ok(pipeline_of(capture(m, false, false)))
        },
        Phase::OutputDone | Phase::InputDone => Ok(pipeline_of(m)),
    }
}

/// The scan from state `m` over the rest `s` of the statement.
pub open spec fn run(m: SplitState, s: Seq<char>) -> Result<PipelineView, ParseError>
    decreases s.len(),
{
    if s.len() == 0 {
        finish(m)
    } else {
        match step(m, s[0]) {
            Step::Next(n) => run(n, s.drop_first()),
            Step::Stop(r) => r,
        }
    }
}

/// The pipeline, or the error, that a trimmed statement yields.
pub open spec fn parse(s: Seq<char>) -> Result<PipelineView, ParseError> {
    run(initial_state(), s)
}

/// Ends the argument `text[from..to]`, if it is not empty.
fn push_word(words: &mut Vec<String>, text: &str, from: usize, to: usize)
    requires
        from <= to <= text@.len(),
    ensures
        strings_view(final(words)@) == with_word(
            strings_view(old(words)@),
            text@.subrange(from as int, to as int),
        ),
{
    if from < to {
        let w = piece(text, from, to);
        words.push(w);
        proof {
            assert(strings_view(words@) =~= strings_view(old(words)@).push(w@));
        }
    }
}

/// Ends the job made of `words`, if it has any.
fn push_job(jobs: &mut Vec<Job>, words: Vec<String>, background: bool)
    requires
        jobs_wf(old(jobs)@),
    ensures
        jobs_wf(final(jobs)@),
        jobs_view(final(jobs)@) == with_job(
            jobs_view(old(jobs)@),
            strings_view(words@),
            background,
        ),
{
    if words.len() > 0 {
        let job = Job::new(words, background);
        jobs.push(job);
        proof {
            assert(jobs_view(jobs@) =~= jobs_view(old(jobs)@).push(job@));
            assert forall|k: int| 0 <= k < jobs@.len() implies #[trigger] jobs@[k].wf() by {
                if k < old(jobs)@.len() {
                    assert(jobs@[k] == old(jobs)@[k]);
                }
            }
        }
    }
}

/// Splits a trimmed statement into a pipeline, as `parse` states.
pub fn parse_pipeline(candidate: &str) -> (r: Result<Pipeline, ParseError>)
    ensures
        match r {
            Ok(p) => parse(candidate@) == Ok::<PipelineView, ParseError>(p@) && p.wf(),
            Err(e) => parse(candidate@) == Err::<PipelineView, ParseError>(e),
        },
{
    let chars = chars_of(candidate);
    let n = chars.len();
    let ghost s = candidate@;
    let mut scan = ScanState::new();
    let mut phase = Phase::Words;
    let mut escape = false;
    let mut word_start: usize = 0;
    let mut name_start: usize = 0;
    let mut words: Vec<String> = Vec::new();
    let mut jobs: Vec<Job> = Vec::new();
    let mut stdin: Option<Redirection> = None;
    let mut stdout: Option<Redirection> = None;
    let ghost mut m = initial_state();
    let mut i: usize = 0;
    proof {
        assert(s.subrange(0, n as int) =~= s);
        assert(strings_view(words@) =~= seq![]);
        assert(jobs_view(jobs@) =~= seq![]);
        assert(m.word =~= s.subrange(0, 0));
    }
    while i < n
        invariant
            chars@ == s,
            s == candidate@,
            n == s.len(),
            i <= n,
            word_start <= i,
            name_start <= i,
            m.scan == scan,
            m.phase == phase,
            m.escape == escape,
            phase is Words ==> m.word == s.subrange(word_start as int, i as int),
            phase.reads_name() ==> m.name == s.subrange(name_start as int, i as int),
            phase is OutputStart ==> name_start == i,
            strings_view(words@) == m.words,
            jobs_view(jobs@) == m.jobs,
            jobs_wf(jobs@),
            redirection_view(stdin) == m.stdin,
            redirection_view(stdout) == m.stdout,
            run(m, s.subrange(i as int, n as int)) == parse(s),
        decreases n - i,
    {
        let c = chars[i];
        proof {
            assert(s.subrange(i as int, n as int)[0] == c);
            assert(s.subrange(i as int, n as int).drop_first() =~= s.subrange(
                i as int + 1,
                n as int,
            ));
            assert(s.subrange(word_start as int, i as int + 1) =~= s.subrange(
                word_start as int,
                i as int,
            ).push(c));
            assert(s.subrange(name_start as int, i as int + 1) =~= s.subrange(
                name_start as int,
                i as int,
            ).push(c));
            assert(s.subrange(i as int + 1, i as int + 1) =~= seq![]);
        }
        match phase {
            Phase::Words => {
                let sig = scan.is_significant();
                scan = scan.advance(c);
                // Any other character, and any character inside quotes, after a
                // backslash or in a substitution, extends the argument.
                if !sig && (c == ' ' || c == '\t') {
                    push_word(&mut words, candidate, word_start, i);
                    word_start = i + 1;
                } else if !sig && (c == '|' || c == '&' || c == '>' || c == '<') {
                    push_word(&mut words, candidate, word_start, i);
                    if c == '&' {
                        push_job(&mut jobs, words, true);
                        return Ok(Pipeline::new(jobs, stdin, stdout));
                    }
                    push_job(&mut jobs, words, false);
                    words = Vec::new();
                    proof {
                        assert(strings_view(words@) =~= seq![]);
                    }
                    word_start = i + 1;
                    name_start = i + 1;
                    escape = false;
                    if c == '>' {
                        phase = Phase::OutputStart;
                    } else if c == '<' {
                        phase = Phase::Input;
                    }
                }
            },
            Phase::OutputDone | Phase::InputDone => {
                let output = matches!(phase, Phase::OutputDone);
                if (output && c == '<') || (!output && c == '>') {
                    if (output && stdin.is_some()) || (!output && stdout.is_some()) {
                        return Ok(Pipeline::new(jobs, stdin, stdout));
                    }
                    phase = if output {
                        Phase::Input
                    } else {
                        Phase::OutputStart
                    };
                    escape = false;
                    name_start = i + 1;
                }
            },
            _ => {
                if matches!(phase, Phase::OutputStart) && c == '>' {
                    phase = Phase::Output { append: true };
                    name_start = i + 1;
                } else {
                    if matches!(phase, Phase::OutputStart) {
                        phase = Phase::Output { append: false };
                    }
                    let (output, append) = match phase {
                        Phase::Output { append } => (true, append),
                        _ => (false, false),
                    };
                    if escape {
                        escape = false;
                    } else if c == '\\' {
                        escape = true;
                    } else if c == ' ' || c == '\t' || c == '|' {
                        if name_start == i {
                            name_start = i + 1;
                        } else {
                            let r = Redirection::new(piece(candidate, name_start, i), append);
                            if output {
                                stdout = Some(r);
                                phase = Phase::OutputDone;
                            } else {
                                stdin = Some(r);
                                phase = Phase::InputDone;
                            }
                        }
                    } else if (output && c == '<') || (!output && c == '>') {
                        if name_start == i {
                            return Err(
                                if output {
                                    ParseError::MissingOutputFile
                                } else {
                                    ParseError::MissingInputFile
                                },
                            );
                        }
                        let r = Redirection::new(piece(candidate, name_start, i), append);
                        if output {
                            stdout = Some(r);
                            if stdin.is_some() {
                                return Ok(Pipeline::new(jobs, stdin, stdout));
                            }
                            phase = Phase::Input;
                        } else {
                            stdin = Some(r);
                            if stdout.is_some() {
                                return Ok(Pipeline::new(jobs, stdin, stdout));
                            }
                            phase = Phase::OutputStart;
                        }
                        name_start = i + 1;
                    }
                }
            },
        }
        proof {
            m = match step(m, c) {
                Step::Next(next) => next,
                Step::Stop(_) => m,
            };
        }
        i = i + 1;
    }
    match phase {
        Phase::Words => {
            push_word(&mut words, candidate, word_start, n);
            push_job(&mut jobs, words, false);
            Ok(Pipeline::new(jobs, stdin, stdout))
        },
        Phase::OutputStart => Err(ParseError::MissingOutputFile),
        Phase::Output { append } => {
            if name_start == n {
                Err(ParseError::MissingOutputFile)
            } else {
                stdout = Some(Redirection::new(piece(candidate, name_start, n), append));
                Ok(Pipeline::new(jobs, stdin, stdout))
            }
        },
        Phase::Input => {
            if name_start == n {
                Err(ParseError::MissingInputFile)
            } else {
                stdin = Some(Redirection::new(piece(candidate, name_start, n), false));
                Ok(Pipeline::new(jobs, stdin, stdout))
            }
        },
        Phase::OutputDone | Phase::InputDone => Ok(Pipeline::new(jobs, stdin, stdout)),
    }
}

/// Parses one statement: a pipeline is appended to `pipelines`, or the error
/// is written to `possible_error`; a blank statement does neither.
pub fn collect(pipelines: &mut Vec<Pipeline>, possible_error: &mut Option<&str>, command: &str)
    ensures
        match trimmed(command@) {
            None => final(pipelines)@ == old(pipelines)@ && *final(possible_error)
                == *old(possible_error),
            Some(t) => match parse(t) {
                Ok(v) => {
                    &&& final(pipelines)@.len() == old(pipelines)@.len() + 1
                    &&& final(pipelines)@.drop_last() == old(pipelines)@
                    &&& final(pipelines)@.last()@ == v
                    &&& final(pipelines)@.last().wf()
                    &&& *final(possible_error) == *old(possible_error)
                },
                Err(e) => {
                    &&& final(pipelines)@ == old(pipelines)@
                    &&& *final(possible_error) is Some
                    &&& (*final(possible_error))->0@ == e.text()
                },
            },
        },
{
    let mut statements = PipelineIterator::new(command);
    if let Some(statement) = statements.next() {
        match parse_pipeline(statement) {
            Ok(p) => {
                pipelines.push(p);
                proof {
                    assert(pipelines@.drop_last() =~= old(pipelines)@);
                }
            },
            Err(e) => {
                *possible_error = Some(e.message());
            },
        }
    }
}

} // verus!
