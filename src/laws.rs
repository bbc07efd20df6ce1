//! Properties of statement splitting, proved over `trimmed` and `parse`.

use vstd::prelude::*;
use crate::scan::ScanState;
use crate::split::{
    capture, finish, initial_state, name_step, parse, run, step, with_job, with_word, ParseError,
    Phase, SplitState, Step,
};
use crate::trim::{has_content, is_blank, is_white, skip_blanks, trimmed};
use crate::types::{JobView, PipelineView, RedirectionView};

verus! {

/// The state after reading `s` from `m`, or the result if the scan stopped.
pub open spec fn scan_to(m: SplitState, s: Seq<char>) -> Step
    decreases s.len(),
{
    if s.len() == 0 {
        Step::Next(m)
    } else {
        match step(m, s[0]) {
            Step::Next(n) => scan_to(n, s.drop_first()),
            Step::Stop(r) => Step::Stop(r),
        }
    }
}

/// The state after reading `p` from the start of a statement, if it goes on.
pub open spec fn state_after(p: Seq<char>) -> Option<SplitState> {
    match scan_to(initial_state(), p) {
        Step::Next(m) => Some(m),
        Step::Stop(_) => None,
    }
}

/// Reading arguments, outside quotes, escapes and substitutions.
pub open spec fn between_words(p: Seq<char>) -> bool {
    &&& state_after(p) is Some
    &&& state_after(p)->0.phase is Words
    &&& !state_after(p)->0.scan.significant()
}

pub open spec fn all_blank(x: Seq<char>) -> bool {
    forall|j: int| 0 <= j < x.len() ==> is_blank(#[trigger] x[j])
}

/// A character that a file name holds as it is and that never ends it.
pub open spec fn is_plain(c: char) -> bool {
    !is_blank(c) && c != '|' && c != '<' && c != '>' && c != '\\'
}

pub open spec fn all_plain(x: Seq<char>) -> bool {
    forall|j: int| 0 <= j < x.len() ==> is_plain(#[trigger] x[j])
}

proof fn lemma_run_append(m: SplitState, p: Seq<char>, q: Seq<char>)
    ensures
        run(m, p + q) == match scan_to(m, p) {
            Step::Next(n) => run(n, q),
            Step::Stop(r) => r,
        },
    decreases p.len(),
{
    if p.len() == 0 {
        assert(p + q =~= q);
    } else {
        assert((p + q)[0] == p[0]);
        assert((p + q).drop_first() =~= p.drop_first() + q);
        match step(m, p[0]) {
            Step::Next(n) => lemma_run_append(n, p.drop_first(), q),
            Step::Stop(_) => {},
        }
    }
}

proof fn lemma_scan_append(m: SplitState, p: Seq<char>, q: Seq<char>)
    ensures
        scan_to(m, p + q) == match scan_to(m, p) {
            Step::Next(n) => scan_to(n, q),
            Step::Stop(r) => Step::Stop(r),
        },
    decreases p.len(),
{
    if p.len() == 0 {
        assert(p + q =~= q);
    } else {
        assert((p + q)[0] == p[0]);
        assert((p + q).drop_first() =~= p.drop_first() + q);
        match step(m, p[0]) {
            Step::Next(n) => lemma_scan_append(n, p.drop_first(), q),
            Step::Stop(_) => {},
        }
    }
}

proof fn lemma_parse_after(p: Seq<char>, q: Seq<char>)
    requires
        state_after(p) is Some,
    ensures
        parse(p + q) == run(state_after(p)->0, q),
{
    lemma_run_append(initial_state(), p, q);
}

/// Outside the argument phase no redirection is known.
proof fn lemma_words_without_files(p: Seq<char>)
    requires
        state_after(p) is Some,
        state_after(p)->0.phase is Words,
    ensures
        state_after(p)->0.stdin is None,
        state_after(p)->0.stdout is None,
{
    lemma_words_without_files_from(initial_state(), p);
}

proof fn lemma_words_without_files_from(m: SplitState, p: Seq<char>)
    requires
        m.phase is Words ==> m.stdin is None && m.stdout is None,
    ensures
        scan_to(m, p) is Next && scan_to(m, p)->Next_0.phase is Words ==> scan_to(
            m,
            p,
        )->Next_0.stdin is None && scan_to(m, p)->Next_0.stdout is None,
    decreases p.len(),
{
    if p.len() > 0 {
        match step(m, p[0]) {
            Step::Next(n) => lemma_words_without_files_from(n, p.drop_first()),
            Step::Stop(_) => {},
        }
    }
}

/// The state after one blank between words.
pub open spec fn after_blank(m: SplitState) -> SplitState {
    SplitState {
        scan: ScanState { dollar: false, ..m.scan },
        word: seq![],
        words: with_word(m.words, m.word),
        ..m
    }
}

proof fn lemma_blanks_between_words(m: SplitState, x: Seq<char>)
    requires
        m.phase is Words,
        !m.scan.significant(),
        x.len() >= 1,
        all_blank(x),
    ensures
        scan_to(m, x) == Step::Next(after_blank(m)),
    decreases x.len(),
{
    let n = after_blank(m);
    assert(step(m, x[0]) == Step::Next(n));
    if x.len() > 1 {
        assert(after_blank(n) =~= n);
        assert(all_blank(x.drop_first())) by {
            assert forall|j: int| 0 <= j < x.drop_first().len() implies is_blank(
                #[trigger] x.drop_first()[j],
            ) by {
                assert(x.drop_first()[j] == x[j + 1]);
            }
        }
        lemma_blanks_between_words(n, x.drop_first());
    } else {
        assert(x.drop_first().len() == 0);
    }
}

/// A statement of spaces, tabs, carriage returns and line feeds alone, the
/// empty one included, yields nothing.
pub proof fn lemma_white_statement_is_skipped(s: Seq<char>)
    requires
        forall|j: int| 0 <= j < s.len() ==> is_white(#[trigger] s[j]),
    ensures
        trimmed(s) is None,
{
    lemma_skip_blanks_is_suffix(s);
    let t = skip_blanks(s);
    let k = s.len() - t.len();
    assert(!has_content(t)) by {
        assert forall|j: int| 0 <= j < t.len() implies is_white(#[trigger] t[j]) by {
            assert(t[j] == s[j + k]);
        }
    }
}

proof fn lemma_skip_blanks_is_suffix(s: Seq<char>)
    ensures
        skip_blanks(s).len() <= s.len(),
        skip_blanks(s) == s.subrange(s.len() - skip_blanks(s).len(), s.len() as int),
    decreases s.len(),
{
    if s.len() > 0 && is_blank(s[0]) {
        lemma_skip_blanks_is_suffix(s.drop_first());
        let t = skip_blanks(s.drop_first());
        assert(s.drop_first().subrange(
            s.drop_first().len() - t.len(),
            s.drop_first().len() as int,
        ) =~= s.subrange(s.len() - t.len(), s.len() as int));
    } else {
        assert(s.subrange(0, s.len() as int) =~= s);
    }
}

/// Between words, a run of spaces and tabs splits as one space does.
pub proof fn lemma_blank_runs_collapse(p: Seq<char>, x: Seq<char>, q: Seq<char>)
    requires
        between_words(p),
        x.len() >= 1,
        all_blank(x),
    ensures
        parse(p + x + q) == parse(p + seq![' '] + q),
{
    let m = state_after(p)->0;
    assert(p + x + q =~= p + (x + q));
    assert(p + seq![' '] + q =~= p + (seq![' '] + q));
    lemma_parse_after(p, x + q);
    lemma_parse_after(p, seq![' '] + q);
    lemma_run_append(m, x, q);
    lemma_run_append(m, seq![' '], q);
    lemma_blanks_between_words(m, x);
    lemma_blanks_between_words(m, seq![' ']);
}

/// An `&` after the arguments of a job, with or without blanks before it,
/// marks that job as a background one and ends the statement: what follows
/// is not read.
pub proof fn lemma_trailing_ampersand(p: Seq<char>, x: Seq<char>, r: Seq<char>)
    requires
        between_words(p),
        with_word(state_after(p)->0.words, state_after(p)->0.word).len() > 0,
        all_blank(x),
    ensures
        parse(p) is Ok,
        parse(p)->Ok_0.jobs.len() >= 1,
        parse(p + x + seq!['&'] + r) == Ok::<PipelineView, ParseError>(
            PipelineView {
                jobs: parse(p)->Ok_0.jobs.update(
                    parse(p)->Ok_0.jobs.len() - 1,
                    JobView { background: true, ..parse(p)->Ok_0.jobs.last() },
                ),
                ..parse(p)->Ok_0
            },
        ),
{
    let m = state_after(p)->0;
    let w = with_word(m.words, m.word);
    assert(p =~= p + seq![]);
    lemma_parse_after(p, seq![]);
    assert(p + x + seq!['&'] + r =~= p + (x + (seq!['&'] + r)));
    lemma_parse_after(p, x + (seq!['&'] + r));
    lemma_run_append(m, x, seq!['&'] + r);
    let n = if x.len() > 0 {
        lemma_blanks_between_words(m, x);
        after_blank(m)
    } else {
        m
    };
    assert(scan_to(m, x) == Step::Next(n));
    assert(with_word(n.words, n.word) == w);
    assert((seq!['&'] + r)[0] == '&');
    let v = parse(p)->Ok_0;
    assert(v.jobs == m.jobs.push(JobView { args: w, background: false }));
    assert(m.jobs.push(JobView { args: w, background: true }) =~= v.jobs.update(
        v.jobs.len() - 1,
        JobView { background: true, ..v.jobs.last() },
    ));
}

pub open spec fn reading_name(m: SplitState) -> bool {
    (m.phase is Output || m.phase is Input) && !m.escape
}

proof fn lemma_all_blank_tail(x: Seq<char>)
    requires
        x.len() >= 1,
        all_blank(x),
    ensures
        all_blank(x.drop_first()),
{
    assert forall|j: int| 0 <= j < x.drop_first().len() implies is_blank(
        #[trigger] x.drop_first()[j],
    ) by {
        assert(x.drop_first()[j] == x[j + 1]);
    }
}

/// Blanks before a file name are skipped.
proof fn lemma_blanks_before_name(m: SplitState, x: Seq<char>)
    requires
        reading_name(m),
        m.name.len() == 0,
        all_blank(x),
    ensures
        scan_to(m, x) == Step::Next(m),
    decreases x.len(),
{
    if x.len() > 0 {
        lemma_all_blank_tail(x);
        lemma_blanks_before_name(m, x.drop_first());
    }
}

/// Plain characters extend the file name.
proof fn lemma_plain_name(m: SplitState, a: Seq<char>)
    requires
        reading_name(m),
        all_plain(a),
    ensures
        scan_to(m, a) == Step::Next(SplitState { name: m.name + a, ..m }),
    decreases a.len(),
{
    if a.len() == 0 {
        assert(m.name + a =~= m.name);
        assert(SplitState { name: m.name + a, ..m } == m);
    } else {
        let n = SplitState { name: m.name.push(a[0]), ..m };
        assert(step(m, a[0]) == Step::Next(n));
        assert(all_plain(a.drop_first())) by {
            assert forall|j: int| 0 <= j < a.drop_first().len() implies is_plain(
                #[trigger] a.drop_first()[j],
            ) by {
                assert(a.drop_first()[j] == a[j + 1]);
            }
        }
        lemma_plain_name(n, a.drop_first());
        assert(n.name + a.drop_first() =~= m.name + a);
    }
}

/// Blanks, then a plain non-empty name.
proof fn lemma_name(m: SplitState, x: Seq<char>, a: Seq<char>)
    requires
        reading_name(m),
        m.name.len() == 0,
        all_blank(x),
        all_plain(a),
    ensures
        scan_to(m, x + a) == Step::Next(SplitState { name: a, ..m }),
{
    lemma_scan_append(m, x, a);
    lemma_blanks_before_name(m, x);
    lemma_plain_name(m, a);
    assert(m.name + a =~= a);
}

/// Just after `>`, anything but a second `>` is read as a name character.
proof fn lemma_output_start(m: SplitState, s: Seq<char>)
    requires
        m.phase is OutputStart,
        s.len() >= 1,
        s[0] != '>',
    ensures
        scan_to(m, s) == scan_to(SplitState { phase: Phase::Output { append: false }, ..m }, s),
{
}

/// The state just after the redirection character `c` that follows `p`.
pub open spec fn after_operator(p: Seq<char>, c: char) -> SplitState {
    match step(state_after(p)->0, c) {
        Step::Next(n) => n,
        Step::Stop(_) => state_after(p)->0,
    }
}

/// `>>` asks for appending to the output file, a single `>` does not.
pub proof fn lemma_append_only_for_double(p: Seq<char>, x: Seq<char>, b: Seq<char>)
    requires
        between_words(p),
        all_blank(x),
        b.len() >= 1,
        all_plain(b),
    ensures
        parse(p + seq!['>', '>'] + x + b) is Ok,
        parse(p + seq!['>', '>'] + x + b)->Ok_0.stdout == Some(
            RedirectionView { file: b, append: true },
        ),
        parse(p + seq!['>'] + x + b) is Ok,
        parse(p + seq!['>'] + x + b)->Ok_0.stdout == Some(
            RedirectionView { file: b, append: false },
        ),
{
    let m = state_after(p)->0;
    let o = after_operator(p, '>');
    assert(step(m, '>') == Step::Next(o));
    assert(o.phase is OutputStart && o.name.len() == 0 && !o.escape);
    // `>>`
    let ot = SplitState { phase: Phase::Output { append: true }, ..o };
    assert(p + seq!['>', '>'] + x + b =~= p + (seq!['>', '>'] + (x + b)));
    lemma_parse_after(p, seq!['>', '>'] + (x + b));
    lemma_run_append(m, seq!['>', '>'], x + b);
    assert(seq!['>', '>'].drop_first() =~= seq!['>']);
    assert(seq!['>'].drop_first() =~= Seq::<char>::empty());
    assert(scan_to(o, seq!['>']) == scan_to(ot, Seq::<char>::empty()));
    assert(scan_to(m, seq!['>', '>']) == Step::Next(ot));
    lemma_run_append(ot, x + b, seq![]);
    assert(x + b + seq![] =~= x + b);
    lemma_name(ot, x, b);
    // `>`
    let of = SplitState { phase: Phase::Output { append: false }, ..o };
    assert(p + seq!['>'] + x + b =~= p + (seq!['>'] + (x + b)));
    lemma_parse_after(p, seq!['>'] + (x + b));
    lemma_run_append(m, seq!['>'], x + b);
    assert(seq!['>'][0] == '>');
    assert(scan_to(o, Seq::<char>::empty()) == Step::Next(o));
    assert(scan_to(m, seq!['>']) == Step::Next(o));
    lemma_run_append(o, x + b, seq![]);
    assert((x + b)[0] != '>') by {
        if x.len() > 0 {
            assert((x + b)[0] == x[0]);
        } else {
            assert((x + b)[0] == b[0]);
        }
    }
    lemma_output_start(o, x + b);
    lemma_name(of, x, b);
}

/// Once a file name has ended, blanks are ignored.
proof fn lemma_blanks_after_name(d: SplitState, x: Seq<char>)
    requires
        d.phase is OutputDone || d.phase is InputDone,
        all_blank(x),
    ensures
        scan_to(d, x) == Step::Next(d),
    decreases x.len(),
{
    if x.len() > 0 {
        lemma_all_blank_tail(x);
        lemma_blanks_after_name(d, x.drop_first());
    }
}

pub open spec fn other_operator(output: bool) -> char {
    if output {
        '<'
    } else {
        '>'
    }
}

/// A file name ends at blanks or at the other redirection character, and
/// the other redirection is read next.
proof fn lemma_name_then_other(m: SplitState, x: Seq<char>, output: bool, append: bool)
    requires
        m.phase == (if output {
            Phase::Output { append }
        } else {
            Phase::Input
        }),
        !m.escape,
        m.name.len() >= 1,
        all_blank(x),
        !output ==> !append,
        if output {
            m.stdin is None
        } else {
            m.stdout is None
        },
    ensures
        scan_to(m, x + seq![other_operator(output)]) == Step::Next(
            SplitState {
                phase: if output {
                    Phase::Input
                } else {
                    Phase::OutputStart
                },
                escape: false,
                name: seq![],
                ..capture(m, output, append)
            },
        ),
{
    let c = other_operator(output);
    let z = x + seq![c];
    let switched = SplitState {
        phase: if output {
            Phase::Input
        } else {
            Phase::OutputStart
        },
        escape: false,
        name: seq![],
        ..capture(m, output, append)
    };
    assert(seq![c].drop_first() =~= Seq::<char>::empty());
    assert(seq![c][0] == c);
    assert forall|e: char| step(m, e) == name_step(m, e, output, append) by {
        if output {
            assert(m.phase == Phase::Output { append });
        } else {
            assert(m.phase == Phase::Input);
        }
    }
    if x.len() == 0 {
        assert(z =~= seq![c]);
        assert(step(m, c) == Step::Next(switched));
        assert(scan_to(switched, Seq::<char>::empty()) == Step::Next(switched));
    } else {
        let d = SplitState {
            phase: if output {
                Phase::OutputDone
            } else {
                Phase::InputDone
            },
            ..capture(m, output, append)
        };
        assert(z[0] == x[0]);
        assert(step(m, x[0]) == Step::Next(d));
        assert(z.drop_first() =~= x.drop_first() + seq![c]);
        lemma_all_blank_tail(x);
        lemma_scan_append(d, x.drop_first(), seq![c]);
        lemma_blanks_after_name(d, x.drop_first());
        assert(step(d, c) == Step::Next(switched));
        assert(scan_to(switched, Seq::<char>::empty()) == Step::Next(switched));
    }
}

proof fn lemma_first_not_append(x: Seq<char>, b: Seq<char>)
    requires
        all_blank(x),
        b.len() >= 1,
        all_plain(b),
    ensures
        (x + b).len() >= 1,
        (x + b)[0] != '>',
{
    if x.len() > 0 {
        assert((x + b)[0] == x[0]);
    } else {
        assert((x + b)[0] == b[0]);
    }
}

/// An input and an output redirection may come in either order: the jobs
/// before them and the files are the same.
pub proof fn lemma_redirection_order(
    p: Seq<char>,
    x1: Seq<char>,
    a: Seq<char>,
    x2: Seq<char>,
    x3: Seq<char>,
    b: Seq<char>,
)
    requires
        between_words(p),
        all_blank(x1),
        all_blank(x2),
        all_blank(x3),
        a.len() >= 1,
        all_plain(a),
        b.len() >= 1,
        all_plain(b),
    ensures
        parse(p) is Ok,
        parse(p + seq!['<'] + x1 + a + x2 + seq!['>'] + x3 + b) == Ok::<
            PipelineView,
            ParseError,
        >(
            PipelineView {
                jobs: parse(p)->Ok_0.jobs,
                stdin: Some(RedirectionView { file: a, append: false }),
                stdout: Some(RedirectionView { file: b, append: false }),
            },
        ),
        parse(p + seq!['>'] + x3 + b + x2 + seq!['<'] + x1 + a) == parse(
            p + seq!['<'] + x1 + a + x2 + seq!['>'] + x3 + b,
        ),
{
    let m = state_after(p)->0;
    lemma_words_without_files(p);
    assert(p =~= p + seq![]);
    lemma_parse_after(p, seq![]);
    let jobs = parse(p)->Ok_0.jobs;
    let want = PipelineView {
        jobs,
        stdin: Some(RedirectionView { file: a, append: false }),
        stdout: Some(RedirectionView { file: b, append: false }),
    };
    // `<` first
    let mi = after_operator(p, '<');
    assert(step(m, '<') == Step::Next(mi));
    assert(seq!['<'][0] == '<');
    assert(seq!['<'].drop_first() =~= Seq::<char>::empty());
    assert(scan_to(mi, Seq::<char>::empty()) == Step::Next(mi));
    assert(scan_to(m, seq!['<']) == Step::Next(mi));
    let rest1 = (x1 + a) + ((x2 + seq!['>']) + (x3 + b));
    assert(p + seq!['<'] + x1 + a + x2 + seq!['>'] + x3 + b =~= p + (seq!['<'] + rest1));
    lemma_parse_after(p, seq!['<'] + rest1);
    lemma_run_append(m, seq!['<'], rest1);
    lemma_run_append(mi, x1 + a, (x2 + seq!['>']) + (x3 + b));
    lemma_name(mi, x1, a);
    let ma = SplitState { name: a, ..mi };
    lemma_run_append(ma, x2 + seq!['>'], x3 + b);
    lemma_name_then_other(ma, x2, false, false);
    let mo = SplitState {
        phase: Phase::OutputStart,
        escape: false,
        name: seq![],
        ..capture(ma, false, false)
    };
    lemma_first_not_append(x3, b);
    lemma_output_start(mo, x3 + b);
    let of = SplitState { phase: Phase::Output { append: false }, ..mo };
    lemma_run_append(of, x3 + b, seq![]);
    assert(x3 + b + seq![] =~= x3 + b);
    lemma_name(of, x3, b);
    assert(finish(SplitState { name: b, ..of }) == Ok::<PipelineView, ParseError>(
        want,
    ));
    // `>` first
    let mo2 = after_operator(p, '>');
    assert(step(m, '>') == Step::Next(mo2));
    assert(seq!['>'][0] == '>');
    assert(seq!['>'].drop_first() =~= Seq::<char>::empty());
    assert(scan_to(mo2, Seq::<char>::empty()) == Step::Next(mo2));
    assert(scan_to(m, seq!['>']) == Step::Next(mo2));
    let rest2 = (x3 + b) + ((x2 + seq!['<']) + (x1 + a));
    assert(p + seq!['>'] + x3 + b + x2 + seq!['<'] + x1 + a =~= p + (seq!['>'] + rest2));
    lemma_parse_after(p, seq!['>'] + rest2);
    lemma_run_append(m, seq!['>'], rest2);
    lemma_run_append(mo2, x3 + b, (x2 + seq!['<']) + (x1 + a));
    assert(rest2[0] == (x3 + b)[0]);
    lemma_output_start(mo2, x3 + b);
    let of2 = SplitState { phase: Phase::Output { append: false }, ..mo2 };
    lemma_name(of2, x3, b);
    let mb = SplitState { name: b, ..of2 };
    lemma_run_append(mb, x2 + seq!['<'], x1 + a);
    lemma_name_then_other(mb, x2, true, false);
    let mi2 = SplitState {
        phase: Phase::Input,
        escape: false,
        name: seq![],
        ..capture(mb, true, false)
    };
    lemma_run_append(mi2, x1 + a, seq![]);
    assert(x1 + a + seq![] =~= x1 + a);
    lemma_name(mi2, x1, a);
    assert(finish(SplitState { name: a, ..mi2 }) == Ok::<PipelineView, ParseError>(
        want,
    ));
}

/// `t` stands in `s` as it is: characters `lo..hi` of it.
pub open spec fn is_piece(t: Seq<char>, s: Seq<char>) -> bool {
    exists|lo: int, hi: int| 0 <= lo <= hi <= s.len() && t == #[trigger] s.subrange(lo, hi)
}

pub open spec fn all_pieces(ts: Seq<Seq<char>>, s: Seq<char>) -> bool {
    forall|k: int| 0 <= k < ts.len() ==> is_piece(#[trigger] ts[k], s)
}

pub open spec fn jobs_are_pieces(jobs: Seq<JobView>, s: Seq<char>) -> bool {
    forall|j: int| 0 <= j < jobs.len() ==> all_pieces(#[trigger] jobs[j].args, s)
}

pub open spec fn file_is_piece(r: Option<RedirectionView>, s: Seq<char>) -> bool {
    r is Some ==> is_piece(r->0.file, s)
}

/// Every argument and every file name of `v` stands in `s` as it is.
pub open spec fn pieces_of(v: PipelineView, s: Seq<char>) -> bool {
    &&& jobs_are_pieces(v.jobs, s)
    &&& file_is_piece(v.stdin, s)
    &&& file_is_piece(v.stdout, s)
}

spec fn state_pieces(m: SplitState, s: Seq<char>, i: int, ws: int, ns: int) -> bool {
    &&& 0 <= ws <= i <= s.len()
    &&& 0 <= ns <= i
    &&& (m.phase is Words ==> m.word == s.subrange(ws, i))
    &&& (m.phase.reads_name() ==> m.name == s.subrange(ns, i))
    &&& (m.phase is OutputStart ==> m.name.len() == 0)
    &&& all_pieces(m.words, s)
    &&& jobs_are_pieces(m.jobs, s)
    &&& file_is_piece(m.stdin, s)
    &&& file_is_piece(m.stdout, s)
}

proof fn lemma_with_word_pieces(words: Seq<Seq<char>>, w: Seq<char>, s: Seq<char>)
    requires
        all_pieces(words, s),
        is_piece(w, s),
    ensures
        all_pieces(with_word(words, w), s),
{
    if w.len() > 0 {
        assert forall|k: int| 0 <= k < words.push(w).len() implies is_piece(
            #[trigger] words.push(w)[k],
            s,
        ) by {
            if k < words.len() {
                assert(words.push(w)[k] == words[k]);
            }
        }
    }
}

proof fn lemma_with_job_pieces(jobs: Seq<JobView>, words: Seq<Seq<char>>, bg: bool, s: Seq<char>)
    requires
        jobs_are_pieces(jobs, s),
        all_pieces(words, s),
    ensures
        jobs_are_pieces(with_job(jobs, words, bg), s),
{
    if words.len() > 0 {
        let js = jobs.push(JobView { args: words, background: bg });
        assert forall|j: int| 0 <= j < js.len() implies all_pieces(#[trigger] js[j].args, s) by {
            if j < jobs.len() {
                assert(js[j] == jobs[j]);
            }
        }
    }
}

proof fn lemma_piece_at(s: Seq<char>, lo: int, hi: int)
    requires
        0 <= lo <= hi <= s.len(),
    ensures
        is_piece(s.subrange(lo, hi), s),
{
}

proof fn lemma_run_pieces(m: SplitState, s: Seq<char>, i: int, ws: int, ns: int)
    requires
        state_pieces(m, s, i, ws, ns),
    ensures
        run(m, s.subrange(i, s.len() as int)) is Ok ==> pieces_of(
            run(m, s.subrange(i, s.len() as int))->Ok_0,
            s,
        ),
    decreases s.len() - i,
{
    let rest = s.subrange(i, s.len() as int);
    if i == s.len() {
        assert(rest.len() == 0);
        if m.phase is Words {
            lemma_piece_at(s, ws, i);
            lemma_with_word_pieces(m.words, m.word, s);
            lemma_with_job_pieces(m.jobs, with_word(m.words, m.word), false, s);
        } else if m.phase.reads_name() {
            lemma_piece_at(s, ns, i);
        }
    } else {
        let c = s[i];
        assert(rest[0] == c);
        assert(rest.drop_first() =~= s.subrange(i + 1, s.len() as int));
        lemma_piece_at(s, ws, i);
        lemma_piece_at(s, ns, i);
        if m.phase is Words {
            lemma_with_word_pieces(m.words, m.word, s);
            lemma_with_job_pieces(m.jobs, with_word(m.words, m.word), false, s);
            lemma_with_job_pieces(m.jobs, with_word(m.words, m.word), true, s);
            assert(all_pieces(seq![], s));
        }
        assert(s.subrange(ws, i + 1) =~= s.subrange(ws, i).push(c));
        assert(s.subrange(ns, i + 1) =~= s.subrange(ns, i).push(c));
        assert(s.subrange(i + 1, i + 1) =~= Seq::<char>::empty());
        match step(m, c) {
            Step::Next(n) => {
                let ws2 = if n.word.len() == 0 {
                    i + 1
                } else {
                    ws
                };
                let ns2 = if n.name.len() == 0 {
                    i + 1
                } else {
                    ns
                };
                if n.name.len() == 0 {
                    assert(n.name =~= s.subrange(i + 1, i + 1));
                }
                if n.word.len() == 0 {
                    assert(n.word =~= s.subrange(i + 1, i + 1));
                }
                assert(state_pieces(n, s, i + 1, ws2, ns2));
                lemma_run_pieces(n, s, i + 1, ws2, ns2);
            },
            Step::Stop(_) => {},
        }
    }
}

/// Arguments and file names are pieces of the statement as it was written:
/// no quote and no backslash is taken out.
pub proof fn lemma_arguments_are_verbatim(command: Seq<char>)
    requires
        trimmed(command) is Some,
        parse(trimmed(command)->0) is Ok,
    ensures
        pieces_of(parse(trimmed(command)->0)->Ok_0, trimmed(command)->0),
        pieces_of(parse(trimmed(command)->0)->Ok_0, command),
{
    let t = trimmed(command)->0;
    assert(t.subrange(0, t.len() as int) =~= t);
    assert(initial_state().word =~= t.subrange(0, 0));
    assert(state_pieces(initial_state(), t, 0, 0, 0));
    lemma_run_pieces(initial_state(), t, 0, 0, 0);
    lemma_skip_blanks_is_suffix(command);
    let k = command.len() - t.len();
    let v = parse(t)->Ok_0;
    assert forall|u: Seq<char>| is_piece(u, t) implies is_piece(u, command) by {
        let (lo, hi) = choose|lo: int, hi: int|
            0 <= lo <= hi <= t.len() && u == #[trigger] t.subrange(lo, hi);
        assert(u =~= command.subrange(lo + k, hi + k));
    }
    assert forall|j: int| 0 <= j < v.jobs.len() implies all_pieces(
        #[trigger] v.jobs[j].args,
        command,
    ) by {
        assert(all_pieces(v.jobs[j].args, t));
        assert forall|q: int| 0 <= q < v.jobs[j].args.len() implies is_piece(
            #[trigger] v.jobs[j].args[q],
            command,
        ) by {
            assert(is_piece(v.jobs[j].args[q], t));
        }
    }
}

/// Blanks and the characters `|`, `&`, `<`, `>`.
pub open spec fn is_operator(c: char) -> bool {
    is_blank(c) || c == '|' || c == '&' || c == '<' || c == '>'
}

proof fn lemma_one_word(m: SplitState, s: Seq<char>)
    requires
        m.phase is Words,
        m.words.len() == 0,
        m.jobs.len() == 0,
        m.stdin is None,
        m.stdout is None,
        forall|j: int| 0 <= j < s.len() ==> !is_operator(#[trigger] s[j]),
    ensures
        run(m, s) == Ok::<PipelineView, ParseError>(
            PipelineView {
                jobs: with_job(seq![], with_word(seq![], m.word + s), false),
                stdin: None,
                stdout: None,
            },
        ),
    decreases s.len(),
{
    if s.len() == 0 {
        assert(m.word + s =~= m.word);
        assert(m.words =~= seq![]);
        assert(m.jobs =~= seq![]);
    } else {
        let n = SplitState { scan: m.scan.next(s[0]), word: m.word.push(s[0]), ..m };
        assert(step(m, s[0]) == Step::Next(n));
        assert(n.word + s.drop_first() =~= m.word + s);
        lemma_one_word(n, s.drop_first());
    }
}

/// A statement without blanks and operators is one job whose only argument
/// is the whole statement.
pub proof fn lemma_statement_without_operators(s: Seq<char>)
    requires
        s.len() >= 1,
        forall|j: int| 0 <= j < s.len() ==> !is_operator(#[trigger] s[j]),
    ensures
        parse(s) == Ok::<PipelineView, ParseError>(
            PipelineView {
                jobs: seq![JobView { args: seq![s], background: false }],
                stdin: None,
                stdout: None,
            },
        ),
{
    lemma_one_word(initial_state(), s);
    assert(initial_state().word + s =~= s);
    assert(with_word(seq![], s) =~= seq![s]);
    assert(with_job(seq![], seq![s], false) =~= seq![JobView { args: seq![s], background: false }]);
}

} // verus!
