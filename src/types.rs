//! Pipelines, jobs and redirections, with their mathematical views.

use vstd::prelude::*;

verus! {

/// A file bound to standard input or output.
pub struct Redirection {
    pub file: String,
    /// Only `>>` appends; input redirections never do.
    pub append: bool,
}

pub struct RedirectionView {
    pub file: Seq<char>,
    pub append: bool,
}

/// One command invocation: the program name and its arguments.
pub struct Job {
    pub command: String,
    pub args: Vec<String>,
    pub background: bool,
}

pub struct JobView {
    pub args: Seq<Seq<char>>,
    pub background: bool,
}

/// Jobs joined by pipes, with at most one input and one output file.
pub struct Pipeline {
    pub jobs: Vec<Job>,
    pub stdin: Option<Redirection>,
    pub stdout: Option<Redirection>,
}

pub struct PipelineView {
    pub jobs: Seq<JobView>,
    pub stdin: Option<RedirectionView>,
    pub stdout: Option<RedirectionView>,
}

pub open spec fn strings_view(v: Seq<String>) -> Seq<Seq<char>> {
    v.map_values(|a: String| a@)
}

pub open spec fn jobs_view(v: Seq<Job>) -> Seq<JobView> {
    v.map_values(|j: Job| j@)
}

pub open spec fn jobs_wf(v: Seq<Job>) -> bool {
    forall|k: int| 0 <= k < v.len() ==> #[trigger] v[k].wf()
}

pub open spec fn redirection_view(r: Option<Redirection>) -> Option<RedirectionView> {
    match r {
        Some(r) => Some(r@),
        None => None,
    }
}

impl View for Redirection {
    type V = RedirectionView;

    open spec fn view(&self) -> RedirectionView {
        RedirectionView { file: self.file@, append: self.append }
    }
}

impl View for Job {
    type V = JobView;

    open spec fn view(&self) -> JobView {
        JobView { args: strings_view(self.args@), background: self.background }
    }
}

impl View for Pipeline {
    type V = PipelineView;

    open spec fn view(&self) -> PipelineView {
        PipelineView {
            jobs: jobs_view(self.jobs@),
            stdin: redirection_view(self.stdin),
            stdout: redirection_view(self.stdout),
        }
    }
}

impl Redirection {
    pub fn new(file: String, append: bool) -> (r: Redirection)
        ensures
            r@ == (RedirectionView { file: file@, append }),
    {
        Redirection { file, append }
    }
}

impl Job {
    /// A job has at least one argument, and the first one names the program.
    pub open spec fn wf(&self) -> bool {
        self.args@.len() >= 1 && self.command@ == self.args@[0]@
    }

    pub fn new(args: Vec<String>, background: bool) -> (r: Job)
        requires
            args@.len() >= 1,
        ensures
            r.wf(),
            r@ == (JobView { args: strings_view(args@), background }),
    {
        let command = args[0].clone();
        Job { command, args, background }
    }
}

impl Pipeline {
    pub open spec fn wf(&self) -> bool {
        jobs_wf(self.jobs@)
    }

    pub fn new(jobs: Vec<Job>, stdin: Option<Redirection>, stdout: Option<Redirection>) -> (r:
        Pipeline)
        ensures
            r.jobs@ == jobs@,
            r@ == (PipelineView {
                jobs: jobs_view(jobs@),
                stdin: redirection_view(stdin),
                stdout: redirection_view(stdout),
            }),
    {
        Pipeline { jobs, stdin, stdout }
    }
}

} // verus!
