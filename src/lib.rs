//! Splitting one shell statement into a pipeline of jobs, their arguments,
//! background markers and file redirections.
//!
//! - `scan`: the quoting, escaping and substitution tracker.
//! - `trim`: leading blanks dropped, blank statements rejected.
//! - `split`: the job and redirection scan, stated as the state machine
//!   `split::run` and carried out by `split::parse_pipeline` and
//!   `split::collect`.
//! - `laws`: properties of the scan, proved over those specifications.
//! - `types`: pipelines, jobs and redirections with their views.

pub mod laws;
pub mod scan;
pub mod split;
mod text;
pub mod trim;
pub mod types;
