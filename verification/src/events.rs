//! What a job reports while it runs.

use vstd::prelude::*;

verus! {

/// One report of a running job.
#[derive(Debug)]
pub enum JobEvent {
    /// A whole line of standard output, without its line ending.
    Stdout(String),
    /// A whole line of standard error, without its line ending.
    Stderr(String),
    /// A piece of standard output exactly as it was read.
    StdoutChunk(String),
    /// A piece of standard error exactly as it was read.
    StderrChunk(String),
    /// The process ended with this code.
    Exit(i32),
}

/// The mathematical value of a [`JobEvent`].
pub enum JobEventView {
    Stdout(Seq<char>),
    Stderr(Seq<char>),
    StdoutChunk(Seq<char>),
    StderrChunk(Seq<char>),
    Exit(i32),
}

impl View for JobEvent {
    type V = JobEventView;

    open spec fn view(&self) -> JobEventView {
        match self {
            JobEvent::Stdout(s) => JobEventView::Stdout(s@),
            JobEvent::Stderr(s) => JobEventView::Stderr(s@),
            JobEvent::StdoutChunk(s) => JobEventView::StdoutChunk(s@),
            JobEvent::StderrChunk(s) => JobEventView::StderrChunk(s@),
            JobEvent::Exit(code) => JobEventView::Exit(*code),
        }
    }
}

impl Clone for JobEvent {
    fn clone(&self) -> (copy: Self)
        ensures
            copy@ == self@,
    {
        match self {
            JobEvent::Stdout(s) => JobEvent::Stdout(s.clone()),
            JobEvent::Stderr(s) => JobEvent::Stderr(s.clone()),
            JobEvent::StdoutChunk(s) => JobEvent::StdoutChunk(s.clone()),
            JobEvent::StderrChunk(s) => JobEvent::StderrChunk(s.clone()),
            JobEvent::Exit(code) => JobEvent::Exit(*code),
        }
    }
}

} // verus!
