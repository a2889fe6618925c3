//! Waiting for a job and gathering what it reports.

use vstd::prelude::*;
use crate::events::{JobEvent, JobEventView};
use crate::lines::texts;
use crate::text::{join, joined};

verus! {

/// How long a wait lasts, in milliseconds, if nobody says.
pub const DEFAULT_WAIT_MS: u64 = 30_000;

/// How long a wait lasts, in milliseconds.
pub fn wait_timeout_ms(asked: Option<u64>) -> (timeout: u64)
    ensures
        timeout == (match asked {
            Some(timeout) => timeout,
            None => DEFAULT_WAIT_MS,
        }),
        asked is None ==> timeout == 30_000,
{
    match asked {
        Some(timeout) => timeout,
        None => DEFAULT_WAIT_MS,
    }
}

/// What a finished job has left.
pub struct JobOutput {
    pub stdout: String,
    pub stderr: String,
    pub exit_code: i32,
}

/// What a wait comes to after one more event.
pub enum WaitStep {
    /// The job still runs: wait for its next event.
    Continue,
    /// The time is up, or no event can come any more.
    Expired,
    /// The job has ended.
    Finished(JobOutput),
}

/// The texts that a wait has gathered, in the order in which they came.
#[verifier::ext_equal]
pub struct WaitView {
    pub stdout: Seq<Seq<char>>,
    pub stderr: Seq<Seq<char>>,
}

impl WaitView {
    /// A wait at its start.
    pub open spec fn empty() -> WaitView {
        WaitView { stdout: Seq::empty(), stderr: Seq::empty() }
    }

    /// The wait after an event: lines and chunks of a stream go into the same list.
    pub open spec fn after(self, event: JobEventView) -> WaitView {
        match event {
            JobEventView::Stdout(text) | JobEventView::StdoutChunk(text) => WaitView {
                stdout: self.stdout.push(text),
                ..self
            },
            JobEventView::Stderr(text) | JobEventView::StderrChunk(text) => WaitView {
                stderr: self.stderr.push(text),
                ..self
            },
            JobEventView::Exit(_) => self,
        }
    }

    /// `output` is what a job leaves that exits with `code` now: for each stream, what was
    /// gathered, a line feed between each two texts.
    pub open spec fn yields(self, code: i32, output: JobOutput) -> bool {
        &&& output.stdout@ == joined(self.stdout, "\n"@)
        &&& output.stderr@ == joined(self.stderr, "\n"@)
        &&& output.exit_code == code
    }
}

/// A wait for a job to end.
pub struct JobWait {
    stdout_lines: Vec<String>,
    stderr_lines: Vec<String>,
}

impl View for JobWait {
    type V = WaitView;

    closed spec fn view(&self) -> WaitView {
        WaitView { stdout: texts(self.stdout_lines@), stderr: texts(self.stderr_lines@) }
    }
}

impl JobWait {
    /// A wait that has seen nothing yet.
    pub fn new() -> (wait: Self)
        ensures
            wait@ == WaitView::empty(),
    {
        let wait = JobWait { stdout_lines: Vec::new(), stderr_lines: Vec::new() };
        assert(wait@ =~= WaitView::empty());
        wait
    }

    /// Takes the next event of the job, or its absence when the time is up or the channel closed.
    pub fn step(&mut self, event: Option<JobEvent>) -> (step: WaitStep)
        ensures
            match event {
                None => step is Expired && final(self)@ == old(self)@,
                Some(event) => {
                    &&& final(self)@ == old(self)@.after(event@)
                    &&& match event {
                        JobEvent::Exit(code) => step matches WaitStep::Finished(output) && old(
                            self,
                        )@.yields(code, output) && output.exit_code == code && output.stdout@
                            == joined(old(self)@.stdout, "\n"@) && output.stderr@ == joined(
                            old(self)@.stderr,
                            "\n"@,
                        ),
                        _ => step is Continue,
                    }
                    &&& match event {
                        JobEvent::Stdout(text) | JobEvent::StdoutChunk(text) => {
                            &&& final(self)@.stdout == old(self)@.stdout.push(text@)
                            &&& final(self)@.stderr == old(self)@.stderr
                        },
                        JobEvent::Stderr(text) | JobEvent::StderrChunk(text) => {
                            &&& final(self)@.stdout == old(self)@.stdout
                            &&& final(self)@.stderr == old(self)@.stderr.push(text@)
                        },
                        JobEvent::Exit(_) => final(self)@ == old(self)@,
                    }
                },
            },
    {
        let ghost before = self@;
        match event {
            None => WaitStep::Expired,
            Some(JobEvent::Stdout(text)) | Some(JobEvent::StdoutChunk(text)) => {
                self.stdout_lines.push(text);
                assert(self@.stdout =~= before.stdout.push(text@));
                WaitStep::Continue
            },
            Some(JobEvent::Stderr(text)) | Some(JobEvent::StderrChunk(text)) => {
                self.stderr_lines.push(text);
                assert(self@.stderr =~= before.stderr.push(text@));
                WaitStep::Continue
            },
            Some(JobEvent::Exit(code)) => {
                let stdout = join(&self.stdout_lines, "\n");
                let stderr = join(&self.stderr_lines, "\n");
                WaitStep::Finished(JobOutput { stdout, stderr, exit_code: code })
            },
        }
    }
}

} // verus!
