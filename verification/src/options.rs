//! What a caller may ask of a job.

use std::collections::HashMap;
use vstd::prelude::*;
use mlua::RegistryKey;
use crate::reader::Stream;

verus! {

/// What a caller asks of a job beyond its command line.
pub struct JobOptions {
    /// The working directory, as it was given.
    pub cwd: Option<String>,
    /// Variables to set on top of the inherited ones.
    pub env: Option<HashMap<String, String>>,
    /// Whether texts will be written to standard input.
    pub use_stdin: bool,
    pub on_stdout: Option<RegistryKey>,
    pub on_stderr: Option<RegistryKey>,
    pub on_stdout_chunk: Option<RegistryKey>,
    pub on_stderr_chunk: Option<RegistryKey>,
    pub on_exit: Option<RegistryKey>,
}

impl Default for JobOptions {
    /// What holds for a caller who asks for nothing.
    fn default() -> (options: Self)
        ensures
            options == (JobOptions {
                cwd: None,
                env: None,
                use_stdin: false,
                on_stdout: None,
                on_stderr: None,
                on_stdout_chunk: None,
                on_stderr_chunk: None,
                on_exit: None,
            }),
    {
        JobOptions {
            cwd: None,
            env: None,
            use_stdin: false,
            on_stdout: None,
            on_stderr: None,
            on_stdout_chunk: None,
            on_stderr_chunk: None,
            on_exit: None,
        }
    }
}

impl JobOptions {
    /// Whether chunks of `stream` are to be reported: only where a callback is there for them.
    pub fn chunks_wanted(&self, stream: Stream) -> (wanted: bool)
        ensures
            wanted == (match stream {
                Stream::Stdout => self.on_stdout_chunk is Some,
                Stream::Stderr => self.on_stderr_chunk is Some,
            }),
    {
        match stream {
            Stream::Stdout => self.on_stdout_chunk.is_some(),
            Stream::Stderr => self.on_stderr_chunk.is_some(),
        }
    }
}

/// Whether standard input is wanted: only where the caller says so.
pub fn stdin_requested(field: Option<bool>) -> (wanted: bool)
    ensures
        wanted == (field == Some(true)),
{
    match field {
        Some(wanted) => wanted,
        None => false,
    }
}

} // verus!
