//! From a command line to a running process and the channels around it.

use std::collections::HashMap;
use vstd::prelude::*;
use crate::channels::{
    event_channel_ends, event_polls, event_sends, open_event_channel, open_stdin_channel,
    same_event_channel, send_event, stdin_channel_ends, stdin_sends,
};
use crate::events::{JobEvent, JobEventView};
use crate::lines::texts;

verus! {

/// How many texts wait for the standard input of a job before a writer has to wait.
pub const STDIN_ROOM: usize = 64;

/// The family of the operating system that runs the job.
#[derive(Clone, Copy)]
pub enum Platform {
    Unix,
    Windows,
}

impl Platform {
    /// The program that runs a command line.
    pub open spec fn shell(self) -> Seq<char> {
        match self {
            Platform::Unix => "bash"@,
            Platform::Windows => "cmd.exe"@,
        }
    }

    /// The flag by which the shell takes a command line as an argument.
    pub open spec fn shell_flag(self) -> Seq<char> {
        match self {
            Platform::Unix => "-c"@,
            Platform::Windows => "/C"@,
        }
    }
}

/// A program and its arguments.
pub struct ShellCommand {
    pub program: String,
    pub args: Vec<String>,
}

/// The shell call that runs `cmd`.
pub fn shell_command(cmd: &str, platform: Platform) -> (call: ShellCommand)
    ensures
        call.program@ == platform.shell(),
        texts(call.args@) == seq![platform.shell_flag(), cmd@],
        call.args@.len() == 2,
        call.args@[1]@ == cmd@,
        platform is Unix ==> call.program@ == "bash"@ && call.args@[0]@ == "-c"@,
        platform is Windows ==> call.program@ == "cmd.exe"@ && call.args@[0]@ == "/C"@,
{
    let program = match platform {
        Platform::Unix => String::from_str("bash"),
        Platform::Windows => String::from_str("cmd.exe"),
    };
    let flag = match platform {
        Platform::Unix => String::from_str("-c"),
        Platform::Windows => String::from_str("/C"),
    };
    let mut args: Vec<String> = Vec::new();
    args.push(flag);
    args.push(String::from_str(cmd));
    assert(texts(args@) =~= seq![platform.shell_flag(), cmd@]);
    ShellCommand { program, args }
}

/// A working directory that was asked for, with a leading tilde already expanded.
pub struct CwdProbe {
    /// The path as it is shown to a user.
    pub path: String,
    /// Whether a directory stands there.
    pub is_dir: bool,
}

/// Everything that decides how a process is spawned.  Its output streams are always piped.
pub struct LaunchPlan {
    pub shell: ShellCommand,
    /// The path of the working directory as it is shown to a user, where one was asked for.  It is
    /// for messages: where the path is not UTF-8 this text is not the path itself, and whoever
    /// spawns the process goes by the path that was probed.
    pub cwd: Option<String>,
    /// Variables to set on top of the inherited ones.
    pub env: Option<HashMap<String, String>>,
    /// Whether standard input is piped; it is empty otherwise.
    pub use_stdin: bool,
    /// Whether the process leads a session, and so a process group, of its own.
    pub new_session: bool,
}

/// Plans the launch of `cmd`, unless the working directory is none.
pub fn plan_launch(
    cmd: &str,
    cwd: Option<CwdProbe>,
    env: Option<HashMap<String, String>>,
    use_stdin: bool,
    platform: Platform,
) -> (plan: Result<LaunchPlan, String>)
    ensures
        match plan {
            Ok(plan) => {
                &&& cwd matches Some(probe) ==> probe.is_dir
                &&& plan.shell.program@ == platform.shell()
                &&& texts(plan.shell.args@) == seq![platform.shell_flag(), cmd@]
                &&& plan.shell.args@.len() == 2
                &&& plan.shell.args@[1]@ == cmd@
                &&& platform is Unix ==> plan.shell.program@ == "bash"@ && plan.shell.args@[0]@
                    == "-c"@
                &&& platform is Windows ==> plan.shell.program@ == "cmd.exe"@
                    && plan.shell.args@[0]@ == "/C"@
                &&& plan.cwd == (match cwd {
                    Some(probe) => Some(probe.path),
                    None => None,
                })
                &&& plan.env == env
                &&& plan.use_stdin == use_stdin
                &&& plan.new_session == (platform is Unix)
            },
            Err(message) => {
                &&& cwd matches Some(probe)
                &&& !probe.is_dir
                &&& message@ == "cwd is not a directory: "@ + probe.path@
            },
        },
{
    let shell = shell_command(cmd, platform);
    let cwd = match cwd {
        Some(probe) => {
            if !probe.is_dir {
                let mut message = String::from_str("cwd is not a directory: ");
                message.append(probe.path.as_str());
                return Err(message);
            }
            Some(probe.path)
        },
        None => None,
    };
    let new_session = match platform {
        Platform::Unix => true,
        Platform::Windows => false,
    };
    Ok(LaunchPlan { shell, cwd, env, use_stdin, new_session })
}

/// A spawned process with the channel ends that the store keeps.
pub struct Launched {
    pub pid: u32,
    pub event_rx: flume::Receiver<JobEvent>,
    pub stdin_tx: Option<flume::Sender<String>>,
}

/// The channel ends that the threads around the process keep.
pub struct JobIo {
    pub event_tx: flume::Sender<JobEvent>,
    pub stdin_rx: Option<flume::Receiver<String>>,
}

/// The store's ends and the threads' ends belong together: one event channel, and a channel for
/// standard input where it is piped.  Nothing has gone through any of them.
pub open spec fn connected(launched: Launched, io: JobIo, use_stdin: bool) -> bool {
    &&& event_channel_ends(io.event_tx, launched.event_rx)
    &&& event_sends(io.event_tx).len() == 0
    &&& event_polls(launched.event_rx).len() == 0
    &&& match (launched.stdin_tx, io.stdin_rx) {
        (Some(tx), Some(rx)) => {
            &&& use_stdin
            &&& stdin_channel_ends(tx, rx, STDIN_ROOM)
            &&& stdin_sends(tx).len() == 0
        },
        (None, None) => !use_stdin,
        _ => false,
    }
}

/// Opens the channels of a process that was spawned with `use_stdin`, or hands on why it could
/// not be spawned.
pub fn open_launch(spawned: Result<u32, String>, use_stdin: bool) -> (opened: Result<
    (Launched, JobIo),
    String,
>)
    ensures
        match (spawned, opened) {
            (Ok(pid), Ok(ends)) => {
                &&& ends.0.pid == pid
                &&& connected(ends.0, ends.1, use_stdin)
                &&& event_channel_ends(ends.1.event_tx, ends.0.event_rx)
                &&& ends.0.stdin_tx is Some <==> use_stdin
                &&& ends.1.stdin_rx is Some <==> use_stdin
                &&& use_stdin ==> stdin_channel_ends(ends.0.stdin_tx->0, ends.1.stdin_rx->0, 64)
            },
            (Err(reason), Err(message)) => message == reason,
            _ => false,
        },
{
    let pid = match spawned {
        Ok(pid) => pid,
        Err(reason) => {
            return Err(reason);
        },
    };
    let (event_tx, event_rx) = open_event_channel();
    if use_stdin {
        let (tx, rx) = open_stdin_channel(STDIN_ROOM);
        Ok((Launched { pid, event_rx, stdin_tx: Some(tx) }, JobIo { event_tx, stdin_rx: Some(rx) }))
    } else {
        Ok((Launched { pid, event_rx, stdin_tx: None }, JobIo { event_tx, stdin_rx: None }))
    }
}

/// The exit code for what waiting on a process gave: nothing if the wait failed, no code if a
/// signal ended the process.
pub open spec fn exit_code_of(waited: Option<Option<i32>>) -> i32 {
    match waited {
        Some(Some(code)) => code,
        _ => (-1) as i32,
    }
}

/// The exit code to report; -1 stands for a process that has none.
pub fn exit_code(waited: Option<Option<i32>>) -> (code: i32)
    ensures
        code == exit_code_of(waited),
        waited matches Some(Some(given)) ==> code == given,
        waited is None || waited->0 is None ==> code == -1,
{
    match waited {
        Some(Some(code)) => code,
        _ => -1,
    }
}

/// Sends the last event of a job, once, whatever becomes of it.
pub fn report_exit(tx: &mut flume::Sender<JobEvent>, waited: Option<Option<i32>>)
    ensures
        exists|accepted: bool|
            event_sends(*final(tx)) == #[trigger] event_sends(*old(tx)).push(
                (JobEventView::Exit(exit_code_of(waited)), accepted),
            ),
        event_sends(*final(tx)).len() == event_sends(*old(tx)).len() + 1,
        waited matches Some(Some(given)) ==> event_sends(*final(tx)).last().0
            == JobEventView::Exit(given),
        waited is None || waited->0 is None ==> event_sends(*final(tx)).last().0
            == JobEventView::Exit((-1) as i32),
        same_event_channel(*old(tx), *final(tx)),
{
    let _accepted = send_event(tx, JobEvent::Exit(exit_code(waited)));
}

} // verus!
