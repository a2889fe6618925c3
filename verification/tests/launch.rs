use std::collections::HashMap;

use maki_jobs::events::JobEvent;
use maki_jobs::launch::{
    exit_code, open_launch, plan_launch, report_exit, shell_command, CwdProbe, Platform,
};
use maki_jobs::lookup::executable;
use maki_jobs::options::{stdin_requested, JobOptions};
use maki_jobs::reader::Stream;
use mlua::Lua;

#[test]
fn shell_command_goes_by_platform() {
    let unix = shell_command("ls | wc", Platform::Unix);
    assert_eq!(unix.program, "bash");
    assert_eq!(unix.args, ["-c", "ls | wc"]);
    let windows = shell_command("dir", Platform::Windows);
    assert_eq!(windows.program, "cmd.exe");
    assert_eq!(windows.args, ["/C", "dir"]);
}

#[test]
fn plan_keeps_what_was_asked_for() {
    let mut env = HashMap::new();
    env.insert("KEY".to_string(), "value".to_string());
    let cwd = CwdProbe { path: "/tmp".into(), is_dir: true };
    let plan = plan_launch("pwd", Some(cwd), Some(env), true, Platform::Unix).unwrap();
    assert_eq!(plan.shell.args, ["-c", "pwd"]);
    assert_eq!(plan.cwd.as_deref(), Some("/tmp"));
    assert_eq!(plan.env.unwrap()["KEY"], "value");
    assert!(plan.use_stdin);
    assert!(plan.new_session);

    let plan = plan_launch("cd", None, None, false, Platform::Windows).unwrap();
    assert!(plan.cwd.is_none());
    assert!(plan.env.is_none());
    assert!(!plan.use_stdin);
    assert!(!plan.new_session);
}

#[test]
fn spawn_errors_are_handed_on() {
    assert_eq!(open_launch(Err("no such file".into()), true).err().unwrap(), "no such file");
}

#[test]
fn stdin_channel_only_where_asked_for() {
    let (launched, io) = open_launch(Ok(5), false).unwrap();
    assert_eq!(launched.pid, 5);
    assert!(launched.stdin_tx.is_none());
    assert!(io.stdin_rx.is_none());
    let (launched, io) = open_launch(Ok(6), true).unwrap();
    launched.stdin_tx.unwrap().send("x".into()).unwrap();
    assert_eq!(io.stdin_rx.unwrap().try_recv().unwrap(), "x");
}

#[test]
fn exit_codes() {
    assert_eq!(exit_code(Some(Some(3))), 3);
    assert_eq!(exit_code(Some(None)), -1);
    assert_eq!(exit_code(None), -1);
}

#[test]
fn exit_is_reported_on_the_event_channel() {
    let (launched, mut io) = open_launch(Ok(5), false).unwrap();
    report_exit(&mut io.event_tx, Some(None));
    assert!(matches!(launched.event_rx.try_recv(), Ok(JobEvent::Exit(-1))));
    drop(launched);
    report_exit(&mut io.event_tx, Some(Some(0)));
}

#[test]
fn executable_looks_everywhere() {
    assert_eq!(executable(None, false), 0);
    assert_eq!(executable(None, true), 1);
    assert_eq!(executable(Some(vec![false, false]), false), 0);
    assert_eq!(executable(Some(vec![false, true]), false), 1);
    assert_eq!(executable(Some(vec![]), true), 1);
}

#[test]
fn options_default_to_nothing() {
    let options = JobOptions::default();
    assert!(options.cwd.is_none());
    assert!(options.env.is_none());
    assert!(!options.use_stdin);
    assert!(options.on_stdout.is_none());
    assert!(options.on_stderr.is_none());
    assert!(options.on_stdout_chunk.is_none());
    assert!(options.on_stderr_chunk.is_none());
    assert!(options.on_exit.is_none());
    assert!(stdin_requested(Some(true)));
    assert!(!stdin_requested(Some(false)));
    assert!(!stdin_requested(None));
}

#[test]
fn chunks_are_wanted_where_a_callback_is_there() {
    let lua = Lua::new();
    let mut options = JobOptions::default();
    assert!(!options.chunks_wanted(Stream::Stdout));
    assert!(!options.chunks_wanted(Stream::Stderr));
    options.on_stdout_chunk = Some(lua.create_registry_value("f").unwrap());
    assert!(options.chunks_wanted(Stream::Stdout));
    assert!(!options.chunks_wanted(Stream::Stderr));
    options.on_stdout_chunk = None;
    options.on_stderr_chunk = Some(lua.create_registry_value("f").unwrap());
    assert!(!options.chunks_wanted(Stream::Stdout));
    assert!(options.chunks_wanted(Stream::Stderr));
}
