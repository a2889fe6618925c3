use maki_jobs::events::JobEvent;
use maki_jobs::text::{append_decimal, join};
use maki_jobs::wait::{wait_timeout_ms, JobOutput, JobWait, WaitStep};

fn finish(events: Vec<JobEvent>, code: i32) -> JobOutput {
    let mut wait = JobWait::new();
    for event in events {
        assert!(matches!(wait.step(Some(event)), WaitStep::Continue));
    }
    match wait.step(Some(JobEvent::Exit(code))) {
        WaitStep::Finished(output) => output,
        _ => panic!("an exit ends the wait"),
    }
}

#[test]
fn wait_joins_what_came() {
    let output = finish(
        vec![
            JobEvent::StdoutChunk("hello\n".into()),
            JobEvent::Stderr("careful".into()),
            JobEvent::Stdout("hello".into()),
            JobEvent::StderrChunk("again".into()),
        ],
        7,
    );
    assert_eq!(output.stdout, "hello\n\nhello");
    assert_eq!(output.stderr, "careful\nagain");
    assert_eq!(output.exit_code, 7);
}

#[test]
fn wait_without_output() {
    let output = finish(Vec::new(), 0);
    assert_eq!(output.stdout, "");
    assert_eq!(output.stderr, "");
    assert_eq!(output.exit_code, 0);
}

#[test]
fn wait_expires_without_an_event() {
    let mut wait = JobWait::new();
    assert!(matches!(wait.step(Some(JobEvent::Stdout("x".into()))), WaitStep::Continue));
    assert!(matches!(wait.step(None), WaitStep::Expired));
}

#[test]
fn wait_lasts_half_a_minute_by_default() {
    assert_eq!(wait_timeout_ms(None), 30_000);
    assert_eq!(wait_timeout_ms(Some(5)), 5);
    assert_eq!(wait_timeout_ms(Some(0)), 0);
}

#[test]
fn decimal_notation() {
    let mut text = String::from("n=");
    append_decimal(&mut text, 0);
    text.push(' ');
    append_decimal(&mut text, 9);
    text.push(' ');
    append_decimal(&mut text, 10);
    text.push(' ');
    append_decimal(&mut text, u32::MAX);
    assert_eq!(text, "n=0 9 10 4294967295");
}

#[test]
fn joining_puts_the_separator_between() {
    assert_eq!(join(&vec![], ", "), "");
    assert_eq!(join(&vec!["a".to_string()], ", "), "a");
    assert_eq!(join(&vec!["a".to_string(), "".to_string(), "b".to_string()], ", "), "a, , b");
}

#[test]
fn cloned_events_are_equal() {
    assert!(matches!(JobEvent::Stdout("x".into()).clone(), JobEvent::Stdout(s) if s == "x"));
    assert!(matches!(JobEvent::Stderr("x".into()).clone(), JobEvent::Stderr(s) if s == "x"));
    assert!(matches!(JobEvent::StdoutChunk("x".into()).clone(), JobEvent::StdoutChunk(s) if s == "x"));
    assert!(matches!(JobEvent::StderrChunk("x".into()).clone(), JobEvent::StderrChunk(s) if s == "x"));
    assert!(matches!(JobEvent::Exit(4).clone(), JobEvent::Exit(4)));
}

#[test]
fn wait_without_chunks_gives_the_lines() {
    let output = finish(
        vec![JobEvent::Stdout("hello".into()), JobEvent::Stdout("again".into())],
        0,
    );
    assert_eq!(output.stdout, "hello\nagain");
}
