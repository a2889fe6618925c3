use std::time::{Duration, Instant};

use maki_jobs::events::JobEvent;
use maki_jobs::launch::{open_launch, plan_launch, report_exit, CwdProbe, JobIo, Platform};
use maki_jobs::reader::{Stream, StreamReader};
use maki_jobs::store::{file_event, write_result, JobStore};
use mlua::{Lua, RegistryKey};

const PID: u32 = 4321;

fn make_store() -> JobStore {
    JobStore::new()
}

/// Starts a job whose process is played by the caller, who holds its ends of the channels.
fn start(
    store: &mut JobStore,
    cmd: &str,
    cwd: Option<CwdProbe>,
    use_stdin: bool,
    on_exit: Option<RegistryKey>,
) -> Result<(u32, JobIo), String> {
    let plan = plan_launch(cmd, cwd, None, use_stdin, Platform::Unix)?;
    let (launched, io) = open_launch(Ok(PID), plan.use_stdin)?;
    let id = store.start(launched, Ok(()), None, None, None, None, on_exit)?;
    Ok((id, io))
}

fn start_echo(store: &mut JobStore) -> (u32, JobIo) {
    start(store, "echo hello", None, false, None).unwrap()
}

/// What the threads around `echo hello` do until it ends.
fn run_echo(mut io: JobIo) {
    let mut stdout = StreamReader::new(Stream::Stdout, false);
    assert!(stdout.on_read(b"hello\n".to_vec(), &mut io.event_tx));
    assert!(!stdout.on_read(Vec::new(), &mut io.event_tx));
    report_exit(&mut io.event_tx, Some(Some(0)));
}

#[test]
fn start_invalid_cwd_returns_error() {
    let mut store = make_store();
    let result = start(
        &mut store,
        "echo hello",
        Some(CwdProbe { path: "/nonexistent_dir_abc_xyz_123".into(), is_dir: false }),
        false,
        None,
    );
    assert!(result.is_err());
    assert_eq!(
        result.err().unwrap(),
        "cwd is not a directory: /nonexistent_dir_abc_xyz_123"
    );
    assert!(store.is_empty());
    assert_eq!(store.next_id(), 1);
}

#[test]
fn has_alive_jobs_tracks_state() {
    let mut store = make_store();
    assert!(!store.has_alive_jobs());

    let (id, _io) = start_echo(&mut store);
    assert!(store.has_alive_jobs());

    store.mark_dead(id);
    assert!(!store.has_alive_jobs());
}

#[test]
fn noop_on_nonexistent_or_dead_jobs() {
    let mut store = make_store();
    store.mark_dead(999);
    assert_eq!(store.kill(999), None);

    let (id, _io) = start_echo(&mut store);
    store.mark_dead(id);
    assert_eq!(store.kill(id), None);

    assert!(store.callback_key(999, &JobEvent::Exit(0)).is_none());
}

#[test]
fn take_receiver_lifecycle() {
    let mut store = make_store();
    assert!(store.take_receiver(999).is_none());

    let (id, _io) = start_echo(&mut store);
    assert!(store.take_receiver(id).is_some());
    assert!(
        store.take_receiver(id).is_none(),
        "second take should fail (receiver already moved)"
    );
}

#[test]
fn callback_key_returns_none_without_callbacks() {
    let mut store = make_store();
    let (id, _io) = start_echo(&mut store);
    assert!(store.callback_key(id, &JobEvent::Stdout("x".into())).is_none());
    assert!(store.callback_key(id, &JobEvent::Stderr("x".into())).is_none());
    assert!(store.callback_key(id, &JobEvent::Exit(0)).is_none());
}

#[test]
fn take_receiver_delivers_events() {
    let mut store = make_store();
    let (id, io) = start_echo(&mut store);
    let rx = store.take_receiver(id).unwrap();
    run_echo(io);

    let mut got_exit = false;
    let deadline = Instant::now() + Duration::from_secs(5);
    while Instant::now() < deadline {
        match rx.recv_timeout(Duration::from_millis(200)) {
            Ok(JobEvent::Exit(_)) => {
                got_exit = true;
                break;
            }
            Ok(_) => continue,
            Err(flume::RecvTimeoutError::Timeout) => continue,
            Err(flume::RecvTimeoutError::Disconnected) => break,
        }
    }
    assert!(got_exit, "should receive exit event for completed job");
}

#[test]
fn drain_events_collects_from_all_jobs() {
    let mut store = make_store();
    let (id, io) = start_echo(&mut store);
    run_echo(io);

    let mut buf = Vec::new();
    let deadline = Instant::now() + Duration::from_secs(5);
    loop {
        store.drain_events(&mut buf);
        if buf.iter().any(|(jid, e)| *jid == id && matches!(e, JobEvent::Exit(_))) {
            break;
        }
        if Instant::now() > deadline {
            panic!("should receive exit event for completed job");
        }
    }
}

#[test]
fn drain_events_empty_after_take() {
    let mut store = make_store();
    let (id, io) = start_echo(&mut store);
    let _rx = store.take_receiver(id).unwrap();
    run_echo(io);

    let mut buf = Vec::new();
    store.drain_events(&mut buf);
    assert!(buf.is_empty(), "drained receiver yields no events via drain_events");
}

#[test]
fn write_to_job_without_stdin_returns_error() {
    let mut store = make_store();
    let (id, _io) = start_echo(&mut store);
    let err = store.write(id, "hello".into()).unwrap_err();
    assert!(err.contains("does not accept stdin"), "{err}");
    assert_eq!(err, "job 1 does not accept stdin");
}

#[test]
fn write_to_nonexistent_job_returns_error() {
    let mut store = make_store();
    let err = store.write(999, "hello".into()).unwrap_err();
    assert!(err.contains("not found"), "{err}");
    assert_eq!(err, "job 999 not found");
}

#[test]
fn write_to_job_with_stdin_delivers_data() {
    let mut store = make_store();
    let (id, mut io) = start(&mut store, "cat", None, true, None).unwrap();

    store.write(id, "hello stdin\n".into()).unwrap();
    store.close_stdin(id);

    // What `cat` and the threads around it do: everything that comes in goes out again.
    let mut stdout = StreamReader::new(Stream::Stdout, false);
    for data in io.stdin_rx.as_ref().unwrap().iter() {
        assert!(stdout.on_read(data.into_bytes(), &mut io.event_tx));
    }
    assert!(!stdout.on_read(Vec::new(), &mut io.event_tx));
    report_exit(&mut io.event_tx, Some(Some(0)));

    let rx = store.take_receiver(id).unwrap();
    let mut got_output = false;
    let deadline = Instant::now() + Duration::from_secs(5);
    while Instant::now() < deadline {
        match rx.recv_timeout(Duration::from_millis(200)) {
            Ok(JobEvent::Stdout(line)) if line == "hello stdin" => {
                got_output = true;
                break;
            }
            Ok(_) => continue,
            Err(flume::RecvTimeoutError::Timeout) => continue,
            Err(flume::RecvTimeoutError::Disconnected) => break,
        }
    }
    assert!(got_output, "cat should echo stdin to stdout");
}

#[test]
fn write_after_kill_returns_error() {
    let mut store = make_store();
    let (id, _io) = start(&mut store, "sleep 10", None, true, None).unwrap();

    store.write(id, "before".into()).unwrap();
    assert_eq!(store.kill(id), Some(PID));

    let result = store.write(id, "after".into());
    assert!(result.is_err());
    assert_eq!(result.unwrap_err(), "job 1 does not accept stdin");
}

#[test]
fn write_to_a_stopped_stdin_thread_returns_error() {
    let mut store = make_store();
    let (id, io) = start(&mut store, "cat", None, true, None).unwrap();
    drop(io);
    assert_eq!(store.write(id, "late".into()).unwrap_err(), "job stdin closed");
    assert_eq!(store.write(id, "later".into()).unwrap_err(), "job stdin closed");
    store.mark_dead(id);
    assert_eq!(store.write(id, "latest".into()).unwrap_err(), "job stdin closed");
}

#[test]
fn stdin_channel_holds_sixty_four_texts() {
    let mut store = make_store();
    let (id, io) = start(&mut store, "cat", None, true, None).unwrap();
    let stdin = io.stdin_rx.unwrap();
    assert_eq!(stdin.capacity(), Some(64));
    for n in 0..64 {
        store.write(id, format!("{n}")).unwrap();
    }
    assert!(stdin.is_full());
    assert_eq!(stdin.recv().unwrap(), "0");
    assert_eq!(stdin.recv().unwrap(), "1");
}

#[test]
fn event_channel_has_no_limit() {
    let mut store = make_store();
    let (id, io) = start_echo(&mut store);
    let rx = store.take_receiver(id).unwrap();
    assert_eq!(rx.capacity(), None);
    assert_eq!(io.event_tx.capacity(), None);
}

#[test]
fn numbers_go_up_and_are_not_reused() {
    let mut store = make_store();
    assert_eq!(store.next_id(), 1);
    let (first, _a) = start_echo(&mut store);
    let (second, _b) = start_echo(&mut store);
    assert_eq!((first, second), (1, 2));
    store.clear(&Lua::new());
    assert!(store.is_empty());
    let (third, _c) = start_echo(&mut store);
    assert_eq!(third, 3);
}

#[test]
fn failed_threads_use_up_a_number() {
    let mut store = make_store();
    let (launched, _io) = open_launch(Ok(PID), false).unwrap();
    let failed = store.start(launched, Err("no threads left".into()), None, None, None, None, None);
    assert_eq!(failed, Err("no threads left".to_string()));
    assert!(store.is_empty());
    assert!(!store.has_alive_jobs());
    let (id, _io) = start_echo(&mut store);
    assert_eq!(id, 2);
}

#[test]
fn drain_keeps_the_events_of_each_job_together() {
    let mut store = make_store();
    let (a, io_a) = start_echo(&mut store);
    let (b, io_b) = start_echo(&mut store);
    run_echo(io_a);
    run_echo(io_b);

    let mut buf = vec![(77, JobEvent::Exit(9))];
    store.drain_events(&mut buf);
    assert_eq!(buf.len(), 4);
    let ids: Vec<u32> = buf.iter().map(|(id, _)| *id).collect();
    assert!(ids == [a, a, b, b] || ids == [b, b, a, a]);
    for half in buf.chunks(2) {
        assert!(matches!(&half[0].1, JobEvent::Stdout(s) if s == "hello"));
        assert!(matches!(&half[1].1, JobEvent::Exit(0)));
    }

    store.drain_events(&mut buf);
    assert!(buf.is_empty());
}

#[test]
fn kill_all_targets_the_jobs_that_are_alive() {
    let mut store = make_store();
    for pid in [10, 20, 30] {
        let (launched, _io) = open_launch(Ok(pid), true).unwrap();
        store.start(launched, Ok(()), None, None, None, None, None).unwrap();
    }
    store.mark_dead(2);
    let mut targets = store.kill_all();
    targets.sort();
    assert_eq!(targets, [10, 30]);
    assert_eq!(store.write(1, "x".into()).unwrap_err(), "job 1 does not accept stdin");
    assert_eq!(store.write(3, "x".into()).unwrap_err(), "job 3 does not accept stdin");
    // Job 2 was left alone, and only its reader is gone.
    assert_eq!(store.write(2, "x".into()).unwrap_err(), "job stdin closed");
    // Killing does not report a job dead.
    assert!(store.has_alive_jobs());
    let mut again = store.kill_all();
    again.sort();
    assert_eq!(again, [10, 30]);
}

#[test]
fn close_stdin_refuses_later_writes() {
    let mut store = make_store();
    let (id, io) = start(&mut store, "cat", None, true, None).unwrap();
    store.write(id, "kept".into()).unwrap();
    store.close_stdin(id);
    assert!(store.write(id, "lost".into()).is_err());
    let left: Vec<String> = io.stdin_rx.unwrap().iter().collect();
    assert_eq!(left, ["kept"]);
    store.close_stdin(999);
}

#[test]
fn begin_wait_takes_the_receiver_once() {
    let mut store = make_store();
    let (id, _io) = start_echo(&mut store);
    assert!(store.begin_wait(id).is_ok());
    assert_eq!(
        store.begin_wait(id).err().unwrap(),
        "unknown job id or already waited"
    );
    assert_eq!(
        store.begin_wait(999).err().unwrap(),
        "unknown job id or already waited"
    );
}

#[test]
fn callback_key_goes_by_the_kind_of_event() {
    let lua = Lua::new();
    let mut keys = Vec::new();
    for name in ["out", "err", "out_chunk", "err_chunk", "exit"] {
        keys.push(Some(lua.create_registry_value(name).unwrap()));
    }
    let (launched, _io) = open_launch(Ok(PID), false).unwrap();
    let mut store = make_store();
    let id = store
        .start(
            launched,
            Ok(()),
            keys[0].take(),
            keys[1].take(),
            keys[2].take(),
            keys[3].take(),
            keys[4].take(),
        )
        .unwrap();
    let name = |event: JobEvent| -> String {
        lua.registry_value(store.callback_key(id, &event).unwrap()).unwrap()
    };
    assert_eq!(name(JobEvent::Stdout("x".into())), "out");
    assert_eq!(name(JobEvent::Stderr("x".into())), "err");
    assert_eq!(name(JobEvent::StdoutChunk("x".into())), "out_chunk");
    assert_eq!(name(JobEvent::StderrChunk("x".into())), "err_chunk");
    assert_eq!(name(JobEvent::Exit(0)), "exit");
}

#[test]
fn clear_removes_callbacks_from_the_registry() {
    let lua = Lua::new();
    let table = lua.create_table().unwrap();
    let weak = lua.create_table().unwrap();
    let mode = lua.create_table().unwrap();
    mode.set("__mode", "v").unwrap();
    weak.set_metatable(Some(mode)).unwrap();
    weak.set("held", &table).unwrap();
    let key = lua.create_registry_value(table).unwrap();

    let mut store = make_store();
    let (id, _io) = start(&mut store, "true", None, false, Some(key)).unwrap();
    lua.gc_collect().unwrap();
    assert!(weak.contains_key("held").unwrap());

    store.clear(&lua);
    assert!(store.is_empty());
    assert!(store.callback_key(id, &JobEvent::Exit(0)).is_none());
    lua.gc_collect().unwrap();
    assert!(!weak.contains_key("held").unwrap());
}

#[test]
fn clear_ignores_callbacks_of_another_state() {
    let lua = Lua::new();
    let other = Lua::new();
    let key = other.create_registry_value("kept").unwrap();
    let mut store = make_store();
    start(&mut store, "true", None, false, Some(key)).unwrap();
    store.clear(&lua);
    assert!(store.is_empty());
    assert_eq!(store.next_id(), 2);
}

#[test]
fn dead_jobs_stay_dead() {
    let mut store = make_store();
    let (id, _io) = start_echo(&mut store);
    store.mark_dead(id);
    store.kill_all();
    store.close_stdin(id);
    let _ = store.take_receiver(id);
    assert!(!store.has_alive_jobs());
    assert!(!store.is_empty());
}

#[test]
fn polled_events_are_filed_under_their_job() {
    let mut buf = Vec::new();
    assert!(file_event(&mut buf, 4, Some(JobEvent::Exit(1))));
    assert!(file_event(&mut buf, 4, Some(JobEvent::Stdout("x".into()))));
    assert!(!file_event(&mut buf, 5, None));
    assert_eq!(buf.len(), 2);
    assert!(matches!(buf[0], (4, JobEvent::Exit(1))));
    assert!(matches!(&buf[1], (4, JobEvent::Stdout(s)) if s == "x"));
}

#[test]
fn write_results() {
    assert_eq!(write_result(true), Ok(()));
    assert_eq!(write_result(false), Err("job stdin closed".to_string()));
}

#[test]
fn drains_hand_over_every_event_once_and_in_order() {
    let mut store = make_store();
    let (id, mut io) = start_echo(&mut store);
    let mut stdout = StreamReader::new(Stream::Stdout, false);
    let mut seen = Vec::new();
    let mut buf = Vec::new();
    for read in ["one\ntwo\nth", "ree\n", "four\n"] {
        assert!(stdout.on_read(read.as_bytes().to_vec(), &mut io.event_tx));
        if read != "ree\n" {
            store.drain_events(&mut buf);
            seen.append(&mut buf);
        }
    }
    report_exit(&mut io.event_tx, Some(Some(0)));
    let rx = store.take_receiver(id).unwrap();
    seen.extend(rx.drain().map(|event| (id, event)));
    let lines: Vec<String> = seen
        .into_iter()
        .map(|(jid, event)| {
            assert_eq!(jid, id);
            match event {
                JobEvent::Stdout(line) => line,
                JobEvent::Exit(code) => format!("exit {code}"),
                _ => panic!("only lines were asked for"),
            }
        })
        .collect();
    assert_eq!(lines, ["one", "two", "three", "four", "exit 0"]);
}

#[test]
fn killed_and_dead_jobs_are_drained_too() {
    let mut store = make_store();
    let (a, io_a) = start_echo(&mut store);
    let (b, io_b) = start_echo(&mut store);
    run_echo(io_a);
    run_echo(io_b);
    store.kill(a);
    store.mark_dead(b);
    let mut buf = Vec::new();
    store.drain_events(&mut buf);
    assert_eq!(buf.iter().filter(|(id, _)| *id == a).count(), 2);
    assert_eq!(buf.iter().filter(|(id, _)| *id == b).count(), 2);
}
