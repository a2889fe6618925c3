use maki_jobs::events::JobEvent;
use maki_jobs::lines::{split_lines, strip_carriage_return};
use maki_jobs::reader::{send_all, Stream, StreamReader, READER_BUF_SIZE};

/// Runs a reader over the chunks and the end of the stream, and shows what it sends.
fn run(stream: Stream, chunks: &[&[u8]]) -> Vec<String> {
    run_with(StreamReader::new(stream, true), chunks)
}

/// Like `run`, for a stream whose chunks nobody wants.
fn run_lines(stream: Stream, chunks: &[&[u8]]) -> Vec<String> {
    run_with(StreamReader::new(stream, false), chunks)
}

fn run_with(mut reader: StreamReader, chunks: &[&[u8]]) -> Vec<String> {
    let (mut tx, rx) = flume::unbounded();
    for chunk in chunks {
        assert!(reader.on_read(chunk.to_vec(), &mut tx));
    }
    assert!(!reader.on_read(Vec::new(), &mut tx));
    rx.drain().map(show).collect()
}

fn show(event: JobEvent) -> String {
    match event {
        JobEvent::Stdout(s) => format!("out {s:?}"),
        JobEvent::Stderr(s) => format!("err {s:?}"),
        JobEvent::StdoutChunk(s) => format!("out+ {s:?}"),
        JobEvent::StderrChunk(s) => format!("err+ {s:?}"),
        JobEvent::Exit(code) => format!("exit {code}"),
    }
}

#[test]
fn chunk_comes_before_its_lines() {
    assert_eq!(
        run(Stream::Stdout, &[b"one\ntwo\r\n"]),
        [r#"out+ "one\ntwo\r\n""#, r#"out "one""#, r#"out "two""#]
    );
}

#[test]
fn stderr_has_events_of_its_own() {
    assert_eq!(
        run(Stream::Stderr, &[b"oops\n"]),
        [r#"err+ "oops\n""#, r#"err "oops""#]
    );
}

#[test]
fn unfinished_line_is_sent_at_the_end() {
    assert_eq!(
        run(Stream::Stdout, &[b"one\ntwo\r"]),
        [r#"out+ "one\ntwo\r""#, r#"out "one""#, r#"out "two""#]
    );
    assert_eq!(run(Stream::Stdout, &[b"\r"]), [r#"out+ "\r""#, r#"out """#]);
}

#[test]
fn lines_of_chunks_that_end_with_a_line_feed() {
    assert_eq!(
        run(Stream::Stdout, &[b"a\nb\n", b"c\n", b"d"]),
        [
            r#"out+ "a\nb\n""#,
            r#"out "a""#,
            r#"out "b""#,
            r#"out+ "c\n""#,
            r#"out "c""#,
            r#"out+ "d""#,
            r#"out "d""#
        ]
    );
}

#[test]
fn a_line_cut_by_two_reads_comes_out_whole() {
    assert_eq!(
        run(Stream::Stdout, &[b"ab", b"c\n"]),
        [r#"out+ "ab""#, r#"out+ "c\n""#, r#"out "abc""#]
    );
    assert_eq!(run_lines(Stream::Stderr, &[b"a", b"b", b"c"]), [r#"err "abc""#]);
    assert_eq!(
        run_lines(Stream::Stdout, &[b"one\nt", b"wo\r", b"\nthree"]),
        [r#"out "one""#, r#"out "two""#, r#"out "three""#]
    );
}

#[test]
fn chunks_are_sent_only_where_wanted() {
    assert_eq!(run_lines(Stream::Stdout, &[b"hello\n"]), [r#"out "hello""#]);
    assert!(run_lines(Stream::Stdout, &[b"\xff"]).is_empty());
}

#[test]
fn a_bad_chunk_leaves_the_unfinished_line() {
    assert_eq!(run_lines(Stream::Stdout, &[b"ab", b"\xff", b"c\n"]), [r#"out "abc""#]);
}

#[test]
fn events_of_a_chunk_are_listed_in_order() {
    let reader = StreamReader::new(Stream::Stdout, true);
    let (events, rest) = reader.chunk_events("a\nb\nc".to_string());
    let shown: Vec<String> = events.into_iter().map(show).collect();
    assert_eq!(shown, [r#"out+ "a\nb\nc""#, r#"out "a""#, r#"out "b""#]);
    assert_eq!(rest, "c");
}

#[test]
fn sending_stops_at_the_first_refusal() {
    let events = || vec![JobEvent::Exit(1), JobEvent::Exit(2)];
    let (mut tx, rx) = flume::unbounded();
    assert_eq!(send_all(&mut tx, events()), 2);
    let got: Vec<String> = rx.drain().map(show).collect();
    assert_eq!(got, ["exit 1", "exit 2"]);
    drop(rx);
    assert_eq!(send_all(&mut tx, events()), 0);
    assert_eq!(send_all(&mut tx, Vec::new()), 0);
}

#[test]
fn a_chunk_that_does_not_decode_is_passed_over() {
    assert_eq!(
        run(Stream::Stdout, &[b"kept", b"\xff\n"]),
        [r#"out+ "kept""#, r#"out "kept""#]
    );
}

fn run_until_refused(chunks_wanted: bool, first: &[u8], second: &[u8]) -> bool {
    let (mut tx, rx) = flume::unbounded();
    let mut reader = StreamReader::new(Stream::Stdout, chunks_wanted);
    assert!(reader.on_read(first.to_vec(), &mut tx));
    drop(rx);
    reader.on_read(second.to_vec(), &mut tx)
}

#[test]
fn reading_stops_when_nobody_listens() {
    assert!(!run_until_refused(true, b"a", b"b\n"));
    assert!(!run_until_refused(true, b"a", b"b"));
    assert!(!run_until_refused(false, b"a", b"b\n"));
    // Nothing is sent for these, so nothing is refused.
    assert!(run_until_refused(true, b"a", b"\xff"));
    assert!(run_until_refused(false, b"a", b"b"));
}

#[test]
fn splitting_keeps_other_characters() {
    let (lines, rest) = split_lines("h\u{e9}llo\r\r\n\n\u{1f600}\nend");
    assert_eq!(lines, ["h\u{e9}llo\r", "", "\u{1f600}"]);
    assert_eq!(rest, "end");
    let (none, all) = split_lines("no feed");
    assert!(none.is_empty());
    assert_eq!(all, "no feed");
    let (empty, nothing) = split_lines("");
    assert!(empty.is_empty());
    assert_eq!(nothing, "");
}

#[test]
fn lines_rebuild_the_text() {
    let text = "a\n\nb\nc";
    let (lines, rest) = split_lines(text);
    let mut rebuilt = String::new();
    for line in &lines {
        rebuilt.push_str(line);
        rebuilt.push('\n');
    }
    rebuilt.push_str(&rest);
    assert_eq!(rebuilt, text);
}

#[test]
fn one_carriage_return_is_stripped() {
    assert_eq!(strip_carriage_return("a\r"), "a");
    assert_eq!(strip_carriage_return("a\r\r"), "a\r");
    assert_eq!(strip_carriage_return("a\rb"), "a\rb");
    assert_eq!(strip_carriage_return("\u{e9}\r"), "\u{e9}");
    assert_eq!(strip_carriage_return(""), "");
}

#[test]
fn reads_ask_for_eight_kibibytes() {
    assert_eq!(READER_BUF_SIZE, 8192);
}
