//! What holds of a wait over the whole life of a job.

use vstd::prelude::*;
use crate::events::JobEventView;
use crate::lines::{raw_lines, unfinished};
use crate::reader::Stream;
use crate::reader_laws::{law_first_line, law_no_feed_no_line, no_feed};
use crate::text::{joined, law_join_of_concatenation, law_join_of_one};
use crate::wait::{JobOutput, WaitView};

verus! {

/// What a wait has gathered after `events`.
pub open spec fn gathered(events: Seq<JobEventView>) -> WaitView
    decreases events.len(),
{
    if events.len() == 0 {
        WaitView::empty()
    } else {
        gathered(events.drop_last()).after(events.last())
    }
}

/// The text that `event` carries for `stream`, if any.
pub open spec fn text_for(stream: Stream, event: JobEventView) -> Option<Seq<char>> {
    match (stream, event) {
        (Stream::Stdout, JobEventView::Stdout(text)) => Some(text),
        (Stream::Stdout, JobEventView::StdoutChunk(text)) => Some(text),
        (Stream::Stderr, JobEventView::Stderr(text)) => Some(text),
        (Stream::Stderr, JobEventView::StderrChunk(text)) => Some(text),
        _ => None,
    }
}

/// The texts that `events` carry for `stream`, in order.
pub open spec fn texts_for(stream: Stream, events: Seq<JobEventView>) -> Seq<Seq<char>>
    decreases events.len(),
{
    if events.len() == 0 {
        Seq::empty()
    } else {
        let before = texts_for(stream, events.drop_last());
        match text_for(stream, events.last()) {
            Some(text) => before.push(text),
            None => before,
        }
    }
}

/// A wait gathers for each stream every text that was reported for it, whether line or chunk, in
/// the order in which they came, and nothing else.
pub proof fn law_wait_gathers_in_order(events: Seq<JobEventView>)
    ensures
        gathered(events).stdout == texts_for(Stream::Stdout, events),
        gathered(events).stderr == texts_for(Stream::Stderr, events),
    decreases events.len(),
{
    if events.len() > 0 {
        law_wait_gathers_in_order(events.drop_last());
    }
}

/// A wait starts with nothing, and one more event adds the text that it carries, unchanged, behind
/// what was gathered for its stream; the end of the job adds nothing.
pub proof fn law_wait_keeps_texts(wait: WaitView, text: Seq<char>, code: i32)
    ensures
        WaitView::empty().stdout.len() == 0,
        WaitView::empty().stderr.len() == 0,
        wait.after(JobEventView::Stdout(text)).stdout == wait.stdout.push(text),
        wait.after(JobEventView::StdoutChunk(text)).stdout == wait.stdout.push(text),
        wait.after(JobEventView::Stderr(text)).stderr == wait.stderr.push(text),
        wait.after(JobEventView::StderrChunk(text)).stderr == wait.stderr.push(text),
        wait.after(JobEventView::Exit(code)) == wait,
{
}

/// Joining undone: texts without a line feed, joined by line feeds, are given back by cutting the
/// result at its line feeds.
pub proof fn law_cutting_undoes_joining(parts: Seq<Seq<char>>)
    requires
        parts.len() > 0,
        forall|i: int| 0 <= i < parts.len() ==> no_feed(#[trigger] parts[i]),
    ensures
        raw_lines(joined(parts, "\n"@)).push(unfinished(joined(parts, "\n"@))) == parts,
    decreases parts.len(),
{
    reveal_strlit("\n");
    let feed = "\n"@;
    assert(no_feed(parts[0]));
    law_join_of_one(parts[0], feed);
    if parts.len() == 1 {
        assert(parts =~= seq![parts[0]]);
        law_no_feed_no_line(parts[0]);
        assert(raw_lines(parts[0]).push(parts[0]) =~= parts);
    } else {
        let rest = parts.drop_first();
        assert forall|i: int| 0 <= i < rest.len() implies no_feed(#[trigger] rest[i]) by {
            assert(rest[i] == parts[i + 1]);
        }
        law_cutting_undoes_joining(rest);
        law_join_of_concatenation(seq![parts[0]], rest, feed);
        assert(seq![parts[0]] + rest =~= parts);
        assert(joined(parts, feed) =~= parts[0].push('\n') + joined(rest, feed));
        law_first_line(parts[0], joined(rest, feed));
        assert((seq![parts[0]] + raw_lines(joined(rest, feed))).push(
            unfinished(joined(rest, feed)),
        ) =~= seq![parts[0]] + rest);
    }
}

/// What a finished job leaves holds, for each stream, every text that was gathered: cut at its line
/// feeds it gives them back, where there is one and none of them holds a line feed itself.  Where
/// none was gathered it is empty, and the exit code is the one that was reported.
pub proof fn law_output_holds_what_was_gathered(wait: WaitView, code: i32, output: JobOutput)
    requires
        wait.yields(code, output),
    ensures
        output.exit_code == code,
        wait.stdout.len() == 0 ==> output.stdout@.len() == 0,
        wait.stderr.len() == 0 ==> output.stderr@.len() == 0,
        wait.stdout.len() > 0 && (forall|i: int|
            0 <= i < wait.stdout.len() ==> no_feed(#[trigger] wait.stdout[i])) ==> raw_lines(
            output.stdout@,
        ).push(unfinished(output.stdout@)) == wait.stdout,
        wait.stderr.len() > 0 && (forall|i: int|
            0 <= i < wait.stderr.len() ==> no_feed(#[trigger] wait.stderr[i])) ==> raw_lines(
            output.stderr@,
        ).push(unfinished(output.stderr@)) == wait.stderr,
{
    if wait.stdout.len() > 0 && (forall|i: int|
        0 <= i < wait.stdout.len() ==> no_feed(#[trigger] wait.stdout[i])) {
        law_cutting_undoes_joining(wait.stdout);
    }
    if wait.stderr.len() > 0 && (forall|i: int|
        0 <= i < wait.stderr.len() ==> no_feed(#[trigger] wait.stderr[i])) {
        law_cutting_undoes_joining(wait.stderr);
    }
}

/// What a finished job leaves grows text by text, whatever the texts hold: one more text puts a
/// line feed and that text behind what its stream had left, a first text stands alone, and the
/// other stream is not touched.
pub proof fn law_output_grows(
    wait: WaitView,
    text: Seq<char>,
    code: i32,
    before: JobOutput,
    after_stdout: JobOutput,
    after_stderr: JobOutput,
)
    requires
        wait.yields(code, before),
        wait.after(JobEventView::Stdout(text)).yields(code, after_stdout),
        wait.after(JobEventView::Stderr(text)).yields(code, after_stderr),
    ensures
        wait.stdout.len() == 0 ==> after_stdout.stdout@ == text,
        wait.stdout.len() > 0 ==> after_stdout.stdout@ == before.stdout@ + "\n"@ + text,
        after_stdout.stderr@ == before.stderr@,
        wait.stderr.len() == 0 ==> after_stderr.stderr@ == text,
        wait.stderr.len() > 0 ==> after_stderr.stderr@ == before.stderr@ + "\n"@ + text,
        after_stderr.stdout@ == before.stdout@,
{
    lemma_join_push(wait.stdout, text);
    lemma_join_push(wait.stderr, text);
}

proof fn lemma_join_push(parts: Seq<Seq<char>>, text: Seq<char>)
    ensures
        parts.len() == 0 ==> joined(parts.push(text), "\n"@) == text,
        parts.len() > 0 ==> joined(parts.push(text), "\n"@) == joined(parts, "\n"@) + "\n"@ + text,
{
    law_join_of_one(text, "\n"@);
    if parts.len() > 0 {
        law_join_of_concatenation(parts, seq![text], "\n"@);
        assert(parts.push(text) =~= parts + seq![text]);
    } else {
        assert(parts.push(text) =~= seq![text]);
    }
}

/// What one stream reports does not show in what is gathered for the other.
pub proof fn law_streams_stay_apart(wait: WaitView, text: Seq<char>)
    ensures
        wait.after(Stream::Stdout.line_view(text)).stderr == wait.stderr,
        wait.after(Stream::Stdout.chunk_view(text)).stderr == wait.stderr,
        wait.after(Stream::Stderr.line_view(text)).stdout == wait.stdout,
        wait.after(Stream::Stderr.chunk_view(text)).stdout == wait.stdout,
{
}

} // verus!
