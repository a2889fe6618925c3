//! What holds of the events that a reader reports.

use vstd::prelude::*;
use vstd::utf8::{decode_utf8, encode_utf8, valid_utf8};
use crate::channels::event_sends;
use crate::events::{JobEvent, JobEventView};
use crate::lines::{
    complete_lines, lemma_newline_at, lemma_unfinished_has_no_feed, newline_at, raw_lines, strip_cr,
    texts, unfinished,
};
use crate::reader::{attempts, event_views, stopped_after, ReaderView, Stream};

verus! {

/// The lines with a line feed behind each, one after the other.
pub open spec fn with_feeds(lines: Seq<Seq<char>>) -> Seq<char>
    decreases lines.len(),
{
    if lines.len() == 0 {
        Seq::empty()
    } else {
        lines[0].push('\n') + with_feeds(lines.drop_first())
    }
}

/// No character of `s` is a line feed.
pub open spec fn no_feed(s: Seq<char>) -> bool {
    forall|i: int| 0 <= i < s.len() ==> s[i] != '\n'
}

/// Cutting a text into lines loses nothing: put together again, the lines and the unfinished end
/// are the text.
pub proof fn law_lines_rebuild_text(s: Seq<char>)
    ensures
        with_feeds(raw_lines(s)) + unfinished(s) == s,
    decreases s.len(),
{
    lemma_newline_at(s);
    let k = newline_at(s);
    if k < s.len() {
        let rest = s.skip(k + 1);
        law_lines_rebuild_text(rest);
        assert(raw_lines(s)[0] == s.take(k));
        assert(raw_lines(s).drop_first() =~= raw_lines(rest));
        assert(s =~= s.take(k).push('\n') + rest);
        assert(with_feeds(raw_lines(s)) + unfinished(s) =~= s.take(k).push('\n') + (with_feeds(
            raw_lines(rest),
        ) + unfinished(rest)));
    } else {
        assert(with_feeds(raw_lines(s)) + unfinished(s) =~= s);
    }
}

/// Neither a finished line nor the unfinished end holds a line feed.
pub proof fn law_lines_hold_no_feed(s: Seq<char>)
    ensures
        forall|i: int| 0 <= i < complete_lines(s).len() ==> no_feed(#[trigger] complete_lines(s)[i]),
        no_feed(unfinished(s)),
    decreases s.len(),
{
    lemma_newline_at(s);
    let k = newline_at(s);
    if k < s.len() {
        let rest = s.skip(k + 1);
        law_lines_hold_no_feed(rest);
        assert forall|i: int| 0 <= i < complete_lines(s).len() implies no_feed(
            #[trigger] complete_lines(s)[i],
        ) by {
            if i == 0 {
                assert(complete_lines(s)[0] == strip_cr(s.take(k)));
            } else {
                assert(complete_lines(s)[i] == complete_lines(rest)[i - 1]);
            }
        }
    }
}

/// A line ending is a line feed with at most one carriage return before it: that one is cut off,
/// and nothing else of the line is, neither a second carriage return nor one elsewhere.
pub proof fn law_one_carriage_return_is_cut(line: Seq<char>)
    ensures
        strip_cr(line.push('\r')) == line,
        line.len() == 0 || line[line.len() - 1] != '\r' ==> strip_cr(line) == line,
{
    assert(line.push('\r').drop_last() =~= line);
}

/// A text without a line feed is one unfinished line.
pub proof fn law_no_feed_no_line(text: Seq<char>)
    requires
        no_feed(text),
    ensures
        raw_lines(text).len() == 0,
        complete_lines(text).len() == 0,
        unfinished(text) == text,
{
    lemma_newline_at(text);
}

/// A line with its line feed in front of a text is the first line of the whole, and the text is cut
/// as it would be alone.  A carriage return before the line feed belongs to the line ending.
pub proof fn law_first_line(line: Seq<char>, rest: Seq<char>)
    requires
        no_feed(line),
    ensures
        raw_lines(line.push('\n') + rest) == seq![line] + raw_lines(rest),
        unfinished(line.push('\n') + rest) == unfinished(rest),
        line.len() == 0 || line[line.len() - 1] != '\r' ==> complete_lines(line.push('\n') + rest)
            == seq![line] + complete_lines(rest),
        complete_lines(line.push('\r').push('\n') + rest) == seq![line] + complete_lines(rest),
{
    lemma_first_line(line, rest);
    law_one_carriage_return_is_cut(line);
    assert forall|i: int| 0 <= i < line.push('\r').len() implies line.push('\r')[i] != '\n' by {
        if i < line.len() {
            assert(line.push('\r')[i] == line[i]);
        }
    }
    lemma_first_line(line.push('\r'), rest);
}

proof fn lemma_first_line(line: Seq<char>, rest: Seq<char>)
    requires
        no_feed(line),
    ensures
        raw_lines(line.push('\n') + rest) == seq![line] + raw_lines(rest),
        unfinished(line.push('\n') + rest) == unfinished(rest),
        complete_lines(line.push('\n') + rest) == seq![strip_cr(line)] + complete_lines(rest),
{
    let s = line.push('\n') + rest;
    let k = line.len() as int;
    lemma_newline_at(s);
    assert(s[k] == '\n');
    assert(newline_at(s) == k) by {
        let m = newline_at(s);
        if m < k {
            assert(s[m] == line[m]);
        }
    }
    assert(s.take(k) =~= line);
    assert(s.skip(k + 1) =~= rest);
    assert(complete_lines(s) =~= seq![strip_cr(line)] + complete_lines(rest));
}

/// Cutting undoes putting together: lines with a line feed behind each, and an end without one, are
/// cut into just those lines and that end.
pub proof fn law_cutting_gives_back_lines(lines: Seq<Seq<char>>, end: Seq<char>)
    requires
        forall|i: int| 0 <= i < lines.len() ==> no_feed(#[trigger] lines[i]),
        no_feed(end),
    ensures
        raw_lines(with_feeds(lines) + end) == lines,
        unfinished(with_feeds(lines) + end) == end,
    decreases lines.len(),
{
    if lines.len() == 0 {
        assert(with_feeds(lines) + end =~= end);
        law_no_feed_no_line(end);
    } else {
        let rest = lines.drop_first();
        assert(no_feed(lines[0]));
        assert forall|i: int| 0 <= i < rest.len() implies no_feed(#[trigger] rest[i]) by {
            assert(rest[i] == lines[i + 1]);
        }
        law_cutting_gives_back_lines(rest, end);
        law_first_line(lines[0], with_feeds(rest) + end);
        assert(with_feeds(lines) + end =~= lines[0].push('\n') + (with_feeds(rest) + end));
        assert(seq![lines[0]] + rest =~= lines);
    }
}

/// Strings and events stand for their values one by one: none is left out, added or moved.
pub proof fn law_values_one_by_one(strings: Seq<String>, events: Seq<JobEvent>, i: int)
    ensures
        texts(strings).len() == strings.len(),
        0 <= i < strings.len() ==> texts(strings)[i] == strings[i]@,
        event_views(events).len() == events.len(),
        0 <= i < events.len() ==> event_views(events)[i] == events[i]@,
{
}

/// Two events with one value are of one kind and carry the same text or code.
pub proof fn law_events_are_told_apart(a: JobEvent, b: JobEvent)
    requires
        a@ == b@,
    ensures
        match (a, b) {
            (JobEvent::Stdout(s), JobEvent::Stdout(t)) => s@ == t@,
            (JobEvent::Stderr(s), JobEvent::Stderr(t)) => s@ == t@,
            (JobEvent::StdoutChunk(s), JobEvent::StdoutChunk(t)) => s@ == t@,
            (JobEvent::StderrChunk(s), JobEvent::StderrChunk(t)) => s@ == t@,
            (JobEvent::Exit(s), JobEvent::Exit(t)) => s == t,
            _ => false,
        },
{
}

/// The value of an event has its kind and carries its text or code unchanged.
pub proof fn law_event_value(text: String, code: i32)
    ensures
        JobEvent::Stdout(text)@ == JobEventView::Stdout(text@),
        JobEvent::Stderr(text)@ == JobEventView::Stderr(text@),
        JobEvent::StdoutChunk(text)@ == JobEventView::StdoutChunk(text@),
        JobEvent::StderrChunk(text)@ == JobEventView::StderrChunk(text@),
        JobEvent::Exit(code)@ == JobEventView::Exit(code),
        Stream::Stdout.line_view(text@) == JobEvent::Stdout(text)@,
        Stream::Stderr.line_view(text@) == JobEvent::Stderr(text)@,
        Stream::Stdout.chunk_view(text@) == JobEvent::StdoutChunk(text)@,
        Stream::Stderr.chunk_view(text@) == JobEvent::StderrChunk(text)@,
{
}

/// Cutting a text in two before cutting it into lines makes no difference, if what the first part
/// leaves unfinished is put in front of the second.
pub proof fn law_lines_of_concatenation(a: Seq<char>, b: Seq<char>)
    ensures
        complete_lines(a + b) == complete_lines(a) + complete_lines(unfinished(a) + b),
        unfinished(a + b) == unfinished(unfinished(a) + b),
    decreases a.len(),
{
    lemma_newline_at(a);
    lemma_newline_at(a + b);
    let k = newline_at(a);
    if k >= a.len() {
        assert(complete_lines(a) =~= Seq::empty());
        assert(complete_lines(a) + complete_lines(a + b) =~= complete_lines(a + b));
    } else {
        let rest = a.skip(k + 1);
        law_lines_of_concatenation(rest, b);
        assert((a + b)[k] == '\n');
        assert(newline_at(a + b) == k) by {
            let m = newline_at(a + b);
            if m < k {
                assert((a + b)[m] == a[m]);
            } else if m > k {
                assert((a + b)[k] != '\n');
            }
        }
        assert((a + b).take(k) =~= a.take(k));
        assert((a + b).skip(k + 1) =~= rest + b);
        assert(complete_lines(a + b) =~= seq![strip_cr(a.take(k))] + complete_lines(rest + b));
        assert(complete_lines(a) =~= seq![strip_cr(a.take(k))] + complete_lines(rest));
        assert(unfinished(a) == unfinished(rest));
        assert(complete_lines(a + b) =~= complete_lines(a) + complete_lines(unfinished(a) + b));
    }
}

/// How many line feeds a text holds.
pub open spec fn feeds(s: Seq<char>) -> nat
    decreases s.len(),
{
    if s.len() == 0 {
        0
    } else {
        (if s[0] == '\n' {
            1nat
        } else {
            0nat
        }) + feeds(s.drop_first())
    }
}

proof fn lemma_feeds(a: Seq<char>, b: Seq<char>)
    ensures
        feeds(a + b) == feeds(a) + feeds(b),
        no_feed(a) ==> feeds(a) == 0,
    decreases a.len(),
{
    if a.len() == 0 {
        assert(a + b =~= b);
    } else {
        lemma_feeds(a.drop_first(), b);
        assert((a + b).drop_first() =~= a.drop_first() + b);
        assert(no_feed(a) ==> no_feed(a.drop_first())) by {
            if no_feed(a) {
                assert forall|i: int| 0 <= i < a.drop_first().len() implies a.drop_first()[i]
                    != '\n' by {
                    assert(a.drop_first()[i] == a[i + 1]);
                }
            }
        }
    }
}

proof fn lemma_one_line_per_feed(s: Seq<char>)
    ensures
        complete_lines(s).len() == feeds(s),
    decreases s.len(),
{
    lemma_newline_at(s);
    let k = newline_at(s);
    if k < s.len() {
        let rest = s.skip(k + 1);
        lemma_one_line_per_feed(rest);
        assert(s =~= s.take(k) + s.skip(k));
        lemma_feeds(s.take(k), s.skip(k));
        assert(s.skip(k).drop_first() =~= rest);
        assert(raw_lines(s).len() == 1 + raw_lines(rest).len());
    } else {
        lemma_feeds(s, Seq::empty());
    }
}

/// A chunk finishes one line for each line feed in it.
pub proof fn law_one_line_per_feed(reader: ReaderView, text: Seq<char>)
    requires
        reader.wf(),
    ensures
        line_texts(reader.text_reports(text)).len() == feeds(text),
{
    law_chunk_then_its_lines(reader, text);
    lemma_one_line_per_feed(reader.partial + text);
    lemma_feeds(reader.partial, text);
}

/// Everything that a reader reports from `reader` on, if it reads `chunks` and the stream then
/// ends, and every event is accepted.
pub open spec fn run_reports(reader: ReaderView, chunks: Seq<Seq<u8>>) -> Seq<JobEventView>
    decreases chunks.len(),
{
    if chunks.len() == 0 {
        reader.last_reports()
    } else {
        reader.reports(chunks[0]) + run_reports(reader.after(chunks[0]), chunks.drop_first())
    }
}

/// The texts of the chunk events among `events`.
pub open spec fn chunk_texts(events: Seq<JobEventView>) -> Seq<Seq<char>>
    decreases events.len(),
{
    if events.len() == 0 {
        Seq::empty()
    } else {
        let rest = chunk_texts(events.drop_first());
        match events[0] {
            JobEventView::StdoutChunk(text) | JobEventView::StderrChunk(text) => seq![text] + rest,
            _ => rest,
        }
    }
}

/// The texts of the line events among `events`.
pub open spec fn line_texts(events: Seq<JobEventView>) -> Seq<Seq<char>>
    decreases events.len(),
{
    if events.len() == 0 {
        Seq::empty()
    } else {
        let rest = line_texts(events.drop_first());
        match events[0] {
            JobEventView::Stdout(text) | JobEventView::Stderr(text) => seq![text] + rest,
            _ => rest,
        }
    }
}

/// The texts of the chunks that decode, one by one.
pub open spec fn decoded(chunks: Seq<Seq<u8>>) -> Seq<Seq<char>>
    decreases chunks.len(),
{
    if chunks.len() == 0 {
        Seq::empty()
    } else {
        let rest = decoded(chunks.drop_first());
        if chunks[0].len() > 0 && valid_utf8(chunks[0]) {
            seq![decode_utf8(chunks[0])] + rest
        } else {
            rest
        }
    }
}

/// The texts as one.
pub open spec fn whole(texts: Seq<Seq<char>>) -> Seq<char>
    decreases texts.len(),
{
    if texts.len() == 0 {
        Seq::empty()
    } else {
        texts[0] + whole(texts.drop_first())
    }
}

/// All the lines of a text, the unfinished one at its end included.
pub open spec fn all_lines(s: Seq<char>) -> Seq<Seq<char>> {
    if unfinished(s).len() > 0 {
        complete_lines(s).push(strip_cr(unfinished(s)))
    } else {
        complete_lines(s)
    }
}

proof fn lemma_texts_of_concatenation(a: Seq<JobEventView>, b: Seq<JobEventView>)
    ensures
        chunk_texts(a + b) == chunk_texts(a) + chunk_texts(b),
        line_texts(a + b) == line_texts(a) + line_texts(b),
    decreases a.len(),
{
    if a.len() == 0 {
        assert(a + b =~= b);
        assert(chunk_texts(a) + chunk_texts(b) =~= chunk_texts(b));
        assert(line_texts(a) + line_texts(b) =~= line_texts(b));
    } else {
        lemma_texts_of_concatenation(a.drop_first(), b);
        assert((a + b).drop_first() =~= a.drop_first() + b);
        assert(chunk_texts(a + b) =~= chunk_texts(a) + chunk_texts(b));
        assert(line_texts(a + b) =~= line_texts(a) + line_texts(b));
    }
}

proof fn lemma_texts_of_lines(stream: Stream, lines: Seq<Seq<char>>)
    ensures
        chunk_texts(lines.map_values(|line: Seq<char>| stream.line_view(line))) == Seq::<
            Seq<char>,
        >::empty(),
        line_texts(lines.map_values(|line: Seq<char>| stream.line_view(line))) == lines,
    decreases lines.len(),
{
    let events = lines.map_values(|line: Seq<char>| stream.line_view(line));
    if lines.len() > 0 {
        lemma_texts_of_lines(stream, lines.drop_first());
        assert(events.drop_first() =~= lines.drop_first().map_values(
            |line: Seq<char>| stream.line_view(line),
        ));
        assert(events[0] == stream.line_view(lines[0]));
        assert(line_texts(events) =~= lines);
    } else {
        assert(line_texts(events) =~= lines);
    }
}

/// The events for one chunk are the chunk event, first and only if it is wanted, and then, in order,
/// the lines that the chunk finishes.
pub proof fn law_chunk_then_its_lines(reader: ReaderView, text: Seq<char>)
    ensures
        reader.chunks_wanted ==> reader.text_reports(text)[0] == reader.stream.chunk_view(text),
        chunk_texts(reader.text_reports(text)) == (if reader.chunks_wanted {
            seq![text]
        } else {
            Seq::empty()
        }),
        line_texts(reader.text_reports(text)) == complete_lines(reader.partial + text),
{
    let stream = reader.stream;
    let finished = complete_lines(reader.partial + text);
    let lines = finished.map_values(|line: Seq<char>| stream.line_view(line));
    lemma_texts_of_lines(stream, finished);
    if reader.chunks_wanted {
        let first = seq![stream.chunk_view(text)];
        lemma_texts_of_concatenation(first, lines);
        assert(first.drop_first() =~= Seq::empty());
        assert(chunk_texts(first) =~= seq![text]) by {
            reveal_with_fuel(chunk_texts, 2);
        }
        assert(line_texts(first) =~= Seq::empty()) by {
            reveal_with_fuel(line_texts, 2);
        }
        assert(line_texts(first) + line_texts(lines) =~= finished);
        assert(chunk_texts(first) + chunk_texts(lines) =~= seq![text]);
    }
}

proof fn lemma_last_reports(reader: ReaderView)
    ensures
        chunk_texts(reader.last_reports()) == Seq::<Seq<char>>::empty(),
        line_texts(reader.last_reports()) == (if reader.partial.len() > 0 {
            seq![strip_cr(reader.partial)]
        } else {
            Seq::empty()
        }),
{
    let events = reader.last_reports();
    if events.len() > 0 {
        assert(events.drop_first() =~= Seq::empty());
        reveal_with_fuel(chunk_texts, 2);
        reveal_with_fuel(line_texts, 2);
        assert(line_texts(events) =~= seq![strip_cr(reader.partial)]);
    }
}

/// Where chunks are wanted, a reader reports every chunk that decodes, whole and in order, and no
/// other chunk; where they are not, it reports none.
pub proof fn law_chunks_are_reported_whole(reader: ReaderView, chunks: Seq<Seq<u8>>)
    ensures
        chunk_texts(run_reports(reader, chunks)) == (if reader.chunks_wanted {
            decoded(chunks)
        } else {
            Seq::empty()
        }),
    decreases chunks.len(),
{
    if chunks.len() == 0 {
        lemma_last_reports(reader);
    } else {
        let rest = chunks.drop_first();
        let next = reader.after(chunks[0]);
        law_chunks_are_reported_whole(next, rest);
        lemma_texts_of_concatenation(reader.reports(chunks[0]), run_reports(next, rest));
        if chunks[0].len() > 0 && valid_utf8(chunks[0]) {
            law_chunk_then_its_lines(reader, decode_utf8(chunks[0]));
            assert(Seq::<Seq<char>>::empty() + Seq::<Seq<char>>::empty() =~= Seq::empty());
        } else {
            assert(reader.reports(chunks[0]) + run_reports(next, rest) =~= run_reports(next, rest));
        }
    }
}

/// A chunk that does not decode is passed over: the reader reports nothing for it and stays as it
/// was.
pub proof fn law_bad_chunk_is_passed_over(reader: ReaderView, chunk: Seq<u8>)
    requires
        !valid_utf8(chunk),
    ensures
        reader.reports(chunk).len() == 0,
        reader.after(chunk) == reader,
{
}

/// However the reads cut the stream, the line events are exactly the lines of the unfinished line
/// from before and the whole decoded text behind it, the unfinished one at its end included.
pub proof fn law_lines_of_the_stream(reader: ReaderView, chunks: Seq<Seq<u8>>)
    requires
        reader.wf(),
    ensures
        line_texts(run_reports(reader, chunks)) == all_lines(
            reader.partial + whole(decoded(chunks)),
        ),
    decreases chunks.len(),
{
    if chunks.len() == 0 {
        lemma_last_reports(reader);
        assert(reader.partial + whole(decoded(chunks)) =~= reader.partial);
        lemma_newline_at(reader.partial);
        assert(complete_lines(reader.partial) =~= Seq::empty());
        assert(all_lines(reader.partial) =~= line_texts(run_reports(reader, chunks)));
    } else {
        let rest = chunks.drop_first();
        let next = reader.after(chunks[0]);
        lemma_texts_of_concatenation(reader.reports(chunks[0]), run_reports(next, rest));
        if chunks[0].len() > 0 && valid_utf8(chunks[0]) {
            let text = decode_utf8(chunks[0]);
            let behind = whole(decoded(rest));
            assert(decoded(chunks)[0] == text);
            assert(decoded(chunks).drop_first() =~= decoded(rest));
            law_chunk_then_its_lines(reader, text);
            lemma_unfinished_has_no_feed(reader.partial + text);
            law_lines_of_the_stream(next, rest);
            law_lines_of_concatenation(reader.partial + text, behind);
            assert(reader.partial + whole(decoded(chunks)) =~= (reader.partial + text) + behind);
            assert(line_texts(run_reports(reader, chunks)) =~= all_lines(
                reader.partial + whole(decoded(chunks)),
            ));
        } else {
            law_lines_of_the_stream(next, rest);
            assert(reader.reports(chunks[0]) + run_reports(next, rest) =~= run_reports(next, rest));
        }
    }
}

/// What one chunk that decodes makes of a reader and what is reported for it, event by event: the
/// chunk first, if it is wanted, and then one event for each line that is finished now.
pub proof fn law_reports_of_a_chunk(reader: ReaderView, text: Seq<char>, i: int)
    requires
        text.len() > 0,
    ensures
        ({
            let chunk = encode_utf8(text);
            let lines = complete_lines(reader.partial + text);
            let first: int = if reader.chunks_wanted {
                1
            } else {
                0
            };
            &&& reader.reports(chunk) == reader.text_reports(text)
            &&& reader.reports(chunk).len() == first + lines.len()
            &&& reader.chunks_wanted ==> reader.reports(chunk)[0] == reader.stream.chunk_view(text)
            &&& 0 <= i < lines.len() ==> reader.reports(chunk)[first + i]
                == reader.stream.line_view(lines[i])
            &&& reader.after(chunk).partial == unfinished(reader.partial + text)
            &&& reader.after(chunk).stream == reader.stream
            &&& reader.after(chunk).chunks_wanted == reader.chunks_wanted
        }),
{
    vstd::utf8::encode_utf8_valid_utf8(text);
    vstd::utf8::encode_utf8_decode_utf8(text);
    if encode_utf8(text).len() == 0 {
        assert(encode_utf8(text) =~= encode_utf8(Seq::<char>::empty()));
        vstd::utf8::encode_utf8_decode_utf8(Seq::<char>::empty());
        assert(text =~= Seq::<char>::empty());
    }
}

/// The end of a stream reports the unfinished line, without the carriage return that may end it,
/// exactly if there is one.
pub proof fn law_report_at_the_end(reader: ReaderView)
    ensures
        reader.partial.len() == 0 ==> reader.last_reports().len() == 0,
        reader.partial.len() > 0 ==> reader.last_reports() == seq![
            reader.stream.line_view(strip_cr(reader.partial)),
        ],
{
}

/// Sending events one by one leaves one entry for each, in order and unchanged: all of them
/// accepted, or some accepted and then one, the last that is tried, refused.
pub proof fn law_attempts(events: Seq<JobEventView>, n: int, i: int)
    requires
        0 <= n <= events.len(),
    ensures
        n == events.len() ==> attempts(events, n).len() == events.len(),
        n < events.len() ==> attempts(events, n).len() == n + 1,
        n < events.len() ==> attempts(events, n)[n] == (events[n], false),
        0 <= i < n ==> attempts(events, n)[i] == (events[i], true),
{
}

/// A read that is stopped by a refusal sends nothing more, except that the unfinished line is tried
/// once, if there is one, where the refused event was the chunk.
pub proof fn law_stopped_read(
    reached: Seq<(JobEventView, bool)>,
    sends: Seq<(JobEventView, bool)>,
    reader: ReaderView,
    n: int,
)
    requires
        stopped_after(reached, sends, reader, n),
    ensures
        !(n == 0 && reader.chunks_wanted) ==> sends == reached,
        reader.partial.len() == 0 ==> sends == reached,
        n == 0 && reader.chunks_wanted && reader.partial.len() > 0 ==> {
            &&& reached.is_prefix_of(sends)
            &&& sends.len() == reached.len() + 1
            &&& sends.last().0 == reader.stream.line_view(strip_cr(reader.partial))
        },
{
    if n == 0 && reader.chunks_wanted {
        let m = choose|m: int|
            {
                &&& 0 <= m <= reader.last_reports().len()
                &&& sends == reached + #[trigger] attempts(reader.last_reports(), m)
            };
        assert(sends == reached + attempts(reader.last_reports(), m));
        if reader.partial.len() == 0 {
            assert(sends =~= reached);
        }
    }
}

/// The history that is left when every one of `events` is accepted.
pub open spec fn all_accepted(events: Seq<JobEventView>) -> Seq<(JobEventView, bool)> {
    Seq::new(events.len(), |i: int| (events[i], true))
}

/// The events of a history, without what became of them.
pub open spec fn tried(sends: Seq<(JobEventView, bool)>) -> Seq<JobEventView> {
    sends.map_values(|entry: (JobEventView, bool)| entry.0)
}

proof fn lemma_history_of_the_stream(
    txs: Seq<flume::Sender<JobEvent>>,
    readers: Seq<ReaderView>,
    chunks: Seq<Seq<u8>>,
)
    requires
        readers.len() == chunks.len() + 1,
        txs.len() == chunks.len() + 2,
        forall|k: int|
            0 <= k < chunks.len() ==> readers[k + 1] == readers[k].after(#[trigger] chunks[k]),
        forall|k: int|
            0 <= k < chunks.len() ==> event_sends(txs[k + 1]) == event_sends(txs[k]) + attempts(
                readers[k].reports(#[trigger] chunks[k]),
                readers[k].reports(chunks[k]).len() as int,
            ),
        event_sends(txs.last()) == event_sends(txs[chunks.len() as int]) + attempts(
            readers.last().last_reports(),
            readers.last().last_reports().len() as int,
        ),
    ensures
        event_sends(txs.last()) == event_sends(txs[0]) + all_accepted(
            run_reports(readers[0], chunks),
        ),
    decreases chunks.len(),
{
    if chunks.len() == 0 {
        assert(event_sends(txs.last()) =~= event_sends(txs[0]) + all_accepted(
            run_reports(readers[0], chunks),
        ));
    } else {
        let rest = chunks.drop_first();
        let later_readers = readers.drop_first();
        let later_txs = txs.drop_first();
        assert(readers[1] == readers[0].after(chunks[0]));
        assert(event_sends(txs[1]) == event_sends(txs[0]) + attempts(
            readers[0].reports(chunks[0]),
            readers[0].reports(chunks[0]).len() as int,
        ));
        assert forall|k: int| 0 <= k < rest.len() implies later_readers[k + 1]
            == later_readers[k].after(#[trigger] rest[k]) by {
            assert(rest[k] == chunks[k + 1]);
        }
        assert forall|k: int| 0 <= k < rest.len() implies event_sends(later_txs[k + 1])
            == event_sends(later_txs[k]) + attempts(
            later_readers[k].reports(#[trigger] rest[k]),
            later_readers[k].reports(rest[k]).len() as int,
        ) by {
            assert(rest[k] == chunks[k + 1]);
        }
        lemma_history_of_the_stream(later_txs, later_readers, rest);
        assert(event_sends(txs.last()) =~= event_sends(txs[0]) + all_accepted(
            run_reports(readers[0], chunks),
        ));
    }
}

/// When no send is refused, what a whole stream adds to the history of the sender is all of what
/// the reader reports, entry by entry, and the line texts in it are the lines of the unfinished
/// line from before and the whole decoded text behind it.  `txs` is the sender before each read
/// and, at its end, after the read that found the stream at its end.
pub proof fn law_history_of_the_stream(
    txs: Seq<flume::Sender<JobEvent>>,
    readers: Seq<ReaderView>,
    chunks: Seq<Seq<u8>>,
)
    requires
        readers.len() == chunks.len() + 1,
        txs.len() == chunks.len() + 2,
        readers[0].wf(),
        forall|k: int|
            0 <= k < chunks.len() ==> readers[k + 1] == readers[k].after(#[trigger] chunks[k]),
        forall|k: int|
            0 <= k < chunks.len() ==> event_sends(txs[k + 1]) == event_sends(txs[k]) + attempts(
                readers[k].reports(#[trigger] chunks[k]),
                readers[k].reports(chunks[k]).len() as int,
            ),
        event_sends(txs.last()) == event_sends(txs[chunks.len() as int]) + attempts(
            readers.last().last_reports(),
            readers.last().last_reports().len() as int,
        ),
    ensures
        ({
            let new = event_sends(txs.last()).skip(event_sends(txs[0]).len() as int);
            &&& event_sends(txs[0]).is_prefix_of(event_sends(txs.last()))
            &&& tried(new) == run_reports(readers[0], chunks)
            &&& forall|i: int| 0 <= i < new.len() ==> (#[trigger] new[i]).1
            &&& line_texts(tried(new)) == all_lines(readers[0].partial + whole(decoded(chunks)))
            &&& chunk_texts(tried(new)) == (if readers[0].chunks_wanted {
                decoded(chunks)
            } else {
                Seq::empty()
            })
        }),
{
    lemma_history_of_the_stream(txs, readers, chunks);
    law_lines_of_the_stream(readers[0], chunks);
    law_chunks_are_reported_whole(readers[0], chunks);
    let new = event_sends(txs.last()).skip(event_sends(txs[0]).len() as int);
    assert(new =~= all_accepted(run_reports(readers[0], chunks)));
    assert(tried(new) =~= run_reports(readers[0], chunks));
}

/// A reader reports lines and chunks of its own stream only.
pub proof fn law_reports_stay_on_their_stream(reader: ReaderView, chunk: Seq<u8>)
    ensures
        forall|i: int|
            0 <= i < reader.reports(chunk).len() ==> on_stream(
                reader.stream,
                #[trigger] reader.reports(chunk)[i],
            ),
        forall|i: int|
            0 <= i < reader.last_reports().len() ==> on_stream(
                reader.stream,
                #[trigger] reader.last_reports()[i],
            ),
{
}

/// The event reports a line or a chunk of `stream`.
pub open spec fn on_stream(stream: Stream, event: JobEventView) -> bool {
    match stream {
        Stream::Stdout => event is Stdout || event is StdoutChunk,
        Stream::Stderr => event is Stderr || event is StderrChunk,
    }
}

} // verus!
