//! Turning the raw output of a process into events.

use vstd::prelude::*;
use vstd::utf8::{decode_utf8, encode_utf8, valid_utf8};
use crate::channels::{event_sends, same_event_channel, send_event};
use crate::events::{JobEvent, JobEventView};
use crate::lines::{
    complete_lines, lemma_unfinished_has_no_feed, split_lines, strip_carriage_return, strip_cr,
    texts, unfinished,
};

verus! {

/// How many bytes one read of an output stream asks for.
pub const READER_BUF_SIZE: usize = 8 * 1024;

/// The output streams of a process.
#[derive(Clone, Copy)]
pub enum Stream {
    Stdout,
    Stderr,
}

impl Stream {
    /// The event that reports a line of this stream.
    pub open spec fn line_view(self, line: Seq<char>) -> JobEventView {
        match self {
            Stream::Stdout => JobEventView::Stdout(line),
            Stream::Stderr => JobEventView::Stderr(line),
        }
    }

    /// The event that reports a piece of this stream as it was read.
    pub open spec fn chunk_view(self, text: Seq<char>) -> JobEventView {
        match self {
            Stream::Stdout => JobEventView::StdoutChunk(text),
            Stream::Stderr => JobEventView::StderrChunk(text),
        }
    }

    /// The event that reports a line of this stream.
    pub fn line_event(self, line: String) -> (event: JobEvent)
        ensures
            event@ == self.line_view(line@),
    {
        match self {
            Stream::Stdout => JobEvent::Stdout(line),
            Stream::Stderr => JobEvent::Stderr(line),
        }
    }

    /// The event that reports a piece of this stream as it was read.
    pub fn chunk_event(self, text: String) -> (event: JobEvent)
        ensures
            event@ == self.chunk_view(text@),
    {
        match self {
            Stream::Stdout => JobEvent::StdoutChunk(text),
            Stream::Stderr => JobEvent::StderrChunk(text),
        }
    }
}

/// Calls `String::from_utf8`, which accepts exactly the byte sequences that are valid UTF-8 and
/// then keeps those bytes as the text.
#[verifier::external_body]
fn decode_chunk(bytes: Vec<u8>) -> (text: Option<String>)
    ensures
        text is Some <==> valid_utf8(bytes@),
        text matches Some(t) ==> encode_utf8(t@) == bytes@,
{
    String::from_utf8(bytes).ok()
}

/// The state of a reader: its stream, whether somebody wants the chunks as they are read, and the
/// line that what was read so far leaves unfinished.
#[verifier::ext_equal]
pub struct ReaderView {
    pub stream: Stream,
    pub chunks_wanted: bool,
    pub partial: Seq<char>,
}

impl ReaderView {
    /// An unfinished line holds no line feed.
    pub open spec fn wf(self) -> bool {
        forall|i: int| 0 <= i < self.partial.len() ==> self.partial[i] != '\n'
    }

    /// What the reader reports for a decoded chunk: the chunk itself, if it is wanted, and then
    /// each line that it finishes, the unfinished line from before included.
    pub open spec fn text_reports(self, text: Seq<char>) -> Seq<JobEventView> {
        let lines = complete_lines(self.partial + text).map_values(
            |line: Seq<char>| self.stream.line_view(line),
        );
        if self.chunks_wanted {
            seq![self.stream.chunk_view(text)] + lines
        } else {
            lines
        }
    }

    /// What the reader reports for one chunk.
    pub open spec fn reports(self, chunk: Seq<u8>) -> Seq<JobEventView> {
        if chunk.len() > 0 && valid_utf8(chunk) {
            self.text_reports(decode_utf8(chunk))
        } else {
            Seq::empty()
        }
    }

    /// The reader after it has reported one chunk.  A chunk that is not valid UTF-8 changes
    /// nothing.
    pub open spec fn after(self, chunk: Seq<u8>) -> ReaderView {
        if chunk.len() > 0 && valid_utf8(chunk) {
            ReaderView { partial: unfinished(self.partial + decode_utf8(chunk)), ..self }
        } else {
            self
        }
    }

    /// What the reader reports when the stream ends.
    pub open spec fn last_reports(self) -> Seq<JobEventView> {
        if self.partial.len() > 0 {
            seq![self.stream.line_view(strip_cr(self.partial))]
        } else {
            Seq::empty()
        }
    }
}

/// The mathematical values of events.
pub open spec fn event_views(events: Seq<JobEvent>) -> Seq<JobEventView> {
    events.map_values(|event: JobEvent| event@)
}

/// What sending `events` in order adds to a sender's history, if `n` of them are accepted and the
/// next one, if any, is refused and ends the attempt.
pub open spec fn attempts(events: Seq<JobEventView>, n: int) -> Seq<(JobEventView, bool)> {
    Seq::new(
        if n < events.len() {
            (n + 1) as nat
        } else {
            events.len()
        },
        |i: int| (events[i], i < n),
    )
}

/// Sends `events` in order until one is refused; returns how many were accepted.
pub fn send_all(tx: &mut flume::Sender<JobEvent>, events: Vec<JobEvent>) -> (accepted: usize)
    ensures
        accepted <= events@.len(),
        event_sends(*final(tx)) == event_sends(*old(tx)) + attempts(
            event_views(events@),
            accepted as int,
        ),
        event_sends(*old(tx)).is_prefix_of(event_sends(*final(tx))),
        event_sends(*final(tx)).len() == event_sends(*old(tx)).len() + accepted + (if accepted
            < events@.len() {
            1int
        } else {
            0int
        }),
        forall|i: int|
            0 <= i < accepted ==> event_sends(*final(tx))[event_sends(*old(tx)).len() + i] == (
                (#[trigger] events@[i])@,
                true,
            ),
        accepted < events@.len() ==> event_sends(*final(tx)).last() == (
            events@[accepted as int]@,
            false,
        ),
        same_event_channel(*old(tx), *final(tx)),
{
    let ghost before = event_sends(*tx);
    let mut n: usize = 0;
    assert(before =~= before + Seq::new(0, |i: int| (event_views(events@)[i], true)));
    while n < events.len()
        invariant
            n <= events@.len(),
            before == event_sends(*old(tx)),
            same_event_channel(*old(tx), *tx),
            event_sends(*tx) == before + Seq::new(
                n as nat,
                |i: int| (event_views(events@)[i], true),
            ),
        decreases events@.len() - n,
    {
        let accepted = send_event(tx, events[n].clone());
        if !accepted {
            assert(event_sends(*tx) =~= before + attempts(event_views(events@), n as int));
            return n;
        }
        n = n + 1;
        assert(event_sends(*tx) =~= before + Seq::new(
            n as nat,
            |i: int| (event_views(events@)[i], true),
        ));
    }
    assert(event_sends(*tx) =~= before + attempts(event_views(events@), n as int));
    n
}

/// Reads one output stream of a job and reports it, line by line and, if wanted, chunk by chunk.
pub struct StreamReader {
    stream: Stream,
    chunks_wanted: bool,
    partial: String,
}

impl View for StreamReader {
    type V = ReaderView;

    closed spec fn view(&self) -> ReaderView {
        ReaderView {
            stream: self.stream,
            chunks_wanted: self.chunks_wanted,
            partial: self.partial@,
        }
    }
}

impl StreamReader {
    /// A reader at the start of `stream`.
    pub fn new(stream: Stream, chunks_wanted: bool) -> (reader: Self)
        ensures
            reader@ == (ReaderView { stream, chunks_wanted, partial: Seq::empty() }),
            reader@.wf(),
    {
        StreamReader { stream, chunks_wanted, partial: String::new() }
    }

    /// The events for a decoded chunk, in the order in which they are sent, and the line that it
    /// leaves unfinished.
    pub fn chunk_events(&self, text: String) -> (cut: (Vec<JobEvent>, String))
        ensures
            event_views(cut.0@) == self@.text_reports(text@),
            cut.1@ == unfinished(self@.partial + text@),
    {
        let mut joined = self.partial.clone();
        joined.append(text.as_str());
        let (lines, rest) = split_lines(joined.as_str());
        let mut events: Vec<JobEvent> = Vec::new();
        if self.chunks_wanted {
            events.push(self.stream.chunk_event(text));
        }
        let ghost first = event_views(events@);
        let mut i: usize = 0;
        while i < lines.len()
            invariant
                i <= lines@.len(),
                event_views(events@) == first + Seq::new(
                    i as nat,
                    |j: int| self.stream.line_view(lines@[j]@),
                ),
            decreases lines@.len() - i,
        {
            let ghost before = events@;
            events.push(self.stream.line_event(lines[i].clone()));
            i = i + 1;
            assert(event_views(events@) =~= event_views(before).push(
                self.stream.line_view(lines@[i - 1]@),
            ));
            assert(event_views(events@) =~= first + Seq::new(
                i as nat,
                |j: int| self.stream.line_view(lines@[j]@),
            ));
        }
        proof {
            assert(texts(lines@) == complete_lines(self@.partial + text@));
            assert(Seq::new(lines@.len(), |j: int| self.stream.line_view(lines@[j]@))
                =~= complete_lines(self@.partial + text@).map_values(
                |line: Seq<char>| self@.stream.line_view(line),
            ));
            assert(event_views(events@) =~= self@.text_reports(text@));
        }
        (events, rest)
    }

    /// Takes the bytes of one read and sends what they report; no bytes mean that the stream has
    /// ended.  Returns whether to read on.
    ///
    /// Everything is sent in order and once, up to the first event that is refused.  At the end of
    /// the stream, or when a chunk event is refused, the unfinished line kept from before is sent
    /// as well, whatever becomes of it.
    pub fn on_read(&mut self, chunk: Vec<u8>, tx: &mut flume::Sender<JobEvent>) -> (more: bool)
        ensures
            old(self)@.wf() ==> final(self)@.wf(),
            same_event_channel(*old(tx), *final(tx)),
            chunk@.len() == 0 ==> {
                &&& !more
                &&& final(self)@ == old(self)@
                &&& exists|n: int|
                    {
                        &&& 0 <= n <= old(self)@.last_reports().len()
                        &&& event_sends(*final(tx)) == event_sends(*old(tx)) + #[trigger] attempts(
                            old(self)@.last_reports(),
                            n,
                        )
                    }
            },
            chunk@.len() > 0 && more ==> {
                &&& final(self)@ == old(self)@.after(chunk@)
                &&& event_sends(*final(tx)) == event_sends(*old(tx)) + attempts(
                    old(self)@.reports(chunk@),
                    old(self)@.reports(chunk@).len() as int,
                )
                &&& event_sends(*old(tx)).is_prefix_of(event_sends(*final(tx)))
                &&& event_sends(*final(tx)).len() == event_sends(*old(tx)).len() + old(
                    self,
                )@.reports(chunk@).len()
                &&& forall|i: int|
                    0 <= i < old(self)@.reports(chunk@).len() ==> event_sends(
                        *final(tx),
                    )[event_sends(*old(tx)).len() + i] == (
                        #[trigger] old(self)@.reports(chunk@)[i],
                        true,
                    )
            },
            chunk@.len() > 0 && !more ==> {
                &&& final(self)@ == old(self)@
                &&& exists|n: int|
                    {
                        &&& 0 <= n < old(self)@.reports(chunk@).len()
                        &&& stopped_after(
                            event_sends(*old(tx)) + #[trigger] attempts(
                                old(self)@.reports(chunk@),
                                n,
                            ),
                            event_sends(*final(tx)),
                            old(self)@,
                            n,
                        )
                    }
            },
    {
        if chunk.len() == 0 {
            self.flush(tx);
            return false;
        }
        let text = match decode_chunk(chunk) {
            Some(text) => text,
            None => {
                assert(event_sends(*tx) =~= event_sends(*tx) + attempts(Seq::empty(), 0));
                return true;
            },
        };
        proof {
            vstd::utf8::encode_utf8_decode_utf8(text@);
        }
        let (events, rest) = self.chunk_events(text);
        let ghost reports = event_views(events@);
        assert(reports == old(self)@.reports(chunk@));
        let count = events.len();
        let sent = send_all(tx, events);
        if sent < count {
            let ghost reached = event_sends(*tx);
            assert(reached == event_sends(*old(tx)) + attempts(reports, sent as int));
            if sent == 0 && self.chunks_wanted {
                self.flush(tx);
            }
            assert(stopped_after(reached, event_sends(*tx), old(self)@, sent as int));
            return false;
        }
        self.partial = rest;
        proof {
            lemma_unfinished_has_no_feed(old(self)@.partial + text@);
        }
        true
    }

    /// Sends the line that the end of the stream leaves unfinished, if there is one, whatever
    /// becomes of it.
    fn flush(&self, tx: &mut flume::Sender<JobEvent>)
        ensures
            same_event_channel(*old(tx), *final(tx)),
            exists|n: int|
                {
                    &&& 0 <= n <= self@.last_reports().len()
                    &&& event_sends(*final(tx)) == event_sends(*old(tx)) + #[trigger] attempts(
                        self@.last_reports(),
                        n,
                    )
                },
    {
        let mut events: Vec<JobEvent> = Vec::new();
        if !self.partial.as_str().is_empty() {
            let line = String::from_str(strip_carriage_return(self.partial.as_str()));
            events.push(self.stream.line_event(line));
        }
        assert(event_views(events@) =~= self@.last_reports());
        let sent = send_all(tx, events);
        assert(event_sends(*tx) == event_sends(*old(tx)) + attempts(
            self@.last_reports(),
            sent as int,
        ));
    }
}

/// How a sender's history ends for a read of which `n` events were accepted and the next one was
/// refused: with `reached`, what that attempt left, and behind it the unfinished line of `reader`
/// if the refused event was the chunk.
pub open spec fn stopped_after(
    reached: Seq<(JobEventView, bool)>,
    sends: Seq<(JobEventView, bool)>,
    reader: ReaderView,
    n: int,
) -> bool {
    if n == 0 && reader.chunks_wanted {
        exists|m: int|
            {
                &&& 0 <= m <= reader.last_reports().len()
                &&& sends == reached + #[trigger] attempts(reader.last_reports(), m)
            }
    } else {
        sends == reached
    }
}

} // verus!
