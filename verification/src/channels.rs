//! The channels that join a job's threads to the store.
//!
//! Both channels come from `flume`.  What a send or a poll comes to depends on
//! what other threads do at that moment, so no contract predicts it.  What can
//! be said is what has been done through one end: every end has a history, and
//! a call through it, which needs the end for itself, adds exactly one entry.
//! The histories exist in specifications only.

use vstd::prelude::*;
use crate::events::{JobEvent, JobEventView};

verus! {

/// `flume::Sender`, the sending end of a channel.
#[verifier::external_type_specification]
#[verifier::external_body]
#[verifier::reject_recursive_types(T)]
pub struct ExSender<T>(flume::Sender<T>);

/// `flume::Receiver`, the receiving end of a channel.
#[verifier::external_type_specification]
#[verifier::external_body]
#[verifier::reject_recursive_types(T)]
pub struct ExReceiver<T>(flume::Receiver<T>);

/// `tx` and `rx` are the two ends of one channel of events that never refuses for want of room.
pub uninterp spec fn event_channel_ends(
    tx: flume::Sender<JobEvent>,
    rx: flume::Receiver<JobEvent>,
) -> bool;

/// `tx` and `rx` are the two ends of one channel of texts that holds up to `room` of them.
pub uninterp spec fn stdin_channel_ends(
    tx: flume::Sender<String>,
    rx: flume::Receiver<String>,
    room: usize,
) -> bool;

/// The history of a sending end: the events that were sent through it, in order, each with
/// whether it was accepted.
pub uninterp spec fn event_sends(tx: flume::Sender<JobEvent>) -> Seq<(JobEventView, bool)>;

/// The history of a sending end: the texts that were sent through it, in order, each with whether
/// it was accepted.
pub uninterp spec fn stdin_sends(tx: flume::Sender<String>) -> Seq<(Seq<char>, bool)>;

/// The history of a receiving end: what each poll of it has found, in order, where nothing means
/// that there was nothing to take.
pub uninterp spec fn event_polls(rx: flume::Receiver<JobEvent>) -> Seq<Option<JobEventView>>;

/// `after` is an end of whatever channel `before` was an end of.
pub open spec fn same_event_channel(
    before: flume::Sender<JobEvent>,
    after: flume::Sender<JobEvent>,
) -> bool {
    forall|rx: flume::Receiver<JobEvent>|
        event_channel_ends(before, rx) ==> #[trigger] event_channel_ends(after, rx)
}

/// Some send of a history was refused.
pub open spec fn refused_once<T>(sends: Seq<(T, bool)>) -> bool {
    exists|i: int| 0 <= i < sends.len() && !(#[trigger] sends[i]).1
}

/// The mathematical value of a poll's result.
pub open spec fn found_view(found: Option<JobEvent>) -> Option<JobEventView> {
    match found {
        Some(event) => Some(event@),
        None => None,
    }
}

/// Calls `flume::unbounded`, which makes a channel without a limit and returns its two ends, as
/// yet unused.
#[verifier::external_body]
pub(crate) fn open_event_channel() -> (ends: (flume::Sender<JobEvent>, flume::Receiver<JobEvent>))
    ensures
        event_channel_ends(ends.0, ends.1),
        event_sends(ends.0) == Seq::<(JobEventView, bool)>::empty(),
        event_polls(ends.1) == Seq::<Option<JobEventView>>::empty(),
{
    flume::unbounded()
}

/// Calls `flume::bounded`, which makes a channel that holds up to `room` messages and returns its
/// two ends, as yet unused.
#[verifier::external_body]
pub(crate) fn open_stdin_channel(room: usize) -> (ends: (
    flume::Sender<String>,
    flume::Receiver<String>,
))
    ensures
        stdin_channel_ends(ends.0, ends.1, room),
        stdin_sends(ends.0) == Seq::<(Seq<char>, bool)>::empty(),
{
    flume::bounded(room)
}

/// Calls `flume::Sender::send` with an event.
///
/// The call fails only when every receiver of the channel is gone, and then so does every later
/// one.  The contract says that exactly this event was sent, that a sender that has been refused
/// once is refused again, and that the sender still belongs to its channel.  Whether a first
/// refusal comes rests on other threads.
#[verifier::external_body]
pub(crate) fn send_event(tx: &mut flume::Sender<JobEvent>, event: JobEvent) -> (accepted: bool)
    ensures
        event_sends(*final(tx)) == event_sends(*old(tx)).push((event@, accepted)),
        refused_once(event_sends(*old(tx))) ==> !accepted,
        same_event_channel(*old(tx), *final(tx)),
{
    tx.send(event).is_ok()
}

/// Calls `flume::Sender::send` with a text for standard input.
///
/// The call waits while the channel is full.  It fails only when every receiver of the channel is
/// gone, and then so does every later one.  The contract says that exactly this text was sent,
/// that a sender that has been refused once is refused again, and that the sender still belongs
/// to its channel.  Whether a first refusal comes, and how long the call waits, rests on other
/// threads.
#[verifier::external_body]
pub(crate) fn send_stdin(tx: &mut flume::Sender<String>, text: String) -> (accepted: bool)
    ensures
        stdin_sends(*final(tx)) == stdin_sends(*old(tx)).push((text@, accepted)),
        refused_once(stdin_sends(*old(tx))) ==> !accepted,
        forall|rx: flume::Receiver<String>, room: usize|
            stdin_channel_ends(*old(tx), rx, room) ==> #[trigger] stdin_channel_ends(
                *final(tx),
                rx,
                room,
            ),
{
    tx.send(text).is_ok()
}

/// Calls `flume::Receiver::try_recv`.
///
/// The call takes the oldest waiting event, or reports that there is none (an empty channel and a
/// closed one are not told apart).  The contract says that the result is what this one poll has
/// found, and that the receiver still belongs to its channel.  What is found rests on other
/// threads.
#[verifier::external_body]
pub(crate) fn poll_event(rx: &mut flume::Receiver<JobEvent>) -> (found: Option<JobEvent>)
    ensures
        event_polls(*final(rx)) == event_polls(*old(rx)).push(found_view(found)),
        forall|tx: flume::Sender<JobEvent>|
            event_channel_ends(tx, *old(rx)) ==> #[trigger] event_channel_ends(tx, *final(rx)),
{
    rx.try_recv().ok()
}

} // verus!
