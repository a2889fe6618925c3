//! What holds of the store across operations.

use vstd::prelude::*;
use mlua::{Lua, RegistryKey};
use crate::channels::{
    event_channel_ends, event_polls, event_sends, found_view, refused_once, same_event_channel,
    stdin_channel_ends, stdin_sends,
};
use crate::events::{JobEvent, JobEventView};
use crate::launch::{connected, exit_code_of, JobIo, Launched, STDIN_ROOM};
use crate::registry::registry_removal_outcome;
use crate::store::{
    drained, job_drained, kill_targets, lemma_refused_push, listed, polled_dry, receiver_drained,
    removal_tried, targets_of, wrote, JobKind, JobMeta, StoreView,
};
use crate::text::decimal;

verus! {

/// The number of a new job has never been given to a job before, is not given out again, and the
/// job can be found under it, as alive as it was made.
pub proof fn law_fresh_number(store: StoreView, meta: JobMeta)
    requires
        store.wf(),
        store.next_id < u32::MAX,
    ensures
        !store.jobs.contains_key(store.next_id),
        store.started(meta).wf(),
        store.started(meta).next_id == store.next_id + 1,
        store.started(meta).jobs.contains_key(store.next_id),
        store.started(meta).jobs[store.next_id] == meta,
        store.started(meta).is_alive(store.next_id) == meta.alive,
        forall|id: u32| #[trigger]
            store.jobs.contains_key(id) ==> store.started(meta).jobs.contains_key(id)
                && store.started(meta).jobs[id] == store.jobs[id],
{
}

/// A new job is joined to its process: its receiver is the other end of the sender that the threads
/// around the process report on, and a write goes into the channel that feeds standard input
/// exactly if standard input was asked for.  Nothing has gone through either.
pub proof fn law_new_job_is_connected(
    store: StoreView,
    launched: Launched,
    io: JobIo,
    use_stdin: bool,
    meta: JobMeta,
)
    requires
        connected(launched, io, use_stdin),
        meta.event_rx == Some(launched.event_rx),
        meta.stdin_tx == launched.stdin_tx,
    ensures
        ({
            let after = store.started(meta);
            let id = store.next_id;
            &&& after.receiver(id) matches Some(rx) && event_channel_ends(io.event_tx, rx)
                && event_polls(rx).len() == 0
            &&& after.write_refusal(id) is None <==> use_stdin
            &&& use_stdin ==> io.stdin_rx is Some && stdin_channel_ends(
                after.jobs[id].stdin_tx->0,
                io.stdin_rx->0,
                STDIN_ROOM,
            ) && stdin_sends(after.jobs[id].stdin_tx->0).len() == 0
            &&& after.input_over(id) <==> !use_stdin
        }),
{
}

/// A start that fails after the process was spawned uses up a number and changes nothing else.
pub proof fn law_failed_start(store: StoreView)
    requires
        store.wf(),
        store.next_id < u32::MAX,
    ensures
        store.skipped().wf(),
        store.skipped().jobs == store.jobs,
        store.skipped().next_id == store.next_id + 1,
{
    assert forall|id: u32| #[trigger] store.skipped().jobs.contains_key(id) implies 1 <= id
        < store.skipped().next_id by {
        assert(store.jobs.contains_key(id));
    }
}

/// Only a new job moves the numbers on: no other operation makes an old number free again.
pub proof fn law_numbers_stay_used(store: StoreView, id: u32)
    ensures
        store.mark_dead(id).next_id == store.next_id,
        store.close_stdin(id).next_id == store.next_id,
        store.take_receiver(id).next_id == store.next_id,
        store.kill(id).next_id == store.next_id,
        store.kill_all().next_id == store.next_id,
        store.clear().next_id == store.next_id,
{
}

/// Marking a job dead makes it not alive, for good, and leaves every other job alone.
pub proof fn law_mark_dead(store: StoreView, id: u32)
    ensures
        !store.mark_dead(id).is_alive(id),
        store.mark_dead(id).mark_dead(id) == store.mark_dead(id),
        forall|other: u32| other != id ==> #[trigger] store.mark_dead(id).is_alive(other)
            == store.is_alive(other),
{
    assert(store.mark_dead(id).mark_dead(id) =~= store.mark_dead(id));
}

/// Operations on a number that the store does not know change nothing.
pub proof fn law_unknown_job_is_ignored(store: StoreView, id: u32)
    requires
        !store.jobs.contains_key(id),
    ensures
        store.mark_dead(id) == store,
        store.close_stdin(id) == store,
        store.take_receiver(id) == store,
        store.kill(id) == store,
        store.receiver(id) is None,
        !store.is_alive(id),
{
}

/// Killing a dead job changes nothing.
pub proof fn law_dead_job_is_not_killed(store: StoreView, id: u32)
    requires
        !store.is_alive(id),
    ensures
        store.kill(id) == store,
{
    assert(store.kill(id) =~= store);
}

/// A kill closes standard input and decides nothing about whether the job is alive; a second kill
/// adds nothing.
pub proof fn law_kill(store: StoreView, id: u32)
    ensures
        store.is_alive(id) ==> store.kill(id) == store.close_stdin(id),
        forall|other: u32| #[trigger] store.kill(id).is_alive(other) == store.is_alive(other),
        store.kill(id).kill(id) == store.kill(id),
{
    assert(store.kill(id).kill(id) =~= store.kill(id));
}

/// A write to a job that was killed while alive is refused, because the job takes no input any
/// more.
pub proof fn law_write_after_kill(store: StoreView, id: u32)
    requires
        store.is_alive(id),
    ensures
        store.kill(id).write_refusal(id) == Some(
            "job "@ + decimal(id as nat) + " does not accept stdin"@,
        ),
        store.kill_all().write_refusal(id) == Some(
            "job "@ + decimal(id as nat) + " does not accept stdin"@,
        ),
{
}

/// A write to a job whose standard input was closed is refused, because the job takes no input any
/// more; a job that the store does not know is still not found.
pub proof fn law_write_after_close(store: StoreView, id: u32)
    ensures
        store.jobs.contains_key(id) ==> store.close_stdin(id).write_refusal(id) == Some(
            "job "@ + decimal(id as nat) + " does not accept stdin"@,
        ),
        !store.jobs.contains_key(id) ==> store.close_stdin(id).write_refusal(id) == Some(
            "job "@ + decimal(id as nat) + " not found"@,
        ),
{
}

/// Killing all jobs does to each job what killing it alone does, and to nothing else.
pub proof fn law_kill_all(store: StoreView, id: u32)
    ensures
        store.kill_all().jobs.dom() == store.jobs.dom(),
        store.jobs.contains_key(id) ==> store.kill_all().jobs[id] == store.kill(id).jobs[id],
        store.kill_all().kill_all() == store.kill_all(),
        store.kill(id).kill_all() == store.kill_all(),
        store.kill_all().is_alive(id) == store.is_alive(id),
{
    assert(store.kill_all().jobs.dom() =~= store.jobs.dom());
    assert(store.kill_all().kill_all().jobs =~= store.kill_all().jobs);
    assert(store.kill(id).kill_all().jobs =~= store.kill_all().jobs);
}

/// The kill signal goes to nobody if and only if no job is alive, and to the process of every job
/// that is.
pub proof fn law_kill_targets(store: StoreView, pids: Seq<u32>)
    requires
        kill_targets(store, pids),
    ensures
        pids.len() == 0 <==> forall|id: u32| !(#[trigger] store.is_alive(id)),
        forall|id: u32| #[trigger]
            store.is_alive(id) ==> pids.contains(store.jobs[id].pid()),
        forall|pid: u32| #[trigger]
            pids.contains(pid) ==> exists|id: u32| #[trigger]
                store.is_alive(id) && store.jobs[id].pid() == pid,
{
    let ids = choose|ids: Seq<u32>| #[trigger] targets_of(store, ids, pids);
    assert forall|id: u32| #[trigger] store.is_alive(id) implies pids.contains(
        store.jobs[id].pid(),
    ) by {
        assert(ids.contains(id));
        let i = choose|i: int| 0 <= i < ids.len() && ids[i] == id;
        assert(pids[i] == store.jobs[id].pid());
    }
    assert forall|pid: u32| #[trigger] pids.contains(pid) implies exists|id: u32| #[trigger]
        store.is_alive(id) && store.jobs[id].pid() == pid by {
        let i = choose|i: int| 0 <= i < pids.len() && pids[i] == pid;
        assert(ids.contains(ids[i]));
        assert(store.is_alive(ids[i]));
    }
    if pids.len() > 0 {
        assert(pids.contains(pids[0]));
    }
}

/// A receiver can be taken once: afterwards the job has none, and every other job keeps its own.
pub proof fn law_receiver_is_taken_once(store: StoreView, id: u32)
    ensures
        store.take_receiver(id).receiver(id) is None,
        store.take_receiver(id).take_receiver(id) == store.take_receiver(id),
        forall|other: u32| other != id ==> #[trigger] store.take_receiver(id).receiver(other)
            == store.receiver(other),
{
    assert(store.take_receiver(id).take_receiver(id) =~= store.take_receiver(id));
}

/// Draining lists no event of a job whose receiver was taken, nor of a job that the store does not
/// know.
pub proof fn law_no_drain_after_take(
    store: StoreView,
    id: u32,
    out: Seq<(u32, JobEvent)>,
    after: StoreView,
)
    requires
        drained(store.take_receiver(id), out, after),
    ensures
        forall|i: int| 0 <= i < out.len() ==> (#[trigger] out[i]).0 != id,
        forall|i: int| 0 <= i < out.len() ==> store.jobs.contains_key((#[trigger] out[i]).0),
{
    let taken_from = store.take_receiver(id);
    assert forall|i: int| 0 <= i < out.len() implies (#[trigger] out[i]).0 != id
        && store.jobs.contains_key(out[i].0) by {
        assert(taken_from.jobs.contains_key(out[i].0));
        if out[i].0 == id {
            lemma_listed_some(out, i);
        }
    }
}

/// Draining a store in which no job has a receiver lists nothing and changes nothing.
pub proof fn law_drain_without_receivers(
    store: StoreView,
    out: Seq<(u32, JobEvent)>,
    after: StoreView,
)
    requires
        drained(store, out, after),
        forall|id: u32| (#[trigger] store.receiver(id)) is None,
    ensures
        out.len() == 0,
        after == store,
{
    if out.len() > 0 {
        assert(store.jobs.contains_key(out[0].0));
        assert(store.receiver(out[0].0) is None);
        lemma_listed_some(out, 0);
    }
    assert forall|id: u32| #[trigger] store.jobs.contains_key(id) implies after.jobs[id]
        == store.jobs[id] by {
        assert(store.receiver(id) is None);
    }
    assert(after.jobs =~= store.jobs);
}

proof fn lemma_listed_some(out: Seq<(u32, JobEvent)>, i: int)
    requires
        0 <= i < out.len(),
    ensures
        listed(out, out[i].0).len() > 0,
    decreases out.len(),
{
    if i < out.len() - 1 {
        assert(out.drop_last()[i] == out[i]);
        lemma_listed_some(out.drop_last(), i);
    }
}

/// The events that the polls of a history have found, in order.
pub open spec fn taken(polls: Seq<Option<JobEventView>>) -> Seq<JobEventView>
    decreases polls.len(),
{
    if polls.len() == 0 {
        Seq::empty()
    } else {
        let before = taken(polls.drop_last());
        match polls.last() {
            Some(event) => before.push(event),
            None => before,
        }
    }
}

proof fn lemma_taken_of_concatenation(a: Seq<Option<JobEventView>>, b: Seq<Option<JobEventView>>)
    ensures
        taken(a + b) == taken(a) + taken(b),
    decreases b.len(),
{
    if b.len() == 0 {
        assert(a + b =~= a);
        assert(taken(a) + taken(b) =~= taken(a));
    } else {
        lemma_taken_of_concatenation(a, b.drop_last());
        assert((a + b).drop_last() =~= a + b.drop_last());
        assert(taken(a + b) =~= taken(a) + taken(b));
    }
}

proof fn lemma_taken_of_dry(events: Seq<JobEventView>)
    ensures
        taken(events.map_values(|event: JobEventView| Some(event))) == events,
        taken(polled_dry(events)) == events,
    decreases events.len(),
{
    let found = events.map_values(|event: JobEventView| Some(event));
    if events.len() > 0 {
        lemma_taken_of_dry(events.drop_last());
        assert(found.drop_last() =~= events.drop_last().map_values(
            |event: JobEventView| Some(event),
        ));
        assert(taken(found) =~= events);
    } else {
        assert(taken(found) =~= events);
    }
    assert(polled_dry(events).drop_last() =~= found);
}

/// Whatever draining takes from a receiver it hands over, once and in order: what has come out of
/// the receiver of a job is what had come out before and then what the drain lists for the job.
pub proof fn law_drain_hands_over_what_it_takes(
    before: StoreView,
    out: Seq<(u32, JobEvent)>,
    after: StoreView,
    id: u32,
)
    requires
        drained(before, out, after),
        before.receiver(id) is Some,
    ensures
        after.receiver(id) is Some,
        taken(event_polls(after.receiver(id)->0)) == taken(event_polls(before.receiver(id)->0))
            + listed(out, id),
{
    assert(before.jobs.contains_key(id));
    assert(after.jobs.dom().contains(id));
    lemma_taken_of_concatenation(
        event_polls(before.receiver(id)->0),
        polled_dry(listed(out, id)),
    );
    lemma_taken_of_dry(listed(out, id));
}

/// What several drains list for job `id`, one drain after the other.
pub open spec fn listed_over(outs: Seq<Seq<(u32, JobEvent)>>, id: u32) -> Seq<JobEventView>
    decreases outs.len(),
{
    if outs.len() == 0 {
        Seq::empty()
    } else {
        listed_over(outs.drop_last(), id) + listed(outs.last(), id)
    }
}

/// Over any number of drains, between which the receiver of the job was left alone, nothing is
/// lost, repeated or put in another order: what has come out of the receiver since the first of
/// them is what they list for the job, one after the other.
pub proof fn law_drains_lose_nothing(
    befores: Seq<StoreView>,
    outs: Seq<Seq<(u32, JobEvent)>>,
    afters: Seq<StoreView>,
    id: u32,
)
    requires
        outs.len() > 0,
        befores.len() == outs.len(),
        afters.len() == outs.len(),
        forall|i: int|
            0 <= i < outs.len() ==> drained(befores[i], #[trigger] outs[i], afters[i]),
        forall|i: int|
            0 < i < outs.len() ==> (#[trigger] befores[i]).receiver(id) == afters[i - 1].receiver(
                id,
            ),
        befores[0].receiver(id) is Some,
    ensures
        afters.last().receiver(id) is Some,
        taken(event_polls(afters.last().receiver(id)->0)) == taken(
            event_polls(befores[0].receiver(id)->0),
        ) + listed_over(outs, id),
    decreases outs.len(),
{
    let last = outs.len() - 1;
    assert(drained(befores[last], outs[last], afters[last]));
    if outs.len() == 1 {
        law_drain_hands_over_what_it_takes(befores[0], outs[0], afters[0], id);
        assert(listed_over(outs.drop_last(), id) =~= Seq::empty());
        assert(listed_over(outs, id) =~= listed(outs[0], id));
    } else {
        let fewer = outs.drop_last();
        assert forall|i: int| 0 <= i < fewer.len() implies drained(
            befores.drop_last()[i],
            #[trigger] fewer[i],
            afters.drop_last()[i],
        ) by {
            assert(fewer[i] == outs[i]);
        }
        assert forall|i: int| 0 < i < fewer.len() implies (
        #[trigger] befores.drop_last()[i]).receiver(id) == afters.drop_last()[i - 1].receiver(
            id,
        ) by {
            assert(befores.drop_last()[i] == befores[i]);
        }
        law_drains_lose_nothing(befores.drop_last(), fewer, afters.drop_last(), id);
        assert(befores[last].receiver(id) == afters[last - 1].receiver(id));
        law_drain_hands_over_what_it_takes(befores[last], outs[last], afters[last], id);
        assert(taken(event_polls(afters.last().receiver(id)->0)) =~= taken(
            event_polls(befores[0].receiver(id)->0),
        ) + listed_over(outs, id));
    }
}

/// Only draining and taking touch a receiver.
pub proof fn law_receivers_are_left_alone(store: StoreView, id: u32, other: u32)
    ensures
        store.mark_dead(other).receiver(id) == store.receiver(id),
        store.close_stdin(other).receiver(id) == store.receiver(id),
        store.kill(other).receiver(id) == store.receiver(id),
        store.kill_all().receiver(id) == store.receiver(id),
        forall|text: Seq<char>, accepted: bool, after: StoreView| #[trigger]
            wrote(store, other, text, accepted, after) ==> after.receiver(id) == store.receiver(id),
{
}

/// Draining leaves everything but the receivers as it was.
pub proof fn law_drain_changes_receivers_only(
    before: StoreView,
    out: Seq<(u32, JobEvent)>,
    after: StoreView,
    id: u32,
)
    requires
        drained(before, out, after),
    ensures
        after.next_id == before.next_id,
        after.jobs.contains_key(id) == before.jobs.contains_key(id),
        after.is_alive(id) == before.is_alive(id),
        after.write_refusal(id) == before.write_refusal(id),
        before.jobs.contains_key(id) ==> after.take_receiver(id).jobs[id] == before.take_receiver(
            id,
        ).jobs[id],
{
    assert(after.jobs.dom().contains(id) == before.jobs.dom().contains(id));
}

/// How a job may differ later: it keeps its process and its callbacks, does not come back to
/// life, gets back neither a receiver nor a standard input that it has lost, and the history of
/// those that it keeps only grows.
pub open spec fn job_later(before: JobMeta, after: JobMeta) -> bool {
    &&& after.kind == before.kind
    &&& after.on_stdout == before.on_stdout
    &&& after.on_stderr == before.on_stderr
    &&& after.on_stdout_chunk == before.on_stdout_chunk
    &&& after.on_stderr_chunk == before.on_stderr_chunk
    &&& after.on_exit == before.on_exit
    &&& after.alive ==> before.alive
    &&& match (before.event_rx, after.event_rx) {
        (_, None) => true,
        (Some(old_rx), Some(rx)) => grown(event_polls(old_rx), event_polls(rx)),
        _ => false,
    }
    &&& match (before.stdin_tx, after.stdin_tx) {
        (_, None) => true,
        (Some(old_tx), Some(tx)) => grown(stdin_sends(old_tx), stdin_sends(tx)),
        _ => false,
    }
}

/// `after` is `before` with nothing or something added at its end.
pub open spec fn grown<T>(before: Seq<T>, after: Seq<T>) -> bool {
    &&& before.len() <= after.len()
    &&& forall|i: int| 0 <= i < before.len() ==> #[trigger] after[i] == before[i]
}

/// How a store may differ later: numbers only go up, and a number that it gave out before stands
/// for the same job, unless the store has been cleared since.
pub open spec fn store_later(before: StoreView, after: StoreView) -> bool {
    &&& before.next_id <= after.next_id
    &&& forall|id: u32| #[trigger]
        after.jobs.contains_key(id) && id < before.next_id ==> before.jobs.contains_key(id)
            && job_later(before.jobs[id], after.jobs[id])
}

/// Every operation takes a store to a later one.
pub proof fn law_operations_go_forward(store: StoreView, id: u32, meta: JobMeta)
    ensures
        store.next_id < u32::MAX ==> store_later(store, store.started(meta)),
        store.next_id < u32::MAX ==> store_later(store, store.skipped()),
        store_later(store, store.mark_dead(id)),
        store_later(store, store.close_stdin(id)),
        store_later(store, store.take_receiver(id)),
        store_later(store, store.kill(id)),
        store_later(store, store.kill_all()),
        store_later(store, store.clear()),
{
    assert forall|k: u32| #[trigger]
        store.kill_all().jobs.contains_key(k) && k < store.next_id implies store.jobs.contains_key(
        k,
    ) && job_later(store.jobs[k], store.kill_all().jobs[k]) by {
        assert(store.jobs.contains_key(k));
    }
}

/// A write and a drain take a store to a later one, too.
pub proof fn law_write_and_drain_go_forward(
    store: StoreView,
    id: u32,
    text: Seq<char>,
    accepted: bool,
    out: Seq<(u32, JobEvent)>,
    after: StoreView,
)
    requires
        wrote(store, id, text, accepted, after) || drained(store, out, after),
    ensures
        store_later(store, after),
{
    assert forall|k: u32| #[trigger] after.jobs.contains_key(k) && k < store.next_id implies
        store.jobs.contains_key(k) && job_later(store.jobs[k], after.jobs[k]) by {
        if drained(store, out, after) {
            assert(store.jobs.dom().contains(k));
        }
    }
}

/// Later than later is later.
pub proof fn law_later_is_transitive(a: StoreView, b: StoreView, c: StoreView)
    requires
        store_later(a, b),
        store_later(b, c),
    ensures
        store_later(a, c),
{
    assert forall|id: u32| #[trigger] c.jobs.contains_key(id) && id < a.next_id implies
        a.jobs.contains_key(id) && job_later(a.jobs[id], c.jobs[id]) by {
        assert(b.jobs.contains_key(id));
    }
}

/// What is lost stays lost: a number that was given out and whose job is dead, has no receiver or
/// gets no input any more is never again a job that is alive, has one or gets some.
pub proof fn law_lost_for_good(before: StoreView, after: StoreView, id: u32)
    requires
        store_later(before, after),
        id < before.next_id,
    ensures
        !before.is_alive(id) ==> !after.is_alive(id),
        before.receiver(id) is None ==> after.receiver(id) is None,
        before.write_refusal(id) is Some ==> after.write_refusal(id) is Some,
        before.input_over(id) ==> after.input_over(id),
{
    if after.jobs.contains_key(id) {
        assert(before.jobs.contains_key(id));
        if before.input_over(id) && after.jobs[id].stdin_tx is Some {
            let sends = stdin_sends(before.jobs[id].stdin_tx->0);
            let i = choose|i: int| 0 <= i < sends.len() && !(#[trigger] sends[i]).1;
            assert(stdin_sends(after.jobs[id].stdin_tx->0)[i] == sends[i]);
        }
    }
}

/// No text reaches a job any more after its standard input was closed, after it was killed while
/// alive, after a write to it was refused by the channel, or after the store was cleared.
pub proof fn law_input_ends(store: StoreView, id: u32)
    ensures
        store.close_stdin(id).input_over(id),
        store.is_alive(id) ==> store.kill(id).input_over(id),
        store.is_alive(id) ==> store.kill_all().input_over(id),
        store.clear().input_over(id),
        forall|text: Seq<char>, after: StoreView| #[trigger]
            wrote(store, id, text, false, after) ==> after.input_over(id),
{
    assert forall|text: Seq<char>, after: StoreView| #[trigger]
        wrote(store, id, text, false, after) implies after.input_over(id) by {
        let sends = stdin_sends(after.jobs[id].stdin_tx->0);
        assert(!sends[sends.len() - 1].1);
    }
}

/// A cleared store knows no job.
pub proof fn law_clear(store: StoreView, id: u32)
    ensures
        !store.clear().jobs.contains_key(id),
        !store.clear().is_alive(id),
        store.clear().receiver(id) is None,
        store.clear().write_refusal(id) == Some("job "@ + decimal(id as nat) + " not found"@),
{
}

/// Which callback is called rests on the kind of the event alone, whatever its text or code.
pub proof fn law_callback_by_kind(meta: JobMeta, text: String, code: i32)
    ensures
        meta.callback(JobEvent::Stdout(text)) == meta.on_stdout,
        meta.callback(JobEvent::Stderr(text)) == meta.on_stderr,
        meta.callback(JobEvent::StdoutChunk(text)) == meta.on_stdout_chunk,
        meta.callback(JobEvent::StderrChunk(text)) == meta.on_stderr_chunk,
        meta.callback(JobEvent::Exit(code)) == meta.on_exit,
{
}

/// Two events of one kind have the same callback.
pub proof fn law_same_kind_same_callback(meta: JobMeta, a: JobEvent, b: JobEvent)
    requires
        a is Stdout <==> b is Stdout,
        a is Stderr <==> b is Stderr,
        a is StdoutChunk <==> b is StdoutChunk,
        a is StderrChunk <==> b is StderrChunk,
    ensures
        meta.callback(a) == meta.callback(b),
{
}

/// The callbacks that a job holds are those that some event calls, and a removal that was tried has
/// an outcome.
pub proof fn law_callbacks_are_held(
    meta: JobMeta,
    event: JobEvent,
    lua: Lua,
    key: RegistryKey,
)
    ensures
        meta.callback(event) == Some(key) ==> meta.holds_key(key),
        meta.on_stdout == Some(key) ==> meta.holds_key(key),
        meta.on_stderr == Some(key) ==> meta.holds_key(key),
        meta.on_stdout_chunk == Some(key) ==> meta.holds_key(key),
        meta.on_stderr_chunk == Some(key) ==> meta.holds_key(key),
        meta.on_exit == Some(key) ==> meta.holds_key(key),
        removal_tried(lua, key) ==> registry_removal_outcome(lua, key, true)
            || registry_removal_outcome(lua, key, false),
{
    if removal_tried(lua, key) {
        let removed = choose|removed: bool| #[trigger] registry_removal_outcome(lua, key, removed);
        assert(registry_removal_outcome(lua, key, removed));
    }
}

/// `after` is `before` but for job `id`, and knows the same numbers.
pub open spec fn only_job_differs(before: StoreView, after: StoreView, id: u32) -> bool {
    &&& after.next_id == before.next_id
    &&& forall|other: u32| #[trigger]
        after.jobs.contains_key(other) <==> before.jobs.contains_key(other)
    &&& forall|other: u32|
        other != id && before.jobs.contains_key(other) ==> #[trigger] after.jobs[other]
            == before.jobs[other]
}

/// Reporting a job dead clears its life sign and nothing else, of this job or of another.
pub proof fn law_mark_dead_changes_life_only(store: StoreView, id: u32)
    requires
        store.jobs.contains_key(id),
    ensures
        only_job_differs(store, store.mark_dead(id), id),
        ({
            let job = store.jobs[id];
            store.mark_dead(id).jobs[id] == (JobMeta {
                kind: job.kind,
                alive: false,
                on_stdout: job.on_stdout,
                on_stderr: job.on_stderr,
                on_stdout_chunk: job.on_stdout_chunk,
                on_stderr_chunk: job.on_stderr_chunk,
                on_exit: job.on_exit,
                event_rx: job.event_rx,
                stdin_tx: job.stdin_tx,
            })
        }),
{
}

/// Closing standard input drops its sender and nothing else, of this job or of another; a kill does
/// the same to a job that is alive, alone or with all others.
pub proof fn law_close_and_kill_change_input_only(store: StoreView, id: u32)
    requires
        store.jobs.contains_key(id),
    ensures
        only_job_differs(store, store.close_stdin(id), id),
        only_job_differs(store, store.kill(id), id),
        ({
            let job = store.jobs[id];
            let closed = JobMeta {
                kind: job.kind,
                alive: job.alive,
                on_stdout: job.on_stdout,
                on_stderr: job.on_stderr,
                on_stdout_chunk: job.on_stdout_chunk,
                on_stderr_chunk: job.on_stderr_chunk,
                on_exit: job.on_exit,
                event_rx: job.event_rx,
                stdin_tx: None,
            };
            &&& store.close_stdin(id).jobs[id] == closed
            &&& job.alive ==> store.kill(id).jobs[id] == closed
            &&& job.alive ==> store.kill_all().jobs[id] == closed
            &&& job.without_stdin() == closed
            &&& !job.alive ==> store.kill(id).jobs[id] == job
            &&& !job.alive ==> store.kill_all().jobs[id] == job
        }),
{
}

/// Taking a receiver hands out the one that the job had and drops it from the job, and nothing else
/// of this job or of another.
pub proof fn law_take_changes_receiver_only(store: StoreView, id: u32)
    requires
        store.jobs.contains_key(id),
    ensures
        only_job_differs(store, store.take_receiver(id), id),
        store.receiver(id) == store.jobs[id].event_rx,
        ({
            let job = store.jobs[id];
            store.take_receiver(id).jobs[id] == (JobMeta {
                kind: job.kind,
                alive: job.alive,
                on_stdout: job.on_stdout,
                on_stderr: job.on_stderr,
                on_stdout_chunk: job.on_stdout_chunk,
                on_stderr_chunk: job.on_stderr_chunk,
                on_exit: job.on_exit,
                event_rx: None,
                stdin_tx: job.stdin_tx,
            })
        }),
{
}

/// Whether a job is alive, where its process is, and whether it can be written to, read off what the
/// store knows of it.
pub proof fn law_state_of_a_job(store: StoreView, id: u32)
    ensures
        store.is_alive(id) <==> store.jobs.contains_key(id) && store.jobs[id].alive,
        store.jobs[id].kind == (JobKind::Process { pid: store.jobs[id].pid() }),
        store.write_refusal(id) is None <==> store.jobs.contains_key(id)
            && store.jobs[id].stdin_tx is Some,
        !store.jobs.contains_key(id) ==> store.write_refusal(id) == Some(
            "job "@ + decimal(id as nat) + " not found"@,
        ),
        store.jobs.contains_key(id) && store.jobs[id].stdin_tx is None ==> store.write_refusal(id)
            == Some("job "@ + decimal(id as nat) + " does not accept stdin"@),
        store.write_refusal(id) is Some ==> store.input_over(id),
        store.write_refusal(id) is None ==> (store.input_over(id) <==> exists|i: int|
            0 <= i < stdin_sends(store.jobs[id].stdin_tx->0).len() && !(#[trigger] stdin_sends(
                store.jobs[id].stdin_tx->0,
            )[i]).1),
{
}

/// A history remembers a refusal, and only a refusal counts as one.
pub proof fn law_refusals(sends: Seq<(Seq<char>, bool)>, text: Seq<char>)
    ensures
        !refused_once(Seq::<(Seq<char>, bool)>::empty()),
        refused_once(sends.push((text, false))),
        refused_once(sends.push((text, true))) == refused_once(sends),
{
    lemma_refused_push(sends, (text, false));
    lemma_refused_push(sends, (text, true));
}

/// A write hands exactly the caller's text to the sender of the job, once, and changes nothing else
/// of this job or of another.
pub proof fn law_write_hands_over_the_text(
    before: StoreView,
    id: u32,
    text: Seq<char>,
    accepted: bool,
    after: StoreView,
)
    requires
        wrote(before, id, text, accepted, after),
    ensures
        before.jobs.contains_key(id),
        before.jobs[id].stdin_tx is Some,
        after.jobs[id].stdin_tx is Some,
        stdin_sends(after.jobs[id].stdin_tx->0) == stdin_sends(before.jobs[id].stdin_tx->0).push(
            (text, accepted),
        ),
        forall|rx: flume::Receiver<String>, room: usize|
            stdin_channel_ends(before.jobs[id].stdin_tx->0, rx, room)
                ==> #[trigger] stdin_channel_ends(after.jobs[id].stdin_tx->0, rx, room),
        only_job_differs(before, after, id),
        ({
            let job = before.jobs[id];
            after.jobs[id] == (JobMeta {
                kind: job.kind,
                alive: job.alive,
                on_stdout: job.on_stdout,
                on_stderr: job.on_stderr,
                on_stdout_chunk: job.on_stdout_chunk,
                on_stderr_chunk: job.on_stderr_chunk,
                on_exit: job.on_exit,
                event_rx: job.event_rx,
                stdin_tx: after.jobs[id].stdin_tx,
            })
        }),
{
}

/// Over any number of writes to one job, between which its sender was left alone, the sender's
/// history grows by one entry for each: the texts that were written, one by one, unchanged and in
/// order, each with what became of it.
pub proof fn law_writes_arrive_in_order(
    befores: Seq<StoreView>,
    texts: Seq<Seq<char>>,
    accepted: Seq<bool>,
    afters: Seq<StoreView>,
    id: u32,
)
    requires
        texts.len() > 0,
        befores.len() == texts.len(),
        accepted.len() == texts.len(),
        afters.len() == texts.len(),
        forall|i: int|
            0 <= i < texts.len() ==> wrote(
                befores[i],
                id,
                #[trigger] texts[i],
                accepted[i],
                afters[i],
            ),
        forall|i: int|
            0 < i < texts.len() ==> (#[trigger] befores[i]).jobs[id].stdin_tx == afters[i
                - 1].jobs[id].stdin_tx,
    ensures
        stdin_sends(afters.last().jobs[id].stdin_tx->0) == stdin_sends(
            befores[0].jobs[id].stdin_tx->0,
        ) + Seq::new(texts.len(), |i: int| (texts[i], accepted[i])),
    decreases texts.len(),
{
    let last = texts.len() - 1;
    assert(wrote(befores[last], id, texts[last], accepted[last], afters[last]));
    let first = stdin_sends(befores[0].jobs[id].stdin_tx->0);
    let whole = first + Seq::new(texts.len(), |i: int| (texts[i], accepted[i]));
    if last > 0 {
        let fewer = texts.drop_last();
        let early = accepted.drop_last();
        assert forall|i: int| 0 <= i < fewer.len() implies wrote(
            befores.drop_last()[i],
            id,
            #[trigger] fewer[i],
            early[i],
            afters.drop_last()[i],
        ) by {
            assert(fewer[i] == texts[i]);
        }
        assert forall|i: int| 0 < i < fewer.len() implies (
        #[trigger] befores.drop_last()[i]).jobs[id].stdin_tx == afters.drop_last()[i
            - 1].jobs[id].stdin_tx by {
            assert(befores.drop_last()[i] == befores[i]);
        }
        law_writes_arrive_in_order(befores.drop_last(), fewer, early, afters.drop_last(), id);
        assert(befores[last].jobs[id].stdin_tx == afters[last - 1].jobs[id].stdin_tx);
        assert(whole =~= (first + Seq::new(fewer.len(), |i: int| (fewer[i], early[i]))).push(
            (texts[last], accepted[last]),
        ));
    } else {
        assert(whole =~= first.push((texts[0], accepted[0])));
    }
}

/// The texts of a history that were accepted, in order.
pub open spec fn accepted_texts(sends: Seq<(Seq<char>, bool)>) -> Seq<Seq<char>>
    decreases sends.len(),
{
    if sends.len() == 0 {
        Seq::empty()
    } else {
        let before = accepted_texts(sends.drop_last());
        if sends.last().1 {
            before.push(sends.last().0)
        } else {
            before
        }
    }
}

/// A write that succeeds adds its text, unchanged, to the texts that a job was given; one that fails
/// adds nothing.
pub proof fn law_accepted_texts(
    before: StoreView,
    id: u32,
    text: Seq<char>,
    accepted: bool,
    after: StoreView,
)
    requires
        wrote(before, id, text, accepted, after),
    ensures
        accepted_texts(stdin_sends(after.jobs[id].stdin_tx->0)) == (if accepted {
            accepted_texts(stdin_sends(before.jobs[id].stdin_tx->0)).push(text)
        } else {
            accepted_texts(stdin_sends(before.jobs[id].stdin_tx->0))
        }),
{
    let sends = stdin_sends(before.jobs[id].stdin_tx->0);
    assert(sends.push((text, accepted)).drop_last() =~= sends);
}

/// What a list of numbered events lists under a number, entry by entry.
pub proof fn law_listed(out: Seq<(u32, JobEvent)>, id: u32, other: u32, event: JobEvent)
    ensures
        listed(Seq::empty(), id) == Seq::<JobEventView>::empty(),
        listed(out.push((id, event)), id) == listed(out, id).push(event@),
        other != id ==> listed(out.push((other, event)), id) == listed(out, id),
{
    assert(out.push((id, event)).drop_last() =~= out);
    assert(out.push((other, event)).drop_last() =~= out);
}

/// A receiver is drained until a poll finds nothing: each event that is listed was found by one poll,
/// in order, and one poll more, the last, found nothing.
pub proof fn law_drained_to_the_end(
    before: flume::Receiver<JobEvent>,
    events: Seq<JobEventView>,
    after: flume::Receiver<JobEvent>,
    i: int,
)
    requires
        receiver_drained(before, events, after),
    ensures
        event_polls(before).is_prefix_of(event_polls(after)),
        event_polls(after).len() == event_polls(before).len() + events.len() + 1,
        0 <= i < events.len() ==> event_polls(after)[event_polls(before).len() + i] == Some(
            events[i],
        ),
        event_polls(after).last() is None,
        polled_dry(events).len() == events.len() + 1,
        forall|tx: flume::Sender<JobEvent>|
            event_channel_ends(tx, before) ==> #[trigger] event_channel_ends(tx, after),
{
}

/// A drain empties every receiver that the store still has, lists nothing else, keeps the entries of
/// one job side by side, and changes nothing of a job but the state of its receiver.
pub proof fn law_drain_reaches_every_receiver(
    before: StoreView,
    out: Seq<(u32, JobEvent)>,
    after: StoreView,
    id: u32,
)
    requires
        drained(before, out, after),
        before.jobs.contains_key(id),
    ensures
        after.jobs.contains_key(id),
        after.next_id == before.next_id,
        before.jobs[id].event_rx is None ==> listed(out, id).len() == 0,
        before.jobs[id].event_rx is Some <==> after.jobs[id].event_rx is Some,
        before.jobs[id].event_rx is Some ==> {
            let old_polls = event_polls(before.jobs[id].event_rx->0);
            let polls = event_polls(after.jobs[id].event_rx->0);
            &&& polls.len() == old_polls.len() + listed(out, id).len() + 1
            &&& old_polls.is_prefix_of(polls)
            &&& polls.last() is None
            &&& forall|i: int|
                0 <= i < listed(out, id).len() ==> polls[old_polls.len() + i] == Some(
                    #[trigger] listed(out, id)[i],
                )
        },
        ({
            let job = before.jobs[id];
            after.jobs[id] == (JobMeta {
                kind: job.kind,
                alive: job.alive,
                on_stdout: job.on_stdout,
                on_stderr: job.on_stderr,
                on_stdout_chunk: job.on_stdout_chunk,
                on_stderr_chunk: job.on_stderr_chunk,
                on_exit: job.on_exit,
                event_rx: after.jobs[id].event_rx,
                stdin_tx: job.stdin_tx,
            })
        }),
        forall|i: int| 0 <= i < out.len() ==> before.jobs.contains_key((#[trigger] out[i]).0),
        forall|i: int, j: int, k: int|
            0 <= i <= j <= k < out.len() && (#[trigger] out[i]).0 == (#[trigger] out[k]).0 ==> (
            #[trigger] out[j]).0 == out[i].0,
{
    assert(after.jobs.dom().contains(id));
    assert(job_drained(before.jobs[id], listed(out, id), after.jobs[id]));
}

/// Killing all jobs signals each job that is alive exactly once, and its own process.
pub proof fn law_one_signal_for_each_job(store: StoreView, pids: Seq<u32>)
    requires
        kill_targets(store, pids),
    ensures
        exists|ids: Seq<u32>|
            {
                &&& #[trigger] ids.no_duplicates()
                &&& ids.len() == pids.len()
                &&& forall|id: u32| #[trigger]
                    ids.contains(id) <==> store.jobs.contains_key(id) && store.jobs[id].alive
                &&& forall|i: int|
                    0 <= i < pids.len() ==> store.jobs[#[trigger] ids[i]].kind == (
                    JobKind::Process { pid: pids[i] })
            },
{
    let ids = choose|ids: Seq<u32>| #[trigger] targets_of(store, ids, pids);
    assert(ids.no_duplicates());
    assert forall|id: u32| #[trigger] ids.contains(id) <==> store.jobs.contains_key(id)
        && store.jobs[id].alive by {
        assert(ids.contains(id) <==> store.is_alive(id));
    }
}

/// The channels of a process that was just opened are unused and belong together, and standard input
/// has one exactly if it was asked for.
pub proof fn law_opened_channels(launched: Launched, io: JobIo, use_stdin: bool)
    requires
        connected(launched, io, use_stdin),
    ensures
        event_channel_ends(io.event_tx, launched.event_rx),
        event_sends(io.event_tx) == Seq::<(JobEventView, bool)>::empty(),
        event_polls(launched.event_rx) == Seq::<Option<JobEventView>>::empty(),
        launched.stdin_tx is Some <==> use_stdin,
        io.stdin_rx is Some <==> use_stdin,
        use_stdin ==> stdin_channel_ends(launched.stdin_tx->0, io.stdin_rx->0, 64),
        use_stdin ==> stdin_sends(launched.stdin_tx->0) == Seq::<(Seq<char>, bool)>::empty(),
{
}

/// A sender that was used is still an end of its channel, and what a poll finds is the value of the
/// event, if there is one.
pub proof fn law_ends_stay_joined(
    before: flume::Sender<JobEvent>,
    after: flume::Sender<JobEvent>,
    rx: flume::Receiver<JobEvent>,
    event: JobEvent,
)
    ensures
        same_event_channel(before, after) && event_channel_ends(before, rx) ==> event_channel_ends(
            after,
            rx,
        ),
        found_view(Some(event)) == Some(event@),
        found_view(None) is None,
{
}

/// Every exit code is reported as it is; a process without one is reported with -1.
pub proof fn law_exit_code(code: i32)
    ensures
        exit_code_of(Some(Some(code))) == code,
        exit_code_of(Some(None)) == -1,
        exit_code_of(None) == -1,
{
}

/// A start adds one job, under the next number, and leaves what was known before as it was.
pub proof fn law_start_adds_one_job(store: StoreView, meta: JobMeta, id: u32)
    requires
        store.next_id < u32::MAX,
    ensures
        store.started(meta).jobs.contains_key(id) <==> store.jobs.contains_key(id) || id
            == store.next_id,
        store.started(meta).jobs[store.next_id] == meta,
        id != store.next_id ==> store.started(meta).jobs[id] == store.jobs[id],
        store.started(meta).next_id == store.next_id + 1,
        store.wf() ==> store.next_id >= 1 && (store.jobs.contains_key(id) ==> 1 <= id
            < store.next_id),
{
}

} // verus!
