//! The jobs of one task.

use std::collections::HashMap;
use vstd::prelude::*;
use mlua::{Lua, RegistryKey};
use crate::channels::{
    event_channel_ends, event_polls, poll_event, refused_once, send_stdin, stdin_channel_ends,
    stdin_sends,
};
use crate::events::{JobEvent, JobEventView};
use crate::launch::Launched;
use crate::registry::{registry_removal_outcome, remove_registry_value};
use crate::text::{append_decimal, decimal};

verus! {

/// What stands behind a job.
pub enum JobKind {
    /// A process, which leads a process group of the same number where the system has groups.
    Process { pid: u32 },
}

/// What the store knows of one job.
pub struct JobMeta {
    pub kind: JobKind,
    /// Whether the job has not been reported dead yet.
    pub alive: bool,
    pub on_stdout: Option<RegistryKey>,
    pub on_stderr: Option<RegistryKey>,
    pub on_stdout_chunk: Option<RegistryKey>,
    pub on_stderr_chunk: Option<RegistryKey>,
    pub on_exit: Option<RegistryKey>,
    /// Where the events of the job come in, until somebody takes the receiver.
    pub event_rx: Option<flume::Receiver<JobEvent>>,
    /// Where texts for standard input go, until it is closed.
    pub stdin_tx: Option<flume::Sender<String>>,
}

impl JobMeta {
    /// The number of the job's process.
    pub open spec fn pid(self) -> u32 {
        match self.kind {
            JobKind::Process { pid } => pid,
        }
    }

    /// The job once it has been reported dead.
    pub open spec fn dead(self) -> JobMeta {
        JobMeta { alive: false, ..self }
    }

    /// The job once its standard input has been closed.
    pub open spec fn without_stdin(self) -> JobMeta {
        JobMeta { stdin_tx: None, ..self }
    }

    /// The job once its receiver has been taken.
    pub open spec fn without_receiver(self) -> JobMeta {
        JobMeta { event_rx: None, ..self }
    }

    /// The job with another state of its sender for standard input.
    pub open spec fn with_stdin(self, tx: flume::Sender<String>) -> JobMeta {
        JobMeta { stdin_tx: Some(tx), ..self }
    }

    /// The job with another state of its receiver.
    pub open spec fn with_receiver(self, rx: flume::Receiver<JobEvent>) -> JobMeta {
        JobMeta { event_rx: Some(rx), ..self }
    }

    /// The job after an attempt to kill it: a dead job is left alone.
    pub open spec fn killed(self) -> JobMeta {
        if self.alive {
            self.without_stdin()
        } else {
            self
        }
    }

    /// The callback for `event`.
    pub open spec fn callback(self, event: JobEvent) -> Option<RegistryKey> {
        match event {
            JobEvent::Stdout(_) => self.on_stdout,
            JobEvent::Stderr(_) => self.on_stderr,
            JobEvent::StdoutChunk(_) => self.on_stdout_chunk,
            JobEvent::StderrChunk(_) => self.on_stderr_chunk,
            JobEvent::Exit(_) => self.on_exit,
        }
    }

    /// Whether `key` is one of the job's callbacks.
    pub open spec fn holds_key(self, key: RegistryKey) -> bool {
        ||| self.on_stdout == Some(key)
        ||| self.on_stderr == Some(key)
        ||| self.on_stdout_chunk == Some(key)
        ||| self.on_stderr_chunk == Some(key)
        ||| self.on_exit == Some(key)
    }
}

/// Closes the standard input of a job that is to be killed, and returns the number of the process
/// (and process group) that the kill signal has to go to.
pub fn kill_job(meta: &mut JobMeta) -> (pid: u32)
    ensures
        *final(meta) == old(meta).without_stdin(),
        pid == old(meta).pid(),
{
    meta.stdin_tx = None;
    match meta.kind {
        JobKind::Process { pid } => pid,
    }
}

/// The mathematical value of a [`JobStore`].
#[verifier::ext_equal]
pub struct StoreView {
    pub jobs: Map<u32, JobMeta>,
    pub next_id: u32,
}

impl StoreView {
    /// Numbers are given out upwards from one.
    pub open spec fn wf(self) -> bool {
        &&& 1 <= self.next_id
        &&& forall|id: u32| #[trigger] self.jobs.contains_key(id) ==> 1 <= id < self.next_id
    }

    /// The store with what it knows of job `id` replaced.
    pub open spec fn with_job(self, id: u32, meta: JobMeta) -> StoreView {
        StoreView { jobs: self.jobs.insert(id, meta), next_id: self.next_id }
    }

    /// Whether job `id` is known and not dead.
    pub open spec fn is_alive(self, id: u32) -> bool {
        self.jobs.contains_key(id) && self.jobs[id].alive
    }

    /// The store after [`JobStore::mark_dead`].
    pub open spec fn mark_dead(self, id: u32) -> StoreView {
        if self.jobs.contains_key(id) {
            self.with_job(id, self.jobs[id].dead())
        } else {
            self
        }
    }

    /// The store after [`JobStore::close_stdin`].
    pub open spec fn close_stdin(self, id: u32) -> StoreView {
        if self.jobs.contains_key(id) {
            self.with_job(id, self.jobs[id].without_stdin())
        } else {
            self
        }
    }

    /// The store after [`JobStore::take_receiver`].
    pub open spec fn take_receiver(self, id: u32) -> StoreView {
        if self.jobs.contains_key(id) {
            self.with_job(id, self.jobs[id].without_receiver())
        } else {
            self
        }
    }

    /// The store after [`JobStore::kill`].
    pub open spec fn kill(self, id: u32) -> StoreView {
        if self.jobs.contains_key(id) {
            self.with_job(id, self.jobs[id].killed())
        } else {
            self
        }
    }

    /// The store after [`JobStore::kill_all`].
    pub open spec fn kill_all(self) -> StoreView {
        StoreView {
            jobs: self.jobs.map_values(|meta: JobMeta| meta.killed()),
            next_id: self.next_id,
        }
    }

    /// The store after [`JobStore::clear`].
    pub open spec fn clear(self) -> StoreView {
        StoreView { jobs: Map::empty(), next_id: self.next_id }
    }

    /// The store after its next number has been given to a job of which it knows `meta`.
    pub open spec fn started(self, meta: JobMeta) -> StoreView {
        StoreView {
            jobs: self.jobs.insert(self.next_id, meta),
            next_id: (self.next_id + 1) as u32,
        }
    }

    /// The store after its next number has been used up without a job.
    pub open spec fn skipped(self) -> StoreView {
        StoreView { jobs: self.jobs, next_id: (self.next_id + 1) as u32 }
    }

    /// The receiver that job `id` still has.
    pub open spec fn receiver(self, id: u32) -> Option<flume::Receiver<JobEvent>> {
        if self.jobs.contains_key(id) {
            self.jobs[id].event_rx
        } else {
            None
        }
    }

    /// Whether no text can reach job `id` any more: it is unknown, its standard input is closed, or
    /// a text for it was refused.
    pub open spec fn input_over(self, id: u32) -> bool {
        ||| !self.jobs.contains_key(id)
        ||| self.jobs[id].stdin_tx is None
        ||| refused_once(stdin_sends(self.jobs[id].stdin_tx->0))
    }

    /// Why a write to job `id` is refused before anything is sent, if it is.
    pub open spec fn write_refusal(self, id: u32) -> Option<Seq<char>> {
        if !self.jobs.contains_key(id) {
            Some("job "@ + decimal(id as nat) + " not found"@)
        } else if self.jobs[id].stdin_tx is None {
            Some("job "@ + decimal(id as nat) + " does not accept stdin"@)
        } else {
            None
        }
    }
}

/// `text` was sent to the standard input of job `id`, which takes input, and nothing else happened
/// to `before`: the sender's history got this one entry, and the sender still belongs to its
/// channel.
pub open spec fn wrote(
    before: StoreView,
    id: u32,
    text: Seq<char>,
    accepted: bool,
    after: StoreView,
) -> bool {
    match (before.jobs[id].stdin_tx, after.jobs[id].stdin_tx) {
        (Some(old_tx), Some(tx)) => {
            &&& before.jobs.contains_key(id)
            &&& after == before.with_job(id, before.jobs[id].with_stdin(tx))
            &&& stdin_sends(tx) == stdin_sends(old_tx).push((text, accepted))
            &&& forall|rx: flume::Receiver<String>, room: usize|
                stdin_channel_ends(old_tx, rx, room) ==> #[trigger] stdin_channel_ends(tx, rx, room)
        },
        _ => false,
    }
}

/// The events that `out` lists under `id`, in order.
pub open spec fn listed(out: Seq<(u32, JobEvent)>, id: u32) -> Seq<JobEventView>
    decreases out.len(),
{
    if out.len() == 0 {
        Seq::empty()
    } else if out.last().0 == id {
        listed(out.drop_last(), id).push(out.last().1@)
    } else {
        listed(out.drop_last(), id)
    }
}

/// What polling a receiver until it has nothing to take adds to its history, if `events` are what
/// is taken.
pub open spec fn polled_dry(events: Seq<JobEventView>) -> Seq<Option<JobEventView>> {
    events.map_values(|event: JobEventView| Some(event)).push(None)
}

/// `after` is the receiver `before` once it has been polled until it had nothing to take, and
/// `events` are what was taken, in order.
pub open spec fn receiver_drained(
    before: flume::Receiver<JobEvent>,
    events: Seq<JobEventView>,
    after: flume::Receiver<JobEvent>,
) -> bool {
    &&& event_polls(after) == event_polls(before) + polled_dry(events)
    &&& forall|tx: flume::Sender<JobEvent>|
        event_channel_ends(tx, before) ==> #[trigger] event_channel_ends(tx, after)
}

/// `after` is the job `before` once its receiver, if it still has one, has been drained of exactly
/// `events`.
pub open spec fn job_drained(before: JobMeta, events: Seq<JobEventView>, after: JobMeta) -> bool {
    match (before.event_rx, after.event_rx) {
        (Some(old_rx), Some(rx)) => {
            &&& after == before.with_receiver(rx)
            &&& receiver_drained(old_rx, events, rx)
        },
        (None, None) => after == before && events.len() == 0,
        _ => false,
    }
}

/// `out` lists what draining every job of `before` gives and `after` is what that leaves: under
/// the number of each job, side by side, once and in order, exactly the events that were taken
/// from its receiver until it had nothing more, and nothing under any other number.
pub open spec fn drained(before: StoreView, out: Seq<(u32, JobEvent)>, after: StoreView) -> bool {
    &&& after.next_id == before.next_id
    &&& after.jobs.dom() == before.jobs.dom()
    &&& forall|id: u32| #[trigger]
        before.jobs.contains_key(id) ==> job_drained(
            before.jobs[id],
            listed(out, id),
            after.jobs[id],
        )
    &&& forall|i: int| 0 <= i < out.len() ==> before.jobs.contains_key((#[trigger] out[i]).0)
    &&& side_by_side(out)
}

/// Entries of one number stand side by side.
pub open spec fn side_by_side(out: Seq<(u32, JobEvent)>) -> bool {
    forall|i: int, j: int, k: int|
        0 <= i <= j <= k < out.len() && (#[trigger] out[i]).0 == (#[trigger] out[k]).0 ==> (
        #[trigger] out[j]).0 == out[i].0
}

/// `pids` lists the process of each job in `store` that is not dead, once for each such job.
pub open spec fn kill_targets(store: StoreView, pids: Seq<u32>) -> bool {
    exists|ids: Seq<u32>| #[trigger] targets_of(store, ids, pids)
}

/// `ids` are the jobs in `store` that are not dead, and `pids` their processes.
pub open spec fn targets_of(store: StoreView, ids: Seq<u32>, pids: Seq<u32>) -> bool {
    &&& ids.no_duplicates()
    &&& forall|id: u32| #[trigger] ids.contains(id) <==> store.is_alive(id)
    &&& pids == ids.map_values(|id: u32| store.jobs[id].pid())
}

/// Removing `key` from the registry of `lua` has been tried.
pub open spec fn removal_tried(lua: Lua, key: RegistryKey) -> bool {
    exists|removed: bool| #[trigger] registry_removal_outcome(lua, key, removed)
}

/// Every job of a task, by number.
pub struct JobStore {
    jobs: HashMap<u32, JobMeta>,
    next_id: u32,
}

impl View for JobStore {
    type V = StoreView;

    closed spec fn view(&self) -> StoreView {
        StoreView { jobs: self.jobs@, next_id: self.next_id }
    }
}

impl JobStore {
    /// A store without jobs, whose first job will be number one.
    pub fn new() -> (store: Self)
        ensures
            store@ == (StoreView { jobs: Map::empty(), next_id: 1 }),
            store@.wf(),
    {
        JobStore { jobs: HashMap::new(), next_id: 1 }
    }

    /// The number that the next job will get.
    pub fn next_id(&self) -> (id: u32)
        ensures
            id == self@.next_id,
    {
        self.next_id
    }

    /// Whether some job is not dead yet.
    pub fn has_alive_jobs(&self) -> (found: bool)
        ensures
            found <==> exists|id: u32| #[trigger] self@.is_alive(id),
    {
        for pair in it: self.jobs.iter()
            invariant
                forall|i: int| 0 <= i < it.index() ==> !(#[trigger] it.seq()[i]).1.alive,
        {
            let (id, meta) = pair;
            if meta.alive {
                assert(self@.is_alive(*id));
                return true;
            }
        }
        false
    }

    /// Whether the store knows no job.
    pub fn is_empty(&self) -> (empty: bool)
        ensures
            empty <==> self@.jobs == Map::<u32, JobMeta>::empty(),
    {
        let empty = self.jobs.is_empty();
        proof {
            if empty {
                assert(self.jobs@ =~= Map::empty());
            }
        }
        empty
    }

    /// Registers a spawned process as a job, once the threads around it run, and returns its
    /// number.  If the threads could not be started, the number is used up all the same.
    pub fn start(
        &mut self,
        launched: Launched,
        threads: Result<(), String>,
        on_stdout: Option<RegistryKey>,
        on_stderr: Option<RegistryKey>,
        on_stdout_chunk: Option<RegistryKey>,
        on_stderr_chunk: Option<RegistryKey>,
        on_exit: Option<RegistryKey>,
    ) -> (started: Result<u32, String>)
        requires
            old(self)@.next_id < u32::MAX,
        ensures
            old(self)@.wf() ==> final(self)@.wf(),
            match (threads, started) {
                (Ok(_), Ok(id)) => {
                    &&& id == old(self)@.next_id
                    &&& final(self)@ == old(self)@.started(
                        (JobMeta {
                            kind: JobKind::Process { pid: launched.pid },
                            alive: true,
                            on_stdout,
                            on_stderr,
                            on_stdout_chunk,
                            on_stderr_chunk,
                            on_exit,
                            event_rx: Some(launched.event_rx),
                            stdin_tx: launched.stdin_tx,
                        }),
                    )
                },
                (Err(reason), Err(message)) => {
                    &&& message == reason
                    &&& final(self)@ == old(self)@.skipped()
                },
                _ => false,
            },
    {
        let id = self.next_id;
        self.next_id = self.next_id + 1;
        match threads {
            Ok(_) => {
                self.jobs.insert(
                    id,
                    JobMeta {
                        kind: JobKind::Process { pid: launched.pid },
                        alive: true,
                        on_stdout,
                        on_stderr,
                        on_stdout_chunk,
                        on_stderr_chunk,
                        on_exit,
                        event_rx: Some(launched.event_rx),
                        stdin_tx: launched.stdin_tx,
                    },
                );
                proof {
                    assert forall|k: u32| #[trigger] self@.jobs.contains_key(k) implies k == id || old(
                        self,
                    )@.jobs.contains_key(k) by {}
                }
                Ok(id)
            },
            Err(reason) => {
                proof {
                    assert forall|k: u32| #[trigger] self@.jobs.contains_key(k) implies old(
                        self,
                    )@.jobs.contains_key(k) by {}
                }
                Err(reason)
            },
        }
    }

    /// The callback of job `job_id` for `event`.
    pub fn callback_key(&self, job_id: u32, event: &JobEvent) -> (key: Option<&RegistryKey>)
        ensures
            match key {
                Some(key) => {
                    &&& self@.jobs.contains_key(job_id)
                    &&& self@.jobs[job_id].callback(*event) == Some(*key)
                },
                None => {
                    ||| !self@.jobs.contains_key(job_id)
                    ||| self@.jobs[job_id].callback(*event) is None
                },
            },
            match key {
                Some(key) => Some(*key),
                None => None,
            } == (if self@.jobs.contains_key(job_id) {
                match *event {
                    JobEvent::Stdout(_) => self@.jobs[job_id].on_stdout,
                    JobEvent::Stderr(_) => self@.jobs[job_id].on_stderr,
                    JobEvent::StdoutChunk(_) => self@.jobs[job_id].on_stdout_chunk,
                    JobEvent::StderrChunk(_) => self@.jobs[job_id].on_stderr_chunk,
                    JobEvent::Exit(_) => self@.jobs[job_id].on_exit,
                }
            } else {
                None
            }),
    {
        let meta = match self.jobs.get(&job_id) {
            Some(meta) => meta,
            None => {
                return None;
            },
        };
        match event {
            JobEvent::Stdout(_) => meta.on_stdout.as_ref(),
            JobEvent::Stderr(_) => meta.on_stderr.as_ref(),
            JobEvent::StdoutChunk(_) => meta.on_stdout_chunk.as_ref(),
            JobEvent::StderrChunk(_) => meta.on_stderr_chunk.as_ref(),
            JobEvent::Exit(_) => meta.on_exit.as_ref(),
        }
    }

    /// Takes the receiver of job `job_id`; the second taker gets nothing.
    pub fn take_receiver(&mut self, job_id: u32) -> (rx: Option<flume::Receiver<JobEvent>>)
        ensures
            rx == old(self)@.receiver(job_id),
            final(self)@ == old(self)@.take_receiver(job_id),
            old(self)@.wf() ==> final(self)@.wf(),
    {
        match self.jobs.remove(&job_id) {
            Some(meta) => {
                let mut meta = meta;
                let rx = meta.event_rx.take();
                self.jobs.insert(job_id, meta);
                assert(self@ =~= old(self)@.take_receiver(job_id));
                rx
            },
            None => {
                assert(self@ =~= old(self)@);
                None
            },
        }
    }

    /// Takes the receiver of job `job_id` in order to wait for the job.
    pub fn begin_wait(&mut self, job_id: u32) -> (rx: Result<flume::Receiver<JobEvent>, String>)
        ensures
            match (old(self)@.receiver(job_id), rx) {
                (Some(kept), Ok(rx)) => rx == kept,
                (None, Err(message)) => message@ == "unknown job id or already waited"@,
                _ => false,
            },
            final(self)@ == old(self)@.take_receiver(job_id),
            old(self)@.wf() ==> final(self)@.wf(),
    {
        match self.take_receiver(job_id) {
            Some(rx) => Ok(rx),
            None => Err(String::from_str("unknown job id or already waited")),
        }
    }

    /// Replaces `buf` by the events that wait in the receivers that nobody has taken, each with
    /// the number of its job.
    pub fn drain_events(&mut self, buf: &mut Vec<(u32, JobEvent)>)
        ensures
            drained(old(self)@, final(buf)@, final(self)@),
            old(self)@.wf() ==> final(self)@.wf(),
    {
        buf.clear();
        let ids = self.job_ids();
        let mut n: usize = 0;
        while n < ids.len()
            invariant
                n <= ids@.len(),
                ids@.no_duplicates(),
                forall|id: u32| ids@.contains(id) <==> #[trigger] old(self)@.jobs.contains_key(id),
                self@.next_id == old(self)@.next_id,
                self@.jobs.dom() == old(self)@.jobs.dom(),
                forall|q: int|
                    0 <= q < n ==> job_drained(
                        old(self)@.jobs[#[trigger] ids@[q]],
                        listed(buf@, ids@[q]),
                        self@.jobs[ids@[q]],
                    ),
                forall|q: int|
                    n <= q < ids@.len() ==> self@.jobs[#[trigger] ids@[q]] == old(
                        self,
                    )@.jobs[ids@[q]],
                forall|i: int|
                    0 <= i < buf@.len() ==> ids@.take(n as int).contains((#[trigger] buf@[i]).0),
                side_by_side(buf@),
            decreases ids@.len() - n,
        {
            let id = ids[n];
            let ghost before = buf@;
            let ghost jobs_before = self@.jobs;
            proof {
                assert(ids@.contains(id));
                assert(old(self)@.jobs.contains_key(id));
                assert(self@.jobs.dom().contains(id));
                assert(!ids@.take(n as int).contains(id));
                assert(ids@.take(n + 1) =~= ids@.take(n as int).push(id));
                lemma_contains_push(ids@.take(n as int), id);
                lemma_listed_none(before, id);
            }
            if let Some(meta) = self.jobs.remove(&id) {
                let mut meta = meta;
                if let Some(rx) = meta.event_rx.take() {
                    let mut rx = rx;
                    drain_receiver(id, &mut rx, buf);
                    meta.event_rx = Some(rx);
                }
                self.jobs.insert(id, meta);
            }
            proof {
                assert(self@.jobs.dom() =~= old(self)@.jobs.dom());
                assert(job_drained(old(self)@.jobs[id], listed(buf@, id), self@.jobs[id]));
                assert forall|q: int| 0 <= q < n + 1 implies job_drained(
                    old(self)@.jobs[#[trigger] ids@[q]],
                    listed(buf@, ids@[q]),
                    self@.jobs[ids@[q]],
                ) by {
                    if q < n {
                        assert(ids@[q] != id);
                        assert(self@.jobs[ids@[q]] == jobs_before[ids@[q]]);
                        lemma_listed_of_others(before, buf@, id, ids@[q]);
                    }
                }
                assert forall|q: int| n + 1 <= q < ids@.len() implies self@.jobs[#[trigger] ids@[q]]
                    == old(self)@.jobs[ids@[q]] by {
                    assert(ids@[q] != id);
                }
                assert forall|i: int| 0 <= i < buf@.len() implies ids@.take(n + 1).contains(
                    (#[trigger] buf@[i]).0,
                ) by {
                    if i < before.len() {
                        assert(buf@[i] == before[i]);
                    }
                }
                assert forall|i: int, j: int, k: int|
                    0 <= i <= j <= k < buf@.len() && (#[trigger] buf@[i]).0 == (
                    #[trigger] buf@[k]).0 implies (#[trigger] buf@[j]).0 == buf@[i].0 by {
                    if i < before.len() {
                        assert(buf@[i] == before[i]);
                        assert(ids@.take(n as int).contains(before[i].0));
                        assert(before[i].0 != id);
                        assert(before[j] == buf@[j]);
                        assert(before[k] == buf@[k]);
                    }
                }
            }
            n = n + 1;
        }
        proof {
            assert(ids@.take(n as int) =~= ids@);
            assert forall|id: u32| #[trigger] old(self)@.jobs.contains_key(id) implies job_drained(
                old(self)@.jobs[id],
                listed(buf@, id),
                self@.jobs[id],
            ) by {
                assert(ids@.contains(id));
                let q = choose|q: int| 0 <= q < ids@.len() && ids@[q] == id;
                assert(job_drained(
                    old(self)@.jobs[ids@[q]],
                    listed(buf@, ids@[q]),
                    self@.jobs[ids@[q]],
                ));
            }
            assert forall|i: int| 0 <= i < buf@.len() implies old(self)@.jobs.contains_key(
                (#[trigger] buf@[i]).0,
            ) by {
                assert(ids@.contains(buf@[i].0));
            }
            assert forall|id: u32| #[trigger] self@.jobs.contains_key(id) implies old(
                self,
            )@.jobs.contains_key(id) by {
                assert(self@.jobs.dom().contains(id));
            }
        }
    }

    /// The numbers of all jobs, in no particular order.
    fn job_ids(&self) -> (ids: Vec<u32>)
        ensures
            ids@.no_duplicates(),
            forall|id: u32| ids@.contains(id) <==> #[trigger] self@.jobs.contains_key(id),
    {
        let mut ids: Vec<u32> = Vec::new();
        for pair in it: self.jobs.iter()
            invariant
                ids@.len() == it.index(),
                it.seq().no_duplicates(),
                forall|i: int|
                    #![trigger ids@[i]]
                    #![trigger it.seq()[i]]
                    0 <= i < it.index() ==> ids@[i] == *it.seq()[i].0,
                forall|i: int|
                    0 <= i < it.seq().len() ==> {
                        &&& self@.jobs.contains_key(*(#[trigger] it.seq()[i]).0)
                        &&& self@.jobs[*it.seq()[i].0] == *it.seq()[i].1
                    },
                forall|id: u32| #[trigger]
                    self@.jobs.contains_key(id) ==> it.seq().contains((&id, &self@.jobs[id])),
        {
            let (id, _meta) = pair;
            ids.push(*id);
        }
        ids
    }

    /// Records that job `job_id` is dead; a job that the store does not know is ignored.
    pub fn mark_dead(&mut self, job_id: u32)
        ensures
            final(self)@ == old(self)@.mark_dead(job_id),
            old(self)@.wf() ==> final(self)@.wf(),
    {
        if let Some(meta) = self.jobs.remove(&job_id) {
            let mut meta = meta;
            meta.alive = false;
            self.jobs.insert(job_id, meta);
        }
        assert(self@ =~= old(self)@.mark_dead(job_id));
    }

    /// Sends `data` to the standard input of job `job_id`, and waits while too much of what was
    /// sent before still waits there.
    pub fn write(&mut self, job_id: u32, data: String) -> (written: Result<(), String>)
        ensures
            match old(self)@.write_refusal(job_id) {
                Some(refusal) => {
                    &&& written matches Err(message) && message@ == refusal
                    &&& final(self)@ == old(self)@
                },
                None => {
                    &&& wrote(old(self)@, job_id, data@, written is Ok, final(self)@)
                    &&& written matches Err(message) ==> message@ == "job stdin closed"@
                    &&& final(self)@.jobs[job_id].stdin_tx is Some
                    &&& stdin_sends(final(self)@.jobs[job_id].stdin_tx->0) == stdin_sends(
                        old(self)@.jobs[job_id].stdin_tx->0,
                    ).push((data@, written is Ok))
                },
            },
            old(self)@.input_over(job_id) ==> written is Err,
            written is Err <==> final(self)@.input_over(job_id),
            old(self)@.wf() ==> final(self)@.wf(),
    {
        let meta = match self.jobs.remove(&job_id) {
            Some(meta) => meta,
            None => {
                assert(self@ =~= old(self)@);
                return Err(job_message(job_id, " not found"));
            },
        };
        let mut meta = meta;
        let written = match meta.stdin_tx.take() {
            Some(tx) => {
                let mut tx = tx;
                let ghost sends = stdin_sends(tx);
                let accepted = send_stdin(&mut tx, data);
                proof {
                    lemma_refused_push(sends, (data@, accepted));
                }
                meta.stdin_tx = Some(tx);
                write_result(accepted)
            },
            None => Err(job_message(job_id, " does not accept stdin")),
        };
        let ghost left = meta;
        self.jobs.insert(job_id, meta);
        proof {
            assert(self@ =~= old(self)@.with_job(job_id, left));
            if old(self)@.jobs[job_id].stdin_tx is None {
                assert(left == old(self)@.jobs[job_id]);
                assert(self@ =~= old(self)@);
            }
        }
        written
    }

    /// Closes the standard input of job `job_id` once everything sent so far has been written.
    pub fn close_stdin(&mut self, job_id: u32)
        ensures
            final(self)@ == old(self)@.close_stdin(job_id),
            old(self)@.wf() ==> final(self)@.wf(),
    {
        if let Some(meta) = self.jobs.remove(&job_id) {
            let mut meta = meta;
            meta.stdin_tx = None;
            self.jobs.insert(job_id, meta);
        }
        assert(self@ =~= old(self)@.close_stdin(job_id));
    }

    /// Prepares to kill job `job_id`: closes its standard input and returns the process that the
    /// kill signal has to go to.  A dead or unknown job is left alone.
    pub fn kill(&mut self, job_id: u32) -> (target: Option<u32>)
        ensures
            target == (if old(self)@.is_alive(job_id) {
                Some(old(self)@.jobs[job_id].pid())
            } else {
                None
            }),
            final(self)@ == old(self)@.kill(job_id),
            old(self)@.wf() ==> final(self)@.wf(),
    {
        let target = match self.jobs.remove(&job_id) {
            Some(meta) => {
                let mut meta = meta;
                let target = if meta.alive {
                    Some(kill_job(&mut meta))
                } else {
                    None
                };
                self.jobs.insert(job_id, meta);
                target
            },
            None => None,
        };
        assert(self@ =~= old(self)@.kill(job_id));
        target
    }

    /// Prepares to kill every job that is not dead: closes their standard inputs and returns the
    /// processes that the kill signal has to go to.
    pub fn kill_all(&mut self) -> (targets: Vec<u32>)
        ensures
            kill_targets(old(self)@, targets@),
            final(self)@ == old(self)@.kill_all(),
            old(self)@.wf() ==> final(self)@.wf(),
    {
        let ids = self.job_ids();
        let mut targets: Vec<u32> = Vec::new();
        let ghost mut killed: Seq<u32> = Seq::empty();
        let mut n: usize = 0;
        while n < ids.len()
            invariant
                n <= ids@.len(),
                ids@.no_duplicates(),
                forall|id: u32| ids@.contains(id) <==> #[trigger] old(self)@.jobs.contains_key(id),
                self@.next_id == old(self)@.next_id,
                self@.jobs.dom() == old(self)@.jobs.dom(),
                forall|q: int|
                    0 <= q < ids@.len() ==> self@.jobs[#[trigger] ids@[q]] == (if q < n {
                        old(self)@.jobs[ids@[q]].killed()
                    } else {
                        old(self)@.jobs[ids@[q]]
                    }),
                killed.no_duplicates(),
                forall|id: u32| #[trigger]
                    killed.contains(id) <==> old(self)@.is_alive(id) && ids@.take(
                        n as int,
                    ).contains(id),
                targets@ == killed.map_values(|id: u32| old(self)@.jobs[id].pid()),
            decreases ids@.len() - n,
        {
            let id = ids[n];
            proof {
                assert(ids@.contains(id));
                assert(old(self)@.jobs.contains_key(id));
                assert(self@.jobs.dom().contains(id));
                assert(!ids@.take(n as int).contains(id));
                assert(ids@.take(n + 1) =~= ids@.take(n as int).push(id));
                lemma_contains_push(ids@.take(n as int), id);
            }
            let ghost before = killed;
            let target = self.kill(id);
            if let Some(pid) = target {
                targets.push(pid);
                proof {
                    killed = killed.push(id);
                    lemma_contains_push(before, id);
                    assert(targets@ =~= killed.map_values(|id: u32| old(self)@.jobs[id].pid()));
                }
            }
            assert(self@.jobs.dom() =~= old(self)@.jobs.dom());
            n = n + 1;
        }
        proof {
            assert(ids@.take(n as int) =~= ids@);
            assert forall|id: u32| #[trigger] killed.contains(id) <==> old(self)@.is_alive(id) by {
                if old(self)@.is_alive(id) {
                    assert(ids@.contains(id));
                }
            }
            assert(targets_of(old(self)@, killed, targets@));
            assert forall|id: u32| #[trigger] self@.jobs.contains_key(id) implies self@.jobs[id]
                == old(self)@.jobs[id].killed() by {
                assert(old(self)@.jobs.contains_key(id));
                assert(ids@.contains(id));
                let q = choose|q: int| 0 <= q < ids@.len() && ids@[q] == id;
                assert(self@.jobs[ids@[q]] == old(self)@.jobs[ids@[q]].killed());
            }
            assert(self@.jobs =~= old(self)@.kill_all().jobs);
            assert(self@ =~= old(self)@.kill_all());
        }
        targets
    }

    /// Forgets every job and removes their callbacks from the registry of `lua`, whatever becomes
    /// of the removals.  Numbers are not given out again.
    pub fn clear(&mut self, lua: &Lua)
        ensures
            final(self)@ == old(self)@.clear(),
            old(self)@.wf() ==> final(self)@.wf(),
            forall|id: u32, key: RegistryKey|
                old(self)@.jobs.contains_key(id) && #[trigger] old(self)@.jobs[id].holds_key(key)
                    ==> removal_tried(*lua, key),
    {
        let ids = self.job_ids();
        let mut n: usize = 0;
        while n < ids.len()
            invariant
                n <= ids@.len(),
                ids@.no_duplicates(),
                forall|id: u32| ids@.contains(id) <==> #[trigger] old(self)@.jobs.contains_key(id),
                self@.next_id == old(self)@.next_id,
                forall|id: u32| #[trigger]
                    self@.jobs.contains_key(id) <==> old(self)@.jobs.contains_key(id)
                        && !ids@.take(n as int).contains(id),
                forall|id: u32| #[trigger]
                    self@.jobs.contains_key(id) ==> self@.jobs[id] == old(self)@.jobs[id],
                forall|q: int, key: RegistryKey|
                    0 <= q < n && #[trigger] old(self)@.jobs[ids@[q]].holds_key(key)
                        ==> removal_tried(*lua, key),
            decreases ids@.len() - n,
        {
            let id = ids[n];
            proof {
                assert(ids@.contains(id));
                assert(old(self)@.jobs.contains_key(id));
                assert(!ids@.take(n as int).contains(id));
                assert(ids@.take(n + 1) =~= ids@.take(n as int).push(id));
                lemma_contains_push(ids@.take(n as int), id);
                assert(self@.jobs.contains_key(id));
            }
            if let Some(meta) = self.jobs.remove(&id) {
                release_callbacks(lua, meta);
            }
            n = n + 1;
        }
        proof {
            assert(ids@.take(n as int) =~= ids@);
            assert forall|id: u32, key: RegistryKey|
                old(self)@.jobs.contains_key(id) && #[trigger] old(self)@.jobs[id].holds_key(
                    key,
                ) implies removal_tried(*lua, key) by {
                assert(ids@.contains(id));
                let q = choose|q: int| 0 <= q < ids@.len() && ids@[q] == id;
                assert(old(self)@.jobs[ids@[q]].holds_key(key));
            }
            assert forall|id: u32| !(#[trigger] self@.jobs.contains_key(id)) by {
                if old(self)@.jobs.contains_key(id) {
                    assert(ids@.contains(id));
                }
            }
            assert(self@.jobs =~= Map::empty());
        }
    }
}

/// Removes every callback of a job from the registry of `lua`, whatever becomes of the removals.
fn release_callbacks(lua: &Lua, meta: JobMeta)
    ensures
        forall|key: RegistryKey| #[trigger] meta.holds_key(key) ==> removal_tried(*lua, key),
{
    release_key(lua, meta.on_stdout);
    release_key(lua, meta.on_stderr);
    release_key(lua, meta.on_stdout_chunk);
    release_key(lua, meta.on_stderr_chunk);
    release_key(lua, meta.on_exit);
}

/// Removes a callback, if there is one, from the registry of `lua`, whatever becomes of it.
fn release_key(lua: &Lua, key: Option<RegistryKey>)
    ensures
        key matches Some(key) ==> removal_tried(*lua, key),
{
    if let Some(key) = key {
        let _removed = remove_registry_value(lua, key);
    }
}

/// Adds to `buf` the events that wait in `rx`, the receiver of job `id`, in order.
fn drain_receiver(id: u32, rx: &mut flume::Receiver<JobEvent>, buf: &mut Vec<(u32, JobEvent)>)
    ensures
        old(buf)@.is_prefix_of(final(buf)@),
        forall|i: int|
            old(buf)@.len() <= i < final(buf)@.len() ==> (#[trigger] final(buf)@[i]).0 == id,
        exists|events: Seq<JobEventView>|
            {
                &&& #[trigger] receiver_drained(*old(rx), events, *final(rx))
                &&& listed(final(buf)@, id) == listed(old(buf)@, id) + events
            },
{
    let ghost mut events: Seq<JobEventView> = Seq::empty();
    assert(listed(buf@, id) =~= listed(buf@, id) + events);
    assert(event_polls(*rx) =~= event_polls(*rx) + events.map_values(
        |event: JobEventView| Some(event),
    ));
    loop
        invariant_except_break
            event_polls(*rx) == event_polls(*old(rx)) + events.map_values(
                |event: JobEventView| Some(event),
            ),
        invariant
            old(buf)@.is_prefix_of(buf@),
            forall|i: int| old(buf)@.len() <= i < buf@.len() ==> (#[trigger] buf@[i]).0 == id,
            forall|tx: flume::Sender<JobEvent>|
                event_channel_ends(tx, *old(rx)) ==> #[trigger] event_channel_ends(tx, *rx),
            listed(buf@, id) == listed(old(buf)@, id) + events,
        ensures
            event_polls(*rx) == event_polls(*old(rx)) + polled_dry(events),
        decreases usize::MAX - buf@.len(),
    {
        let ghost filed = buf@;
        let found = poll_event(rx);
        let ghost what = found;
        if !file_event(buf, id, found) {
            assert(event_polls(*rx) =~= event_polls(*old(rx)) + polled_dry(events));
            break;
        }
        proof {
            let event = what->0;
            let before = events;
            assert(buf@.drop_last() =~= filed);
            events = events.push(event@);
            assert(events.map_values(|event: JobEventView| Some(event)) =~= before.map_values(
                |event: JobEventView| Some(event),
            ).push(Some(event@)));
            assert(event_polls(*rx) =~= event_polls(*old(rx)) + events.map_values(
                |event: JobEventView| Some(event),
            ));
            assert(listed(buf@, id) =~= listed(old(buf)@, id) + events);
        }
        assert(buf.len() <= usize::MAX);
    }
    assert(receiver_drained(*old(rx), events, *rx));
}

/// Adds what a poll of the receiver of job `id` has found to `buf`; returns whether to poll again.
pub fn file_event(buf: &mut Vec<(u32, JobEvent)>, id: u32, found: Option<JobEvent>) -> (more: bool)
    ensures
        match found {
            Some(event) => more && final(buf)@ == old(buf)@.push((id, event)),
            None => !more && final(buf)@ == old(buf)@,
        },
{
    match found {
        Some(event) => {
            buf.push((id, event));
            true
        },
        None => false,
    }
}

/// What a write comes to whose text was handed to the channel of standard input.
pub fn write_result(accepted: bool) -> (written: Result<(), String>)
    ensures
        match written {
            Ok(_) => accepted,
            Err(message) => !accepted && message@ == "job stdin closed"@,
        },
{
    if accepted {
        Ok(())
    } else {
        Err(String::from_str("job stdin closed"))
    }
}

/// A message about job `job_id`.
fn job_message(job_id: u32, rest: &str) -> (message: String)
    ensures
        message@ == "job "@ + decimal(job_id as nat) + rest@,
{
    let mut message = String::from_str("job ");
    append_decimal(&mut message, job_id);
    message.append(rest);
    message
}

/// Nothing is listed under a number that does not occur.
proof fn lemma_listed_none(out: Seq<(u32, JobEvent)>, id: u32)
    requires
        forall|i: int| 0 <= i < out.len() ==> (#[trigger] out[i]).0 != id,
    ensures
        listed(out, id) == Seq::<JobEventView>::empty(),
    decreases out.len(),
{
    if out.len() > 0 {
        assert(out.last() == out[out.len() - 1]);
        assert forall|i: int| 0 <= i < out.drop_last().len() implies (
        #[trigger] out.drop_last()[i]).0 != id by {
            assert(out.drop_last()[i] == out[i]);
        }
        lemma_listed_none(out.drop_last(), id);
    }
}

/// Entries added under `id` do not show under another number.
proof fn lemma_listed_of_others(
    before: Seq<(u32, JobEvent)>,
    after: Seq<(u32, JobEvent)>,
    id: u32,
    other: u32,
)
    requires
        before.is_prefix_of(after),
        other != id,
        forall|i: int| before.len() <= i < after.len() ==> (#[trigger] after[i]).0 == id,
    ensures
        listed(after, other) == listed(before, other),
    decreases after.len(),
{
    if after.len() > before.len() {
        assert(after.last() == after[after.len() - 1]);
        assert(before.is_prefix_of(after.drop_last()));
        assert forall|i: int| before.len() <= i < after.drop_last().len() implies (
        #[trigger] after.drop_last()[i]).0 == id by {
            assert(after.drop_last()[i] == after[i]);
        }
        lemma_listed_of_others(before, after.drop_last(), id, other);
    } else {
        assert(after =~= before);
    }
}

/// Whether a history holds a refusal once an entry has been added.
pub proof fn lemma_refused_push<T>(sends: Seq<(T, bool)>, entry: (T, bool))
    ensures
        refused_once(sends.push(entry)) <==> refused_once(sends) || !entry.1,
{
    if refused_once(sends) {
        let i = choose|i: int| 0 <= i < sends.len() && !(#[trigger] sends[i]).1;
        assert(!sends.push(entry)[i].1);
    }
    assert(sends.push(entry)[sends.len() as int] == entry);
    if refused_once(sends.push(entry)) {
        let i = choose|i: int|
            0 <= i < sends.push(entry).len() && !(#[trigger] sends.push(entry)[i]).1;
        if i < sends.len() {
            assert(!sends[i].1);
        }
    }
}

/// What a sequence holds once `x` has been pushed.
proof fn lemma_contains_push(s: Seq<u32>, x: u32)
    ensures
        forall|y: u32| #[trigger] s.push(x).contains(y) <==> s.contains(y) || y == x,
        s.no_duplicates() && !s.contains(x) ==> s.push(x).no_duplicates(),
{
    assert forall|y: u32| #[trigger] s.push(x).contains(y) <==> s.contains(y) || y == x by {
        if s.contains(y) {
            let i = choose|i: int| 0 <= i < s.len() && s[i] == y;
            assert(s.push(x)[i] == y);
        }
        assert(s.push(x)[s.len() as int] == x);
    }
}

} // verus!
