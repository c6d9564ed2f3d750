//! The coordinator: it owns every process and carries out lifecycle actions.
//!
//! The processes live in one table keyed by their identifier. The four pools
//! (queued, running, paused, finished) are lists of identifiers, each in the
//! order in which the processes came into the pool. Which pool lists a process
//! follows from its status alone, so a process is in exactly one pool at any
//! time.

use vstd::prelude::*;
use std::collections::HashMap;
use crate::channel::CHANNEL_CAPACITY;
use crate::ids::{is_random_id, mint_id, ProcessId};
use crate::lookup::{
    copy_ids, lemma_push_new, lemma_remove_value_absent, lemma_remove_value_at, position,
};
use crate::messages::{views, Call, Emission, EmissionView, Response, ResponseView};
use crate::process::{
    forwarded, same_or_valid, texts, Action, Job, Pool, Process, ProcessEmission,
    ProcessEmissionView, ProcessTools, ProcessView, Status, StatusView,
};

verus! {

broadcast use vstd::std_specs::hash::group_hash_axioms;

/// Why the coordinator did not carry out an action.
#[derive(Clone, Copy, Debug, PartialEq, Eq, Structural)]
pub enum LongRunnerError {
    /// No process with that identifier is in a pool from which the action
    /// can take it.
    UnknownProcess,
    /// The process does not support the operation.
    Unsupported,
    /// A freshly minted identifier is already taken.
    IdCollision,
}

/// How long a graceful stop may take before it is forced, in milliseconds.
pub const CANCEL_GRACE_MILLIS: u64 = 5_000;

/// What `run` did.
pub enum Started {
    /// A queued process was started; these are the channel ends for its
    /// execution unit.
    Fresh(ProcessTools),
    /// A paused process was continued; `signalled` says whether it took the
    /// command.
    Resumed { signalled: bool },
}

/// What `cancel` did.
#[derive(Clone, Copy, Debug, PartialEq, Eq, Structural)]
pub enum Cancellation {
    /// The process was not running and is stopped now.
    Stopped,
    /// The process runs and was asked to wind down; `signalled` says whether
    /// it took the command. The stop is to be settled within the grace period.
    Pending { signalled: bool },
}

/// How a pending stop was settled.
#[derive(Clone, Copy, Debug, PartialEq, Eq, Structural)]
pub enum Settlement {
    /// The process acknowledged and wound down by itself.
    Graceful,
    /// The process was stopped by force.
    Forced,
}

/// What `serve` hands back for a call that was taken up.
pub struct Accepted {
    /// The process that serves the call.
    pub process: ProcessId,
    /// The channel ends for the execution unit of that process.
    pub tools: ProcessTools,
    /// The emission that acknowledges the call; it is to be pushed across
    /// the boundary.
    pub ack: Emission,
    /// The synchronous reply to the call.
    pub reply: Response,
}

/// Mathematical value of a [`LongRunner`].
pub struct RunnerView {
    /// Every process, by its identifier.
    pub procs: Map<ProcessId, ProcessView>,
    /// The processes that wait to be run, in the order in which they were
    /// queued.
    pub queued: Seq<ProcessId>,
    /// The processes that run, in the order in which they were set running.
    pub running: Seq<ProcessId>,
    /// The processes that are paused, in the order in which they were paused.
    pub paused: Seq<ProcessId>,
    /// The processes that have ended, in the order in which they ended.
    pub finished: Seq<ProcessId>,
}

impl RunnerView {
    /// A coordinator without processes.
    pub open spec fn empty() -> RunnerView {
        RunnerView {
            procs: Map::empty(),
            queued: Seq::empty(),
            running: Seq::empty(),
            paused: Seq::empty(),
            finished: Seq::empty(),
        }
    }

    /// The processes in `pool`, in the order in which they came into it.
    pub open spec fn members(self, pool: Pool) -> Seq<ProcessId> {
        match pool {
            Pool::Queued => self.queued,
            Pool::Running => self.running,
            Pool::Paused => self.paused,
            Pool::Finished => self.finished,
        }
    }

    /// With `ids` as the processes in `pool`.
    pub open spec fn with_members(self, pool: Pool, ids: Seq<ProcessId>) -> RunnerView {
        match pool {
            Pool::Queued => RunnerView { queued: ids, ..self },
            Pool::Running => RunnerView { running: ids, ..self },
            Pool::Paused => RunnerView { paused: ids, ..self },
            Pool::Finished => RunnerView { finished: ids, ..self },
        }
    }

    /// Every process is filed under its own identifier and is well-formed,
    /// and each pool lists exactly the processes whose status puts them
    /// there, each once.
    pub open spec fn wf(self) -> bool {
        &&& forall|id: ProcessId| #[trigger]
            self.procs.contains_key(id) ==> self.procs[id].guid == id && self.procs[id].wf()
        &&& forall|pool: Pool| (#[trigger] self.members(pool)).no_duplicates()
        &&& forall|pool: Pool, id: ProcessId| #[trigger]
            self.members(pool).contains(id) <==> (self.procs.contains_key(id)
                && self.procs[id].pool() == pool)
    }

    /// Whether a process with this identifier exists.
    pub open spec fn contains(self, id: ProcessId) -> bool {
        self.procs.contains_key(id)
    }

    /// The pool that holds the process, if it exists.
    pub open spec fn pool_of(self, id: ProcessId) -> Option<Pool> {
        if self.procs.contains_key(id) {
            Some(self.procs[id].pool())
        } else {
            None
        }
    }

    /// Whether the process exists and has not reached a terminal status.
    pub open spec fn is_live(self, id: ProcessId) -> bool {
        self.procs.contains_key(id) && !self.procs[id].status.is_terminal()
    }

    /// With `process` in place of the process of the same identifier. If its
    /// status puts it in another pool, it leaves the old pool and comes last
    /// in the new one.
    pub open spec fn put(self, process: ProcessView) -> RunnerView {
        let id = process.guid;
        let from = self.procs[id].pool();
        let to = process.pool();
        let placed = RunnerView { procs: self.procs.insert(id, process), ..self };
        if from == to {
            placed
        } else {
            placed.with_members(from, self.members(from).remove_value(id)).with_members(
                to,
                self.members(to).push(id),
            )
        }
    }

    /// With a new process for `job` at the end of the queue.
    pub open spec fn enqueued(self, id: ProcessId, job: Job) -> RunnerView {
        RunnerView {
            procs: self.procs.insert(id, ProcessView::queued(id, job)),
            queued: self.queued.push(id),
            ..self
        }
    }

    /// With a new process for `job` that runs from the start, as if it had
    /// been queued and then run.
    pub open spec fn served(self, id: ProcessId, job: Job) -> RunnerView {
        RunnerView {
            procs: self.procs.insert(id, ProcessView::queued(id, job).started()),
            running: self.running.push(id),
            ..self
        }
    }

    /// With the process `id` running: started if it was queued, continued
    /// if it was paused.
    pub open spec fn ran(self, id: ProcessId) -> RunnerView {
        if self.procs[id].status is Queued {
            self.put(self.procs[id].started())
        } else {
            self.put(self.procs[id].resumed())
        }
    }

    /// With the process `id` paused.
    pub open spec fn paused(self, id: ProcessId) -> RunnerView {
        self.put(self.procs[id].suspended())
    }

    /// With a graceful stop of the process `id` pending.
    pub open spec fn cancelling(self, id: ProcessId) -> RunnerView {
        self.put(self.procs[id].cancelling())
    }

    /// With the process `id` ended in the terminal status `status`.
    pub open spec fn ended(self, id: ProcessId, status: StatusView) -> RunnerView {
        self.put(self.procs[id].ended(status))
    }

    /// What `cancel` makes of the coordinator: a running process has a stop
    /// pending, any other live process is stopped.
    pub open spec fn cancelled(self, id: ProcessId) -> RunnerView {
        if self.procs[id].status is Running {
            self.cancelling(id)
        } else {
            self.ended(id, StatusView::Stopped)
        }
    }

    /// With the messages `batch` of the process `id` taken in.
    pub open spec fn absorbed(self, id: ProcessId, batch: Seq<ProcessEmissionView>) -> RunnerView {
        self.put(self.procs[id].absorbed(batch))
    }

    /// After one round of forwarding: of each of the processes `ids`, in
    /// this order, the messages in the batch at the same position were taken
    /// in.
    pub open spec fn round(
        self,
        ids: Seq<ProcessId>,
        batches: Seq<Seq<ProcessEmissionView>>,
    ) -> RunnerView
        decreases ids.len(),
    {
        if ids.len() == 0 {
            self
        } else {
            self.round(ids.drop_last(), batches.drop_last()).absorbed(ids.last(), batches.last())
        }
    }

    /// What one round of forwarding pushes across the boundary: for each of
    /// the processes `ids`, in this order, what its batch gives.
    pub open spec fn round_pushed(
        self,
        ids: Seq<ProcessId>,
        batches: Seq<Seq<ProcessEmissionView>>,
    ) -> Seq<EmissionView>
        decreases ids.len(),
    {
        if ids.len() == 0 {
            Seq::empty()
        } else {
            self.round_pushed(ids.drop_last(), batches.drop_last()) + forwarded(
                self.procs[ids.last()].origin,
                batches.last(),
            )
        }
    }

    /// Whether `next` has the same processes in the same pools, each as it
    /// was but for its log, which may have grown.
    pub open spec fn only_logs_grow_to(self, next: RunnerView) -> bool {
        &&& next.procs.dom() == self.procs.dom()
        &&& next.queued == self.queued
        &&& next.running == self.running
        &&& next.paused == self.paused
        &&& next.finished == self.finished
        &&& forall|id: ProcessId| #[trigger]
            self.procs.contains_key(id) ==> {
                &&& next.procs[id] == (ProcessView { log: next.procs[id].log, ..self.procs[id] })
                &&& self.procs[id].log.is_prefix_of(next.procs[id].log)
            }
    }

    /// Whether `next` can follow this state: no process is lost or changes
    /// its identity, every status is kept or changed by a valid transition,
    /// and every log only grows.
    pub open spec fn advances_to(self, next: RunnerView) -> bool {
        forall|id: ProcessId| #[trigger]
            self.procs.contains_key(id) ==> {
                &&& next.procs.contains_key(id)
                &&& next.procs[id].guid == self.procs[id].guid
                &&& next.procs[id].origin == self.procs[id].origin
                &&& next.procs[id].pausable == self.procs[id].pausable
                &&& same_or_valid(self.procs[id].status, next.procs[id].status)
                &&& self.procs[id].log.is_prefix_of(next.procs[id].log)
            }
    }
}

/// A step that changes one process to a well-formed one keeps the
/// coordinator well-formed.
proof fn lemma_put_keeps_wf(before: RunnerView, process: ProcessView)
    requires
        before.wf(),
        before.procs.contains_key(process.guid),
        process.wf(),
    ensures
        before.put(process).wf(),
{
    let id = process.guid;
    let from = before.procs[id].pool();
    let to = process.pool();
    let after = before.put(process);
    if from != to {
        assert(before.members(from).contains(id));
        let index = choose|i: int|
            0 <= i < before.members(from).len() && before.members(from)[i] == id;
        lemma_remove_value_at(before.members(from), index);
        lemma_push_new(before.members(to), id);
    }
    assert forall|pool: Pool| (#[trigger] after.members(pool)).no_duplicates() by {
        assert(before.members(pool).no_duplicates());
    }
    assert forall|pool: Pool, other: ProcessId| #[trigger]
        after.members(pool).contains(other) <==> (after.procs.contains_key(other)
            && after.procs[other].pool() == pool) by {
        assert(before.members(pool).contains(other) <==> (before.procs.contains_key(other)
            && before.procs[other].pool() == pool));
    }
}

/// A new process at the end of a pool keeps the coordinator well-formed,
/// and is a step that the coordinator may take.
proof fn lemma_new_process(before: RunnerView, process: ProcessView)
    requires
        before.wf(),
        !before.procs.contains_key(process.guid),
        process.wf(),
    ensures
        ({
            let placed = RunnerView {
                procs: before.procs.insert(process.guid, process),
                ..before
            };
            let after = placed.with_members(
                process.pool(),
                before.members(process.pool()).push(process.guid),
            );
            after.wf() && before.advances_to(after)
        }),
{
    let id = process.guid;
    let pool = process.pool();
    let placed = RunnerView { procs: before.procs.insert(id, process), ..before };
    let after = placed.with_members(pool, before.members(pool).push(id));
    lemma_push_new(before.members(pool), id);
    assert forall|other: Pool| (#[trigger] after.members(other)).no_duplicates() by {
        assert(before.members(other).no_duplicates());
    }
    assert forall|other: Pool, process_id: ProcessId| #[trigger]
        after.members(other).contains(process_id) <==> (after.procs.contains_key(process_id)
            && after.procs[process_id].pool() == other) by {
        assert(before.members(other).contains(process_id) <==> (before.procs.contains_key(
            process_id,
        ) && before.procs[process_id].pool() == other));
    }
}

/// To take in messages of a running process only lets its log grow.
proof fn lemma_absorbing_grows_logs(
    start: RunnerView,
    state: RunnerView,
    id: ProcessId,
    batch: Seq<ProcessEmissionView>,
)
    requires
        start.only_logs_grow_to(state),
        state.procs.contains_key(id),
        state.procs[id].guid == id,
    ensures
        start.only_logs_grow_to(state.absorbed(id, batch)),
{
    assert(state.absorbed(id, batch).procs.dom() =~= start.procs.dom());
}

/// The coordinator of long-running processes.
pub struct LongRunner {
    /// Every process, whatever its status.
    table: HashMap<ProcessId, Process>,
    /// The processes waiting to be run, in order.
    queue: Vec<ProcessId>,
    /// The pool of processes that have been started.
    running: Vec<ProcessId>,
    /// The pool of processes that have been paused.
    paused: Vec<ProcessId>,
    /// The pool of processes that have ended, both successes and failures.
    finished: Vec<ProcessId>,
}

impl View for LongRunner {
    type V = RunnerView;

    closed spec fn view(&self) -> RunnerView {
        RunnerView {
            procs: self.table@.map_values(|p: Process| p@),
            queued: self.queue@,
            running: self.running@,
            paused: self.paused@,
            finished: self.finished@,
        }
    }
}

/// Takes `id` out of `list`, if it is there.
fn remove_id(list: &mut Vec<ProcessId>, id: ProcessId)
    requires
        old(list)@.no_duplicates(),
    ensures
        final(list)@ == old(list)@.remove_value(id),
{
    match position(list, id) {
        Some(index) => {
            let _ = list.remove(index);
        },
        None => {
            proof {
                lemma_remove_value_absent(list@, id);
            }
        },
    }
}

impl LongRunner {
    /// The invariant of the coordinator.
    pub closed spec fn wf(&self) -> bool {
        &&& forall|id: ProcessId| #[trigger]
            self.table@.contains_key(id) ==> self.table@[id].wf()
        &&& self@.wf()
    }

    /// A well-formed coordinator has a well-formed value.
    pub proof fn lemma_wf_view(&self)
        requires
            self.wf(),
        ensures
            self@.wf(),
    {
    }

    /// A coordinator without processes.
    pub fn new() -> (runner: LongRunner)
        ensures
            runner.wf(),
            runner@ == RunnerView::empty(),
    {
        let runner = LongRunner {
            table: HashMap::new(),
            queue: Vec::new(),
            running: Vec::new(),
            paused: Vec::new(),
            finished: Vec::new(),
        };
        assert(runner@.procs =~= Map::empty());
        runner
    }

    /// Whether a process with this identifier exists.
    pub fn contains(&self, id: ProcessId) -> (found: bool)
        ensures
            found == self@.contains(id),
    {
        self.table.contains_key(&id)
    }

    /// The pool that holds the process, if it exists.
    pub fn pool_of(&self, id: ProcessId) -> (pool: Option<Pool>)
        ensures
            pool == self@.pool_of(id),
    {
        match self.table.get(&id) {
            Some(process) => Some(process.status().pool()),
            None => None,
        }
    }

    /// Whether the process `id` exists and has not reached a terminal status.
    pub fn is_live(&self, id: ProcessId) -> (live: bool)
        ensures
            live == self@.is_live(id),
    {
        match self.table.get(&id) {
            Some(process) => !process.status().is_terminal(),
            None => false,
        }
    }

    /// The processes in `pool`, in the order in which they came into it.
    pub fn ids_in(&self, pool: Pool) -> (ids: Vec<ProcessId>)
        ensures
            ids@ == self@.members(pool),
    {
        match pool {
            Pool::Queued => copy_ids(&self.queue),
            Pool::Running => copy_ids(&self.running),
            Pool::Paused => copy_ids(&self.paused),
            Pool::Finished => copy_ids(&self.finished),
        }
    }

    /// The process `id`, for a look at it.
    pub fn process(&self, id: ProcessId) -> (process: Option<&Process>)
        requires
            self.wf(),
        ensures
            match process {
                Some(found) => self@.contains(id) && found@ == self@.procs[id] && found.wf(),
                None => !self@.contains(id),
            },
    {
        self.table.get(&id)
    }

    /// A copy of the current status of the process `id`.
    pub fn status(&self, id: ProcessId) -> (result: Result<Status, LongRunnerError>)
        ensures
            match result {
                Ok(status) => self@.contains(id) && status@ == self@.procs[id].status,
                Err(error) => error == LongRunnerError::UnknownProcess && !self@.contains(id),
            },
    {
        match self.table.get(&id) {
            Some(process) => Ok(process.status().snapshot()),
            None => Err(LongRunnerError::UnknownProcess),
        }
    }

    /// A copy of the log of the process `id`, oldest line first.
    pub fn log(&self, id: ProcessId) -> (result: Result<Vec<String>, LongRunnerError>)
        ensures
            match result {
                Ok(lines) => self@.contains(id) && texts(lines@) == self@.procs[id].log,
                Err(error) => error == LongRunnerError::UnknownProcess && !self@.contains(id),
            },
    {
        match self.table.get(&id) {
            Some(process) => {
                let log = process.log();
                let mut lines: Vec<String> = Vec::new();
                let mut index: usize = 0;
                while index < log.len()
                    invariant
                        index <= log@.len(),
                        lines@ == log@.take(index as int),
                    decreases log@.len() - index,
                {
                    lines.push(log[index].clone());
                    index = index + 1;
                }
                Ok(lines)
            },
            None => Err(LongRunnerError::UnknownProcess),
        }
    }

    /// Takes the process `id` out of the table.
    fn take(&mut self, id: ProcessId) -> (process: Process)
        requires
            old(self).table@.contains_key(id),
        ensures
            final(self).table@ == old(self).table@.remove(id),
            final(self).queue == old(self).queue,
            final(self).running == old(self).running,
            final(self).paused == old(self).paused,
            final(self).finished == old(self).finished,
            process == old(self).table@[id],
    {
        let found = self.table.remove(&id);
        found.unwrap()
    }

    /// Takes `id` out of the list of `pool`.
    fn leave(&mut self, pool: Pool, id: ProcessId)
        requires
            old(self)@.members(pool).no_duplicates(),
        ensures
            final(self).table == old(self).table,
            final(self)@ == old(self)@.with_members(
                pool,
                old(self)@.members(pool).remove_value(id),
            ),
    {
        match pool {
            Pool::Queued => remove_id(&mut self.queue, id),
            Pool::Running => remove_id(&mut self.running, id),
            Pool::Paused => remove_id(&mut self.paused, id),
            Pool::Finished => remove_id(&mut self.finished, id),
        }
    }

    /// Puts `id` at the end of the list of `pool`.
    fn join(&mut self, pool: Pool, id: ProcessId)
        ensures
            final(self).table == old(self).table,
            final(self)@ == old(self)@.with_members(pool, old(self)@.members(pool).push(id)),
    {
        match pool {
            Pool::Queued => self.queue.push(id),
            Pool::Running => self.running.push(id),
            Pool::Paused => self.paused.push(id),
            Pool::Finished => self.finished.push(id),
        }
    }

    /// Puts the changed `process` back in place of the one that `take` took
    /// out of the pool `from`, and moves it to the pool in which its status
    /// puts it.
    fn replace(&mut self, process: Process, from: Pool, Ghost(before): Ghost<LongRunner>)
        requires
            before.wf(),
            before.table@.contains_key(process@.guid),
            from == before.table@[process@.guid]@.pool(),
            old(self).table@ == before.table@.remove(process@.guid),
            old(self).queue == before.queue,
            old(self).running == before.running,
            old(self).paused == before.paused,
            old(self).finished == before.finished,
            process.wf(),
            process@.origin == before.table@[process@.guid]@.origin,
            process@.pausable == before.table@[process@.guid]@.pausable,
            same_or_valid(before.table@[process@.guid]@.status, process@.status),
            before.table@[process@.guid]@.log.is_prefix_of(process@.log),
        ensures
            final(self).wf(),
            before@.advances_to(final(self)@),
            final(self)@ == before@.put(process@),
    {
        let id = process.guid();
        let to = process.status().pool();
        let ghost value = process@;
        proof {
            process.lemma_wf_view();
            assert(before@.procs.contains_key(id));
            lemma_put_keeps_wf(before@, value);
        }
        let _ = self.table.insert(id, process);
        proof {
            assert(self@.procs =~= before@.procs.insert(id, value));
        }
        if from != to {
            self.leave(from, id);
            self.join(to, id);
        }
    }

    /// Files the new `process` under its identifier, at the end of the pool
    /// in which its status puts it.
    fn admit_new(&mut self, process: Process)
        requires
            old(self).wf(),
            !old(self)@.contains(process@.guid),
            process.wf(),
        ensures
            final(self).wf(),
            old(self)@.advances_to(final(self)@),
            final(self)@ == (RunnerView {
                procs: old(self)@.procs.insert(process@.guid, process@),
                ..old(self)@
            }).with_members(
                process@.pool(),
                old(self)@.members(process@.pool()).push(process@.guid),
            ),
    {
        let id = process.guid();
        let to = process.status().pool();
        let ghost value = process@;
        proof {
            process.lemma_wf_view();
            lemma_new_process(old(self)@, value);
        }
        let _ = self.table.insert(id, process);
        proof {
            assert(self@.procs =~= old(self)@.procs.insert(id, value));
        }
        self.join(to, id);
    }

    /// Adds a queued process for `job` under the identifier `id`, at the end
    /// of the queue. An identifier that is already taken is refused.
    pub fn enqueue(&mut self, id: ProcessId, job: Job) -> (result: Result<(), LongRunnerError>)
        requires
            old(self).wf(),
        ensures
            final(self).wf(),
            old(self)@.advances_to(final(self)@),
            match result {
                Ok(()) => !old(self)@.contains(id) && final(self)@ == old(self)@.enqueued(id, job),
                Err(error) => {
                    &&& error == LongRunnerError::IdCollision
                    &&& old(self)@.contains(id)
                    &&& final(self)@ == old(self)@
                },
            },
    {
        if self.table.contains_key(&id) {
            return Err(LongRunnerError::IdCollision);
        }
        self.admit_new(Process::new(id, job));
        Ok(())
    }

    /// Queues a new process for `job` under a freshly minted identifier and
    /// returns that identifier. Should the minted identifier be taken,
    /// nothing is queued and nothing changes; that can only happen while a
    /// process has an identifier of the shape that minted ones have, so a
    /// coordinator without such a process always queues.
    pub fn queue(&mut self, job: Job) -> (result: Result<ProcessId, LongRunnerError>)
        requires
            old(self).wf(),
        ensures
            final(self).wf(),
            old(self)@.advances_to(final(self)@),
            (forall|id: ProcessId| is_random_id(id) ==> !(#[trigger] old(self)@.contains(id)))
                ==> result is Ok,
            match result {
                Ok(id) => {
                    &&& is_random_id(id)
                    &&& !old(self)@.contains(id)
                    &&& final(self)@ == old(self)@.enqueued(id, job)
                },
                Err(error) => {
                    &&& error == LongRunnerError::IdCollision
                    &&& final(self)@ == old(self)@
                    &&& (exists|id: ProcessId|
                        is_random_id(id) && #[trigger] old(self)@.contains(id))
                },
            },
    {
        let id = mint_id();
        match self.enqueue(id, job) {
            Ok(()) => Ok(id),
            Err(error) => Err(error),
        }
    }

    /// Starts the queued process `id`, or continues it if it is paused. The
    /// process moves to the running pool.
    pub fn run(&mut self, id: ProcessId) -> (result: Result<Started, LongRunnerError>)
        requires
            old(self).wf(),
        ensures
            final(self).wf(),
            old(self)@.advances_to(final(self)@),
            match result {
                Ok(started) => {
                    &&& old(self)@.pool_of(id) == Some(
                        if started is Fresh {
                            Pool::Queued
                        } else {
                            Pool::Paused
                        },
                    )
                    &&& final(self)@ == old(self)@.ran(id)
                },
                Err(error) => {
                    &&& error == LongRunnerError::UnknownProcess
                    &&& old(self)@.pool_of(id) != Some(Pool::Queued)
                    &&& old(self)@.pool_of(id) != Some(Pool::Paused)
                    &&& final(self)@ == old(self)@
                },
            },
    {
        let ghost before = *self;
        match self.pool_of(id) {
            Some(Pool::Queued) => {
                let mut process = self.take(id);
                let tools = process.start();
                self.replace(process, Pool::Queued, Ghost(before));
                Ok(Started::Fresh(tools))
            },
            Some(Pool::Paused) => {
                let mut process = self.take(id);
                let signalled = process.resume();
                self.replace(process, Pool::Paused, Ghost(before));
                Ok(Started::Resumed { signalled })
            },
            _ => {
                Err(LongRunnerError::UnknownProcess)
            },
        }
    }

    /// Suspends the running process `id`, if it can be suspended, and moves
    /// it to the paused pool. The result says whether the process took the
    /// command.
    pub fn pause(&mut self, id: ProcessId) -> (result: Result<bool, LongRunnerError>)
        requires
            old(self).wf(),
        ensures
            final(self).wf(),
            old(self)@.advances_to(final(self)@),
            match result {
                Ok(_) => {
                    &&& old(self)@.pool_of(id) == Some(Pool::Running)
                    &&& old(self)@.procs[id].pausable
                    &&& final(self)@ == old(self)@.paused(id)
                },
                Err(error) => {
                    &&& final(self)@ == old(self)@
                    &&& error == if old(self)@.pool_of(id) == Some(Pool::Running) {
                        LongRunnerError::Unsupported
                    } else {
                        LongRunnerError::UnknownProcess
                    }
                    &&& old(self)@.pool_of(id) == Some(Pool::Running) ==> !old(self)@.procs[id].pausable
                },
            },
    {
        let ghost before = *self;
        let pausable = match self.table.get(&id) {
            Some(process) => match process.status() {
                Status::Running => Some(process.is_pausable()),
                _ => None,
            },
            None => None,
        };
        match pausable {
            Some(true) => {
                let mut process = self.take(id);
                let signalled = process.suspend();
                self.replace(process, Pool::Running, Ghost(before));
                Ok(signalled)
            },
            Some(false) => {
                Err(LongRunnerError::Unsupported)
            },
            None => {
                Err(LongRunnerError::UnknownProcess)
            },
        }
    }

    /// Ends the live process `id` of the pool `from` in `status`.
    fn end(&mut self, id: ProcessId, from: Pool, status: Status)
        requires
            old(self).wf(),
            old(self)@.is_live(id),
            old(self)@.pool_of(id) == Some(from),
            status@.is_terminal(),
            status@ is Stopped || old(self)@.procs[id].status is Running,
        ensures
            final(self).wf(),
            old(self)@.advances_to(final(self)@),
            final(self)@ == old(self)@.ended(id, status@),
    {
        let ghost before = *self;
        let mut process = self.take(id);
        process.end(status);
        self.replace(process, from, Ghost(before));
    }

    /// Stops the live process `id` at once, whatever it is doing, and moves
    /// it to the finished pool.
    pub fn kill(&mut self, id: ProcessId) -> (result: Result<(), LongRunnerError>)
        requires
            old(self).wf(),
        ensures
            final(self).wf(),
            old(self)@.advances_to(final(self)@),
            match result {
                Ok(()) => old(self)@.is_live(id) && final(self)@ == old(self)@.ended(
                    id,
                    StatusView::Stopped,
                ),
                Err(error) => {
                    &&& error == LongRunnerError::UnknownProcess
                    &&& !old(self)@.is_live(id)
                    &&& final(self)@ == old(self)@
                },
            },
    {
        match self.pool_of(id) {
            Some(Pool::Finished) | None => {
                Err(LongRunnerError::UnknownProcess)
            },
            Some(pool) => {
                self.end(id, pool, Status::Stopped);
                Ok(())
            },
        }
    }

    /// Stops the live process `id` gracefully where that is possible: a
    /// running process is asked to wind down and stays running until the stop
    /// is settled; a queued or paused process is stopped at once.
    pub fn cancel(&mut self, id: ProcessId) -> (result: Result<Cancellation, LongRunnerError>)
        requires
            old(self).wf(),
        ensures
            final(self).wf(),
            old(self)@.advances_to(final(self)@),
            match result {
                Ok(cancellation) => {
                    &&& old(self)@.is_live(id)
                    &&& final(self)@ == old(self)@.cancelled(id)
                    &&& cancellation is Pending <==> old(self)@.procs[id].status is Running
                },
                Err(error) => {
                    &&& error == LongRunnerError::UnknownProcess
                    &&& !old(self)@.is_live(id)
                    &&& final(self)@ == old(self)@
                },
            },
    {
        let ghost before = *self;
        match self.pool_of(id) {
            Some(Pool::Running) => {
                let mut process = self.take(id);
                let signalled = process.request_cancel();
                self.replace(process, Pool::Running, Ghost(before));
                Ok(Cancellation::Pending { signalled })
            },
            Some(Pool::Queued) => {
                self.end(id, Pool::Queued, Status::Stopped);
                Ok(Cancellation::Stopped)
            },
            Some(Pool::Paused) => {
                self.end(id, Pool::Paused, Status::Stopped);
                Ok(Cancellation::Stopped)
            },
            _ => {
                Err(LongRunnerError::UnknownProcess)
            },
        }
    }

    /// Settles the stop of the live process `id`: the process is stopped,
    /// gracefully if a stop was pending and the process acknowledged it,
    /// by force otherwise.
    pub fn settle_cancel(&mut self, id: ProcessId, acknowledged: bool) -> (result: Result<
        Settlement,
        LongRunnerError,
    >)
        requires
            old(self).wf(),
        ensures
            final(self).wf(),
            old(self)@.advances_to(final(self)@),
            match result {
                Ok(settlement) => {
                    &&& old(self)@.is_live(id)
                    &&& final(self)@ == old(self)@.ended(id, StatusView::Stopped)
                    &&& settlement is Graceful <==> acknowledged
                        && old(self)@.procs[id].cancel_requested
                },
                Err(error) => {
                    &&& error == LongRunnerError::UnknownProcess
                    &&& !old(self)@.is_live(id)
                    &&& final(self)@ == old(self)@
                },
            },
    {
        let pending = match self.table.get(&id) {
            Some(process) => if process.status().is_terminal() {
                None
            } else {
                Some((process.status().pool(), process.is_cancel_requested()))
            },
            None => None,
        };
        match pending {
            Some((pool, requested)) => {
                self.end(id, pool, Status::Stopped);
                if acknowledged && requested {
                    Ok(Settlement::Graceful)
                } else {
                    Ok(Settlement::Forced)
                }
            },
            None => {
                Err(LongRunnerError::UnknownProcess)
            },
        }
    }

    /// Records that the running process `id` completed with `result`, and
    /// moves it to the finished pool.
    pub fn finish(&mut self, id: ProcessId, result: String) -> (outcome: Result<
        (),
        LongRunnerError,
    >)
        requires
            old(self).wf(),
        ensures
            final(self).wf(),
            old(self)@.advances_to(final(self)@),
            match outcome {
                Ok(()) => {
                    &&& old(self)@.pool_of(id) == Some(Pool::Running)
                    &&& final(self)@ == old(self)@.ended(id, StatusView::Finished(result@))
                },
                Err(error) => {
                    &&& error == LongRunnerError::UnknownProcess
                    &&& old(self)@.pool_of(id) != Some(Pool::Running)
                    &&& final(self)@ == old(self)@
                },
            },
    {
        match self.pool_of(id) {
            Some(Pool::Running) => {
                self.end(id, Pool::Running, Status::Finished(result));
                Ok(())
            },
            _ => {
                Err(LongRunnerError::UnknownProcess)
            },
        }
    }

    /// Records that the running process `id` failed because of `reason`, and
    /// moves it to the finished pool.
    pub fn fail(&mut self, id: ProcessId, reason: String) -> (outcome: Result<(), LongRunnerError>)
        requires
            old(self).wf(),
        ensures
            final(self).wf(),
            old(self)@.advances_to(final(self)@),
            match outcome {
                Ok(()) => {
                    &&& old(self)@.pool_of(id) == Some(Pool::Running)
                    &&& final(self)@ == old(self)@.ended(id, StatusView::Errored(reason@))
                },
                Err(error) => {
                    &&& error == LongRunnerError::UnknownProcess
                    &&& old(self)@.pool_of(id) != Some(Pool::Running)
                    &&& final(self)@ == old(self)@
                },
            },
    {
        match self.pool_of(id) {
            Some(Pool::Running) => {
                self.end(id, Pool::Running, Status::Errored(reason));
                Ok(())
            },
            _ => {
                Err(LongRunnerError::UnknownProcess)
            },
        }
    }

    /// Takes in one message of the running process `id`. A result is wrapped
    /// with the correlation id of the request that the process serves and
    /// returned for the push across the boundary; log lines go to the log of
    /// the process.
    pub fn absorb(&mut self, id: ProcessId, emission: ProcessEmission) -> (result: Result<
        Option<Emission>,
        LongRunnerError,
    >)
        requires
            old(self).wf(),
        ensures
            final(self).wf(),
            old(self)@.advances_to(final(self)@),
            match result {
                Ok(pushed) => {
                    &&& old(self)@.pool_of(id) == Some(Pool::Running)
                    &&& final(self)@ == old(self)@.absorbed(id, seq![emission@])
                    &&& match pushed {
                        Some(out) => emission@.pushed(old(self)@.procs[id].origin) == Some(out@),
                        None => emission@.pushed(old(self)@.procs[id].origin) is None,
                    }
                },
                Err(error) => {
                    &&& error == LongRunnerError::UnknownProcess
                    &&& old(self)@.pool_of(id) != Some(Pool::Running)
                    &&& final(self)@ == old(self)@
                },
            },
    {
        let ghost before = *self;
        match self.pool_of(id) {
            Some(Pool::Running) => {
                let mut process = self.take(id);
                let pushed = process.absorb(emission);
                self.replace(process, Pool::Running, Ghost(before));
                Ok(pushed)
            },
            _ => {
                Err(LongRunnerError::UnknownProcess)
            },
        }
    }

    /// Takes in what waits on the emission channel of the running process
    /// `id`, oldest first and at most as much as the channel can hold, and
    /// returns what is to be pushed across the boundary, in the same order.
    /// Which messages were waiting is for the process to decide; whatever
    /// they were, they are taken in as `absorb` would, one after the other.
    pub fn forward(&mut self, id: ProcessId) -> (result: Result<Vec<Emission>, LongRunnerError>)
        requires
            old(self).wf(),
        ensures
            final(self).wf(),
            old(self)@.advances_to(final(self)@),
            match result {
                Ok(pushed) => {
                    &&& old(self)@.pool_of(id) == Some(Pool::Running)
                    &&& (exists|batch: Seq<ProcessEmissionView>|
                        batch.len() <= CHANNEL_CAPACITY && final(self)@
                            == #[trigger] old(self)@.absorbed(id, batch) && views(pushed@)
                            == forwarded(old(self)@.procs[id].origin, batch))
                },
                Err(error) => {
                    &&& error == LongRunnerError::UnknownProcess
                    &&& old(self)@.pool_of(id) != Some(Pool::Running)
                    &&& final(self)@ == old(self)@
                },
            },
    {
        let ghost before = *self;
        match self.pool_of(id) {
            Some(Pool::Running) => {
                let mut process = self.take(id);
                let (pushed, Ghost(batch)) = process.drain();
                self.replace(process, Pool::Running, Ghost(before));
                proof {
                    assert(self@ == before@.absorbed(id, batch));
                }
                Ok(pushed)
            },
            _ => {
                Err(LongRunnerError::UnknownProcess)
            },
        }
    }

    /// One round of forwarding: takes in what waits on the emission channel
    /// of each running process, in the order of the running pool, and returns
    /// what is to be pushed across the boundary: the results of each process
    /// in the order in which it sent them, process after process. Which
    /// messages were waiting is for the processes to decide; whatever they
    /// were, they are taken in as `forward` would, process by process.
    pub fn forward_all(&mut self) -> (pushed: Vec<Emission>)
        requires
            old(self).wf(),
        ensures
            final(self).wf(),
            old(self)@.advances_to(final(self)@),
            (exists|batches: Seq<Seq<ProcessEmissionView>>|
                batches.len() == old(self)@.running.len() && (forall|k: int|
                    0 <= k < batches.len() ==> (#[trigger] batches[k]).len() <= CHANNEL_CAPACITY)
                    && final(self)@ == #[trigger] old(self)@.round(old(self)@.running, batches)
                    && views(pushed@) == old(self)@.round_pushed(old(self)@.running, batches)),
    {
        let ids = copy_ids(&self.running);
        let mut pushed: Vec<Emission> = Vec::new();
        let ghost mut batches: Seq<Seq<ProcessEmissionView>> = Seq::empty();
        let mut index: usize = 0;
        while index < ids.len()
            invariant
                old(self).wf(),
                self.wf(),
                index <= ids@.len(),
                ids@ == old(self)@.running,
                self@.running == ids@,
                batches.len() == index,
                forall|k: int|
                    0 <= k < batches.len() ==> (#[trigger] batches[k]).len() <= CHANNEL_CAPACITY,
                old(self)@.only_logs_grow_to(self@),
                self@ == old(self)@.round(ids@.take(index as int), batches),
                views(pushed@) == old(self)@.round_pushed(ids@.take(index as int), batches),
            decreases ids@.len() - index,
        {
            let id = ids[index];
            let ghost before = self@;
            proof {
                assert(before.members(Pool::Running).contains(id));
                assert(old(self)@.members(Pool::Running).contains(id));
            }
            match self.forward(id) {
                Ok(out) => {
                    let mut out = out;
                    let ghost batch = choose|batch: Seq<ProcessEmissionView>|
                        batch.len() <= CHANNEL_CAPACITY && self@ == #[trigger] before.absorbed(
                            id,
                            batch,
                        ) && views(out@) == forwarded(before.procs[id].origin, batch);
                    proof {
                        lemma_absorbing_grows_logs(old(self)@, before, id, batch);
                        assert(ids@.take(index + 1).drop_last() =~= ids@.take(index as int));
                        assert(batches.push(batch).drop_last() =~= batches);
                        batches = batches.push(batch);
                    }
                    pushed.append(&mut out);
                },
                Err(_) => {},
            }
            index = index + 1;
        }
        proof {
            assert(ids@.take(ids@.len() as int) =~= ids@);
        }
        pushed
    }

    /// Takes up `call` with a new process under the identifier `id`: the
    /// process is queued and run in one step. The call is acknowledged both in
    /// the reply and in an emission for the push across the boundary. An
    /// identifier that is already taken is refused.
    pub fn serve_as(&mut self, id: ProcessId, call: Call) -> (result: Result<
        Accepted,
        LongRunnerError,
    >)
        requires
            old(self).wf(),
        ensures
            final(self).wf(),
            old(self)@.advances_to(final(self)@),
            match result {
                Ok(accepted) => {
                    &&& !old(self)@.contains(id)
                    &&& final(self)@ == old(self)@.served(id, Job::serving(call))
                    &&& accepted.process == id
                    &&& accepted.ack@ == (EmissionView {
                        guid: call.guid,
                        message: ResponseView::Ack(call.guid),
                    })
                    &&& accepted.reply@ == ResponseView::Ack(call.guid)
                },
                Err(error) => {
                    &&& error == LongRunnerError::IdCollision
                    &&& old(self)@.contains(id)
                    &&& final(self)@ == old(self)@
                },
            },
    {
        if self.table.contains_key(&id) {
            return Err(LongRunnerError::IdCollision);
        }
        let mut process = Process::new(id, Job::for_call(call));
        let tools = process.start();
        self.admit_new(process);
        Ok(
            Accepted {
                process: id,
                tools,
                ack: Emission::ack(call.guid),
                reply: Response::Ack(call.guid),
            },
        )
    }

    /// Takes up `call` with a new process under a freshly minted identifier;
    /// see `serve_as`. Should the minted identifier be taken, the call is not
    /// taken up and nothing changes; that can only happen while a process has
    /// an identifier of the shape that minted ones have, so a coordinator
    /// without such a process always takes the call up.
    pub fn serve(&mut self, call: Call) -> (result: Result<Accepted, LongRunnerError>)
        requires
            old(self).wf(),
        ensures
            final(self).wf(),
            old(self)@.advances_to(final(self)@),
            (forall|id: ProcessId| is_random_id(id) ==> !(#[trigger] old(self)@.contains(id)))
                ==> result is Ok,
            match result {
                Ok(accepted) => {
                    &&& is_random_id(accepted.process)
                    &&& !old(self)@.contains(accepted.process)
                    &&& final(self)@ == old(self)@.served(accepted.process, Job::serving(call))
                    &&& accepted.ack@ == (EmissionView {
                        guid: call.guid,
                        message: ResponseView::Ack(call.guid),
                    })
                    &&& accepted.reply@ == ResponseView::Ack(call.guid)
                },
                Err(error) => {
                    &&& error == LongRunnerError::IdCollision
                    &&& final(self)@ == old(self)@
                    &&& (exists|id: ProcessId|
                        is_random_id(id) && #[trigger] old(self)@.contains(id))
                },
            },
    {
        let id = mint_id();
        self.serve_as(id, call)
    }
}

impl LongRunnerError {
    /// The words for this error.
    pub open spec fn words(self) -> Seq<char> {
        match self {
            LongRunnerError::UnknownProcess => "unknown process"@,
            LongRunnerError::Unsupported => "unsupported operation"@,
            LongRunnerError::IdCollision => "identifier already in use"@,
        }
    }

    /// The words for this error.
    pub fn describe(&self) -> (text: &'static str)
        ensures
            text@ == self.words(),
    {
        match self {
            LongRunnerError::UnknownProcess => "unknown process",
            LongRunnerError::Unsupported => "unsupported operation",
            LongRunnerError::IdCollision => "identifier already in use",
        }
    }
}

/// Every process is in exactly one pool, and which one is decided by its
/// status alone; what is no process is in no pool.
pub proof fn lemma_pools_partition(state: RunnerView, id: ProcessId)
    requires
        state.wf(),
    ensures
        state.contains(id) ==> state.members(state.procs[id].status.pool()).contains(id),
        forall|pool: Pool| #[trigger]
            state.members(pool).contains(id) ==> state.contains(id) && pool
                == state.procs[id].status.pool(),
        state.pool_of(id) == Some(Pool::Finished) <==> state.contains(id)
            && state.procs[id].status.is_terminal(),
{
}

/// Each step that the coordinator takes on a process in the right pool keeps
/// it well-formed and moves the process along a valid transition; all other
/// processes stay as they are.
pub proof fn lemma_steps_are_valid(
    state: RunnerView,
    id: ProcessId,
    job: Job,
    outcome: StatusView,
    batch: Seq<ProcessEmissionView>,
)
    requires
        state.wf(),
    ensures
        !state.contains(id) ==> state.enqueued(id, job).wf() && state.advances_to(
            state.enqueued(id, job),
        ),
        !state.contains(id) ==> state.served(id, job).wf() && state.advances_to(
            state.served(id, job),
        ),
        state.pool_of(id) == Some(Pool::Queued) || state.pool_of(id) == Some(Pool::Paused)
            ==> state.ran(id).wf() && state.advances_to(state.ran(id)),
        state.pool_of(id) == Some(Pool::Running) ==> state.paused(id).wf() && state.advances_to(
            state.paused(id),
        ),
        state.is_live(id) ==> state.cancelled(id).wf() && state.advances_to(state.cancelled(id)),
        state.is_live(id) ==> state.ended(id, StatusView::Stopped).wf() && state.advances_to(
            state.ended(id, StatusView::Stopped),
        ),
        state.pool_of(id) == Some(Pool::Running) && (outcome is Finished || outcome is Errored)
            ==> state.ended(id, outcome).wf() && state.advances_to(state.ended(id, outcome)),
        state.pool_of(id) == Some(Pool::Running) ==> state.absorbed(id, batch).wf()
            && state.advances_to(state.absorbed(id, batch)),
{
    if !state.contains(id) {
        lemma_new_process(state, ProcessView::queued(id, job));
        lemma_new_process(state, ProcessView::queued(id, job).started());
    } else {
        let process = state.procs[id];
        if process.status is Queued || process.status is Paused {
            let next = if process.status is Queued {
                process.started()
            } else {
                process.resumed()
            };
            lemma_put_keeps_wf(state, next);
        }
        if process.status is Running {
            lemma_put_keeps_wf(state, process.suspended());
            if outcome is Finished || outcome is Errored {
                lemma_put_keeps_wf(state, process.ended(outcome));
            }
        }
        if !process.status.is_terminal() {
            lemma_put_keeps_wf(state, process.ended(StatusView::Stopped));
        }
    }
}

/// A step on one process leaves every pool but the one that the process
/// leaves and the one that it comes into as it was, and the order of the
/// other processes in those two as well.
pub proof fn lemma_moves_are_local(state: RunnerView, process: ProcessView, pool: Pool)
    requires
        state.wf(),
        state.contains(process.guid),
    ensures
        pool != state.procs[process.guid].pool() && pool != process.pool() ==> state.put(
            process,
        ).members(pool) == state.members(pool),
        state.procs[process.guid].pool() == process.pool() ==> state.put(process).members(pool)
            == state.members(pool),
        state.procs[process.guid].pool() != process.pool() ==> state.put(process).members(
            process.pool(),
        ) == state.members(process.pool()).push(process.guid) && state.put(process).members(
            state.procs[process.guid].pool(),
        ) == state.members(state.procs[process.guid].pool()).remove_value(process.guid),
{
}

/// The operations do what their actions say: where an action is a transition
/// from the status of a process, the operation of that name leaves the
/// process in the status that the action leads to; where it is none, the
/// operation of that name finds the process in none of its pools.
pub proof fn lemma_operations_follow_actions(state: RunnerView, id: ProcessId)
    requires
        state.wf(),
        state.contains(id),
    ensures
        state.procs[id].status.after(Action::Run) is Some ==> state.procs[id].status.after(
            Action::Run,
        ) == Some(state.ran(id).procs[id].status),
        state.procs[id].status.after(Action::Pause) is Some ==> state.procs[id].status.after(
            Action::Pause,
        ) == Some(state.paused(id).procs[id].status),
        state.procs[id].status.after(Action::Kill) is Some ==> state.procs[id].status.after(
            Action::Kill,
        ) == Some(state.ended(id, StatusView::Stopped).procs[id].status),
        state.procs[id].status.after(Action::Cancel) == state.procs[id].status.after(Action::Kill),
        state.procs[id].status.after(Action::Run) is Some <==> state.pool_of(id) == Some(
            Pool::Queued,
        ) || state.pool_of(id) == Some(Pool::Paused),
        state.procs[id].status.after(Action::Pause) is Some <==> state.pool_of(id) == Some(
            Pool::Running,
        ),
        state.procs[id].status.after(Action::Kill) is Some <==> state.is_live(id),
{
}

/// To take up a call is to queue a process and run it at once.
pub proof fn lemma_serve_is_queue_then_run(state: RunnerView, id: ProcessId, job: Job)
    requires
        state.wf(),
        !state.contains(id),
    ensures
        state.served(id, job) == state.enqueued(id, job).ran(id),
{
    let queued = state.enqueued(id, job);
    assert(state.members(Pool::Queued).no_duplicates());
    lemma_push_new(state.queued, id);
    lemma_remove_value_at(queued.queued, state.queued.len() as int);
    assert(queued.queued.remove(state.queued.len() as int) =~= state.queued);
    assert(queued.ran(id).procs =~= state.served(id, job).procs);
}

/// Kill needs one step, whatever the process does: a live process is
/// stopped, and in the finished pool, as soon as `kill` returns.
pub proof fn lemma_kill_stops_at_once(state: RunnerView, id: ProcessId)
    requires
        state.wf(),
        state.is_live(id),
    ensures
        state.ended(id, StatusView::Stopped).procs[id].status is Stopped,
        state.ended(id, StatusView::Stopped).pool_of(id) == Some(Pool::Finished),
        state.ended(id, StatusView::Stopped).finished == state.finished.push(id),
        !state.ended(id, StatusView::Stopped).is_live(id),
{
}

/// Cancel needs at most two steps: after `cancel`, the process is stopped,
/// or it is still live and the next `settle_cancel` stops it, whether or not
/// the process has acknowledged.
pub proof fn lemma_cancel_stops_in_two_steps(state: RunnerView, id: ProcessId)
    requires
        state.wf(),
        state.is_live(id),
    ensures
        state.cancelled(id).wf(),
        state.cancelled(id).procs[id].status is Stopped || {
            &&& state.procs[id].status is Running
            &&& state.cancelled(id).is_live(id)
            &&& state.cancelled(id).procs[id].cancel_requested
            &&& state.cancelled(id).ended(id, StatusView::Stopped).procs[id].status is Stopped
        },
{
    if state.procs[id].status is Running {
        lemma_put_keeps_wf(state, state.procs[id].cancelling());
    } else {
        lemma_put_keeps_wf(state, state.procs[id].ended(StatusView::Stopped));
    }
}

/// A process that has reached a terminal status keeps it, whatever step the
/// coordinator takes next.
pub proof fn lemma_terminal_processes_rest(state: RunnerView, next: RunnerView, id: ProcessId)
    requires
        state.advances_to(next),
        state.contains(id),
        state.procs[id].status.is_terminal(),
    ensures
        next.contains(id),
        next.procs[id].status == state.procs[id].status,
{
}

/// A round of forwarding changes nothing but logs: every process stays in
/// its pool with its status, and every log keeps what it had.
pub proof fn lemma_round_only_grows_logs(
    state: RunnerView,
    ids: Seq<ProcessId>,
    batches: Seq<Seq<ProcessEmissionView>>,
)
    requires
        state.wf(),
        ids.len() == batches.len(),
        forall|k: int| 0 <= k < ids.len() ==> state.contains(#[trigger] ids[k]),
    ensures
        state.only_logs_grow_to(state.round(ids, batches)),
        state.advances_to(state.round(ids, batches)),
    decreases ids.len(),
{
    if ids.len() > 0 {
        let earlier = ids.drop_last();
        lemma_round_only_grows_logs(state, earlier, batches.drop_last());
        lemma_absorbing_grows_logs(
            state,
            state.round(earlier, batches.drop_last()),
            ids.last(),
            batches.last(),
        );
    }
}

} // verus!
