//! A process: one unit of background work and its lifecycle.

use vstd::prelude::*;
use std::sync::Arc;
use tokio::sync::mpsc::{Receiver, Sender};
use tokio::sync::Mutex;
use crate::channel::{open_channel, try_deliver, try_receive, CHANNEL_CAPACITY};
use crate::ids::{CorrelationId, ProcessId};
use crate::messages::{views, Call, Emission, EmissionView, RequestMessage, ResponseView};

verus! {

/// Lifecycle commands that can be issued against a process.
#[derive(Clone, Copy, Debug, PartialEq, Eq, Structural)]
pub enum Action {
    /// Add a new process to the end of the run line.
    Queue,
    /// Start a queued process, or continue a paused one.
    Run,
    /// Suspend a running process, if it allows that.
    Pause,
    /// Stop a process gracefully where it can be; otherwise the same as `Kill`.
    Cancel,
    /// Stop a process at once.
    Kill,
    /// Look up the current status of a process.
    Status,
}

/// Where a process stands in its lifecycle.
#[derive(Clone, Debug, PartialEq, Eq)]
pub enum Status {
    /// Waiting to be run.
    Queued,
    /// Currently active.
    Running,
    /// Completed; carries the serialized result.
    Finished(String),
    /// Suspended; it can be resumed.
    Paused,
    /// Ended before it could complete.
    Stopped,
    /// Failed; carries a readable cause.
    Errored(String),
}

/// Mathematical value of a [`Status`].
pub enum StatusView {
    Queued,
    Running,
    Finished(Seq<char>),
    Paused,
    Stopped,
    Errored(Seq<char>),
}

/// The four groups into which the coordinator sorts its processes.
#[derive(Clone, Copy, Debug, PartialEq, Eq, Structural)]
pub enum Pool {
    Queued,
    Running,
    Paused,
    Finished,
}

impl View for Status {
    type V = StatusView;

    open spec fn view(&self) -> StatusView {
        match self {
            Status::Queued => StatusView::Queued,
            Status::Running => StatusView::Running,
            Status::Finished(result) => StatusView::Finished(result@),
            Status::Paused => StatusView::Paused,
            Status::Stopped => StatusView::Stopped,
            Status::Errored(reason) => StatusView::Errored(reason@),
        }
    }
}

impl StatusView {
    /// Finished, stopped and errored processes never change again.
    pub open spec fn is_terminal(self) -> bool {
        self is Finished || self is Stopped || self is Errored
    }

    /// The pool that holds a process with this status.
    pub open spec fn pool(self) -> Pool {
        match self {
            StatusView::Queued => Pool::Queued,
            StatusView::Running => Pool::Running,
            StatusView::Paused => Pool::Paused,
            _ => Pool::Finished,
        }
    }

    /// The status that `action` leads to from this one, if it leads anywhere.
    pub open spec fn after(self, action: Action) -> Option<StatusView> {
        match action {
            Action::Run => if self is Queued || self is Paused {
                Some(StatusView::Running)
            } else {
                None
            },
            Action::Pause => if self is Running {
                Some(StatusView::Paused)
            } else {
                None
            },
            Action::Cancel | Action::Kill => if self.is_terminal() {
                None
            } else {
                Some(StatusView::Stopped)
            },
            Action::Queue | Action::Status => None,
        }
    }
}

/// The changes of status that a process may ever make.
pub open spec fn valid_transition(from: StatusView, to: StatusView) -> bool {
    match from {
        StatusView::Queued => to is Running || to is Stopped,
        StatusView::Running => to is Paused || to is Finished || to is Stopped || to is Errored,
        StatusView::Paused => to is Running || to is Stopped,
        _ => false,
    }
}

/// A status is kept or changed by a valid transition.
pub open spec fn same_or_valid(from: StatusView, to: StatusView) -> bool {
    from == to || valid_transition(from, to)
}

impl Status {
    /// Whether the status is one that never changes again.
    pub fn is_terminal(&self) -> (terminal: bool)
        ensures
            terminal == self@.is_terminal(),
    {
        match self {
            Status::Finished(_) | Status::Stopped | Status::Errored(_) => true,
            _ => false,
        }
    }

    /// The pool that holds a process with this status.
    pub fn pool(&self) -> (pool: Pool)
        ensures
            pool == self@.pool(),
    {
        match self {
            Status::Queued => Pool::Queued,
            Status::Running => Pool::Running,
            Status::Paused => Pool::Paused,
            _ => Pool::Finished,
        }
    }

    /// An independent copy of the status.
    pub fn snapshot(&self) -> (copy: Status)
        ensures
            copy == *self,
    {
        match self {
            Status::Queued => Status::Queued,
            Status::Running => Status::Running,
            Status::Finished(result) => Status::Finished(result.clone()),
            Status::Paused => Status::Paused,
            Status::Stopped => Status::Stopped,
            Status::Errored(reason) => Status::Errored(reason.clone()),
        }
    }

    /// The status that `action` leads to from this one; `None` where the
    /// action is not a transition from here.
    pub fn after(&self, action: Action) -> (next: Option<Status>)
        ensures
            match next {
                Some(status) => self@.after(action) == Some(status@),
                None => self@.after(action) is None,
            },
    {
        match action {
            Action::Run => match self {
                Status::Queued | Status::Paused => Some(Status::Running),
                _ => None,
            },
            Action::Pause => match self {
                Status::Running => Some(Status::Paused),
                _ => None,
            },
            Action::Cancel | Action::Kill => if self.is_terminal() {
                None
            } else {
                Some(Status::Stopped)
            },
            Action::Queue | Action::Status => None,
        }
    }
}

/// The valid transitions are exactly those that an action brings about,
/// together with the two ways in which a running process ends by itself:
/// by completing and by failing.
pub proof fn lemma_transitions_are_exact(from: StatusView, to: StatusView)
    ensures
        valid_transition(from, to) <==> ((exists|action: Action| from.after(action) == Some(to))
            || (from is Running && (to is Finished || to is Errored))),
{
    if valid_transition(from, to) {
        if to is Running {
            assert(from.after(Action::Run) == Some(to));
        } else if to is Paused {
            assert(from.after(Action::Pause) == Some(to));
        } else if to is Stopped {
            assert(from.after(Action::Kill) == Some(to));
        }
    }
}

/// No transition starts from a terminal status.
pub proof fn lemma_terminal_is_final(from: StatusView, to: StatusView)
    requires
        from.is_terminal(),
    ensures
        !valid_transition(from, to),
        forall|action: Action| from.after(action) is None,
{
}

/// A valid transition moves a process to another pool, and never back into
/// the queue.
pub proof fn lemma_transition_changes_pool(from: StatusView, to: StatusView)
    requires
        valid_transition(from, to),
    ensures
        from.pool() != to.pool(),
        to.pool() != Pool::Queued,
{
}

/// Commands that the coordinator sends into a running process.
#[derive(Clone, Copy, Debug, PartialEq, Eq, Structural)]
pub enum ProcessRequest {
    /// Suspend until told to resume.
    Pause,
    /// Continue after a pause.
    Resume,
    /// Wind down and exit.
    Cancel,
}

/// Messages that a running process sends back to the coordinator.
#[derive(Clone, Debug, PartialEq, Eq)]
pub enum ProcessEmission {
    /// Push the string, already serialized, to whoever waits for results.
    Emit(String),
    /// Add the lines to the log of the process.
    Log(Vec<String>),
}

/// Mathematical value of a [`ProcessEmission`].
pub enum ProcessEmissionView {
    Emit(Seq<char>),
    Log(Seq<Seq<char>>),
}

/// The texts of a sequence of strings.
pub open spec fn texts(lines: Seq<String>) -> Seq<Seq<char>> {
    Seq::new(lines.len(), |i: int| lines[i]@)
}

impl View for ProcessEmission {
    type V = ProcessEmissionView;

    open spec fn view(&self) -> ProcessEmissionView {
        match self {
            ProcessEmission::Emit(payload) => ProcessEmissionView::Emit(payload@),
            ProcessEmission::Log(lines) => ProcessEmissionView::Log(texts(lines@)),
        }
    }
}

impl ProcessEmissionView {
    /// What is pushed across the boundary for this message of a process that
    /// serves the request `origin`: a result for `Emit`, nothing for `Log`.
    pub open spec fn pushed(self, origin: CorrelationId) -> Option<EmissionView> {
        match self {
            ProcessEmissionView::Emit(payload) => Some(
                EmissionView { guid: origin, message: ResponseView::LongRunner(payload) },
            ),
            ProcessEmissionView::Log(_) => None,
        }
    }

    /// The lines that this message adds to the log.
    pub open spec fn lines(self) -> Seq<Seq<char>> {
        match self {
            ProcessEmissionView::Emit(_) => Seq::empty(),
            ProcessEmissionView::Log(lines) => lines,
        }
    }
}

/// Everything pushed across the boundary for the messages `batch`, in the
/// order in which the process sent them.
pub open spec fn forwarded(origin: CorrelationId, batch: Seq<ProcessEmissionView>) -> Seq<
    EmissionView,
>
    decreases batch.len(),
{
    if batch.len() == 0 {
        Seq::empty()
    } else {
        let before = forwarded(origin, batch.drop_last());
        match batch.last().pushed(origin) {
            Some(emission) => before.push(emission),
            None => before,
        }
    }
}

/// Every line that the messages `batch` add to the log, in order.
pub open spec fn logged(batch: Seq<ProcessEmissionView>) -> Seq<Seq<char>>
    decreases batch.len(),
{
    if batch.len() == 0 {
        Seq::empty()
    } else {
        logged(batch.drop_last()) + batch.last().lines()
    }
}

/// It makes no difference in how many rounds the messages of a process are
/// taken in: what is pushed, and what is logged, is the same as for all of
/// them in one round.
pub proof fn lemma_rounds_add_up(
    origin: CorrelationId,
    earlier: Seq<ProcessEmissionView>,
    later: Seq<ProcessEmissionView>,
)
    ensures
        forwarded(origin, earlier + later) == forwarded(origin, earlier) + forwarded(origin, later),
        logged(earlier + later) == logged(earlier) + logged(later),
    decreases later.len(),
{
    if later.len() > 0 {
        lemma_rounds_add_up(origin, earlier, later.drop_last());
        assert((earlier + later).drop_last() =~= earlier + later.drop_last());
    }
}

/// Whether `picks` names positions of a sequence of length `len`, each
/// after the one before.
pub open spec fn increasing_within(picks: Seq<int>, len: int) -> bool {
    &&& forall|k: int| 0 <= k < picks.len() ==> 0 <= #[trigger] picks[k] < len
    &&& forall|j: int, k: int| 0 <= j < k < picks.len() ==> picks[j] < picks[k]
}

/// The positions in `batch` of the messages that are pushed across the
/// boundary.
pub open spec fn pushed_positions(batch: Seq<ProcessEmissionView>) -> Seq<int>
    decreases batch.len(),
{
    if batch.len() == 0 {
        Seq::empty()
    } else if batch.last() is Emit {
        pushed_positions(batch.drop_last()).push(batch.len() - 1)
    } else {
        pushed_positions(batch.drop_last())
    }
}

/// Forwarding keeps the order of a process: what is pushed across the
/// boundary is exactly the `Emit` messages of the batch, each once, each
/// under the correlation id of the process, in the order in which the
/// process sent them.
pub proof fn lemma_forwarding_keeps_order(origin: CorrelationId, batch: Seq<ProcessEmissionView>)
    ensures
        pushed_positions(batch).len() == forwarded(origin, batch).len(),
        increasing_within(pushed_positions(batch), batch.len() as int),
        forall|k: int|
            0 <= k < forwarded(origin, batch).len() ==> batch[pushed_positions(batch)[k]].pushed(
                origin,
            ) == Some(#[trigger] forwarded(origin, batch)[k]),
        forall|i: int|
            0 <= i < batch.len() && batch[i] is Emit ==> pushed_positions(batch).contains(i),
    decreases batch.len(),
{
    if batch.len() > 0 {
        let shorter = batch.drop_last();
        lemma_forwarding_keeps_order(origin, shorter);
        let picks = pushed_positions(batch);
        assert forall|i: int| 0 <= i < batch.len() && batch[i] is Emit implies picks.contains(
            i,
        ) by {
            if i < shorter.len() {
                assert(pushed_positions(shorter).contains(i));
                let k = choose|k: int|
                    0 <= k < pushed_positions(shorter).len() && pushed_positions(shorter)[k] == i;
                assert(picks[k] == i);
            } else {
                assert(picks[picks.len() - 1] == i);
            }
        }
    }
}

/// Of two results that a process emits one after the other, the earlier one
/// is pushed across the boundary before the later one.
pub proof fn lemma_earlier_emission_is_forwarded_first(
    origin: CorrelationId,
    batch: Seq<ProcessEmissionView>,
    first: int,
    second: int,
)
    requires
        0 <= first < second < batch.len(),
        batch[first] is Emit,
        batch[second] is Emit,
    ensures
        (exists|p: int, q: int|
            0 <= p < q < forwarded(origin, batch).len() && batch[first].pushed(origin) == Some(
                #[trigger] forwarded(origin, batch)[p],
            ) && batch[second].pushed(origin) == Some(#[trigger] forwarded(origin, batch)[q])),
{
    lemma_forwarding_keeps_order(origin, batch);
    let picks = pushed_positions(batch);
    assert(picks.contains(first));
    assert(picks.contains(second));
    let p = choose|p: int| 0 <= p < picks.len() && picks[p] == first;
    let q = choose|q: int| 0 <= q < picks.len() && picks[q] == second;
    assert(batch[first].pushed(origin) == Some(forwarded(origin, batch)[p]));
    assert(batch[second].pushed(origin) == Some(forwarded(origin, batch)[q]));
}

/// What is needed to queue a process.
#[derive(Clone, Copy, Debug, PartialEq, Eq, Structural)]
pub struct Job {
    /// Correlation id of the request that the process serves.
    pub origin: CorrelationId,
    /// Whether the process can be suspended and resumed.
    pub pausable: bool,
}

impl Job {
    /// The job that serves `call`: its results go back under the correlation
    /// id of the call. A heartbeat can be suspended.
    pub open spec fn serving(call: Call) -> Job {
        Job {
            origin: call.guid,
            pausable: match call.request.message {
                RequestMessage::Heartbeat => true,
            },
        }
    }

    /// The job that serves `call`.
    pub fn for_call(call: Call) -> (job: Job)
        ensures
            job == Job::serving(call),
    {
        let pausable = match call.request.message {
            RequestMessage::Heartbeat => true,
        };
        Job { origin: call.guid, pausable }
    }
}

/// The ends of the two channels that the process itself holds.
pub struct ProcessTools {
    /// Commands from the coordinator.
    pub requests: Receiver<ProcessRequest>,
    /// Messages to the coordinator.
    pub emitter: Sender<ProcessEmission>,
}

/// The work of a process. The coordinator never calls `start` itself: whoever
/// runs the execution units does, with the tools that `run` handed out.
pub trait LongRunnerProcess {
    fn start(proc: Arc<Mutex<ProcessTools>>);
}

/// A long-running task with its status, channels and log.
pub struct Process {
    /// The identifier by which the process is referred to.
    guid: ProcessId,
    /// Correlation id of the request that the process serves.
    origin: CorrelationId,
    /// The current state of the process.
    status: Status,
    /// The channel on which commands go into the running process.
    input: Option<Sender<ProcessRequest>>,
    /// The channel on which messages come out of the running process.
    listener: Option<Receiver<ProcessEmission>>,
    /// Log lines, oldest first.
    log: Vec<String>,
    /// Whether the process can be suspended.
    pausable: bool,
    /// Whether a graceful stop was asked for and is not settled yet.
    cancel_requested: bool,
}

/// Mathematical value of a [`Process`].
pub struct ProcessView {
    pub guid: ProcessId,
    pub origin: CorrelationId,
    pub status: StatusView,
    /// Whether the two channels are open.
    pub bound: bool,
    pub log: Seq<Seq<char>>,
    pub pausable: bool,
    pub cancel_requested: bool,
}

impl ProcessView {
    /// A process as it is queued: no channels, an empty log.
    pub open spec fn queued(guid: ProcessId, job: Job) -> ProcessView {
        ProcessView {
            guid,
            origin: job.origin,
            status: StatusView::Queued,
            bound: false,
            log: Seq::empty(),
            pausable: job.pausable,
            cancel_requested: false,
        }
    }

    /// Channels are open exactly while the process runs or is paused, and a
    /// graceful stop can only be pending then.
    pub open spec fn wf(self) -> bool {
        &&& self.bound == (self.status is Running || self.status is Paused)
        &&& self.cancel_requested ==> self.bound
    }

    /// The pool that holds the process.
    pub open spec fn pool(self) -> Pool {
        self.status.pool()
    }

    /// After its start: running, with open channels.
    pub open spec fn started(self) -> ProcessView {
        ProcessView { status: StatusView::Running, bound: true, ..self }
    }

    /// After a pause.
    pub open spec fn suspended(self) -> ProcessView {
        ProcessView { status: StatusView::Paused, ..self }
    }

    /// After it was continued.
    pub open spec fn resumed(self) -> ProcessView {
        ProcessView { status: StatusView::Running, ..self }
    }

    /// After a graceful stop was asked for.
    pub open spec fn cancelling(self) -> ProcessView {
        ProcessView { cancel_requested: true, ..self }
    }

    /// After it ended with the terminal status `status`: channels closed,
    /// nothing pending.
    pub open spec fn ended(self, status: StatusView) -> ProcessView {
        ProcessView { status, bound: false, cancel_requested: false, ..self }
    }

    /// After the messages `batch` were taken in: their lines are in the log.
    pub open spec fn absorbed(self, batch: Seq<ProcessEmissionView>) -> ProcessView {
        ProcessView { log: self.log + logged(batch), ..self }
    }
}

impl View for Process {
    type V = ProcessView;

    closed spec fn view(&self) -> ProcessView {
        ProcessView {
            guid: self.guid,
            origin: self.origin,
            status: self.status@,
            bound: self.listener is Some,
            log: texts(self.log@),
            pausable: self.pausable,
            cancel_requested: self.cancel_requested,
        }
    }
}

/// `texts` of a concatenation is the concatenation of the `texts`.
proof fn lemma_texts_concat(a: Seq<String>, b: Seq<String>)
    ensures
        texts(a + b) == texts(a) + texts(b),
{
}

/// One more message at the end of a batch: its lines come last in the log,
/// and what it pushes comes last among the pushed.
pub(crate) proof fn lemma_batch_push(
    origin: CorrelationId,
    batch: Seq<ProcessEmissionView>,
    next: ProcessEmissionView,
)
    ensures
        logged(batch.push(next)) == logged(batch) + next.lines(),
        forwarded(origin, batch.push(next)) == match next.pushed(origin) {
            Some(emission) => forwarded(origin, batch).push(emission),
            None => forwarded(origin, batch),
        },
{
    assert(batch.push(next).drop_last() =~= batch);
}

impl Process {
    /// The invariant of a process: both channels are open or neither is, and
    /// its value is well-formed.
    pub closed spec fn wf(&self) -> bool {
        &&& (self.input is Some) == (self.listener is Some)
        &&& self@.wf()
    }

    /// A well-formed process has a well-formed value.
    pub proof fn lemma_wf_view(&self)
        requires
            self.wf(),
        ensures
            self@.wf(),
    {
    }

    /// A queued process for `job`.
    pub(crate) fn new(guid: ProcessId, job: Job) -> (process: Process)
        ensures
            process.wf(),
            process@ == ProcessView::queued(guid, job),
    {
        let process = Process {
            guid,
            origin: job.origin,
            status: Status::Queued,
            input: None,
            listener: None,
            log: Vec::new(),
            pausable: job.pausable,
            cancel_requested: false,
        };
        assert(texts(process.log@) =~= Seq::empty());
        process
    }

    /// The identifier of the process.
    pub fn guid(&self) -> (guid: ProcessId)
        ensures
            guid == self@.guid,
    {
        self.guid
    }

    /// Correlation id of the request that the process serves.
    pub fn origin(&self) -> (origin: CorrelationId)
        ensures
            origin == self@.origin,
    {
        self.origin
    }

    /// The current status.
    pub fn status(&self) -> (status: &Status)
        ensures
            status@ == self@.status,
    {
        &self.status
    }

    /// The log, oldest line first.
    pub fn log(&self) -> (log: &Vec<String>)
        ensures
            texts(log@) == self@.log,
    {
        &self.log
    }

    /// Whether the process can be suspended.
    pub fn is_pausable(&self) -> (pausable: bool)
        ensures
            pausable == self@.pausable,
    {
        self.pausable
    }

    /// Whether the channels of the process are open.
    pub fn is_bound(&self) -> (bound: bool)
        ensures
            bound == self@.bound,
    {
        self.listener.is_some()
    }

    /// Whether a graceful stop was asked for and is not settled yet.
    pub fn is_cancel_requested(&self) -> (requested: bool)
        ensures
            requested == self@.cancel_requested,
    {
        self.cancel_requested
    }

    /// Offers `request` to the process; `false` if its command channel is
    /// closed, full or was never opened. Whether an open channel takes the
    /// request is for the channel to say; a process without a command
    /// channel takes none.
    fn signal(&self, request: ProcessRequest) -> (taken: bool)
        ensures
            self.input is None ==> !taken,
    {
        match &self.input {
            Some(sender) => try_deliver(sender, request),
            None => false,
        }
    }

    /// Opens both channels and sets the process running. The ends that the
    /// process itself needs are handed out.
    pub(crate) fn start(&mut self) -> (tools: ProcessTools)
        requires
            old(self).wf(),
            old(self)@.status is Queued,
        ensures
            final(self).wf(),
            final(self)@ == old(self)@.started(),
    {
        let (input, requests) = open_channel::<ProcessRequest>(CHANNEL_CAPACITY);
        let (emitter, listener) = open_channel::<ProcessEmission>(CHANNEL_CAPACITY);
        self.input = Some(input);
        self.listener = Some(listener);
        self.status = Status::Running;
        ProcessTools { requests, emitter }
    }

    /// Tells the process to pause and marks it paused. The result says
    /// whether the process took the command.
    pub(crate) fn suspend(&mut self) -> (signalled: bool)
        requires
            old(self).wf(),
            old(self)@.status is Running,
        ensures
            final(self).wf(),
            final(self)@ == old(self)@.suspended(),
    {
        let signalled = self.signal(ProcessRequest::Pause);
        self.status = Status::Paused;
        signalled
    }

    /// Tells the process to continue and marks it running. The result says
    /// whether the process took the command.
    pub(crate) fn resume(&mut self) -> (signalled: bool)
        requires
            old(self).wf(),
            old(self)@.status is Paused,
        ensures
            final(self).wf(),
            final(self)@ == old(self)@.resumed(),
    {
        let signalled = self.signal(ProcessRequest::Resume);
        self.status = Status::Running;
        signalled
    }

    /// Asks the process to wind down. The result says whether the process
    /// took the command.
    pub(crate) fn request_cancel(&mut self) -> (signalled: bool)
        requires
            old(self).wf(),
            old(self)@.status is Running,
        ensures
            final(self).wf(),
            final(self)@ == old(self)@.cancelling(),
    {
        let signalled = self.signal(ProcessRequest::Cancel);
        self.cancel_requested = true;
        signalled
    }

    /// Ends the process with the terminal status `status` and closes its
    /// channels.
    pub(crate) fn end(&mut self, status: Status)
        requires
            old(self).wf(),
            status@.is_terminal(),
        ensures
            final(self).wf(),
            final(self)@ == old(self)@.ended(status@),
    {
        self.status = status;
        self.input = None;
        self.listener = None;
        self.cancel_requested = false;
    }

    /// Takes in one message of the process: a result is wrapped for the
    /// boundary, log lines go to the log.
    pub(crate) fn absorb(&mut self, emission: ProcessEmission) -> (pushed: Option<Emission>)
        requires
            old(self).wf(),
        ensures
            final(self).wf(),
            final(self)@ == old(self)@.absorbed(seq![emission@]),
            match pushed {
                Some(out) => emission@.pushed(old(self)@.origin) == Some(out@),
                None => emission@.pushed(old(self)@.origin) is None,
            },
    {
        proof {
            lemma_batch_push(self.origin, Seq::empty(), emission@);
        }
        match emission {
            ProcessEmission::Emit(payload) => {
                Some(Emission::result(self.origin, payload))
            },
            ProcessEmission::Log(lines) => {
                let mut lines = lines;
                proof {
                    lemma_texts_concat(self.log@, lines@);
                }
                self.log.append(&mut lines);
                None
            },
        }
    }

    /// Takes the next message off the emission channel, if one is waiting.
    /// Whether one waits on an open channel is for the channel to say; a
    /// process whose channels are not open has none.
    fn poll(&mut self) -> (emission: Option<ProcessEmission>)
        requires
            old(self).wf(),
        ensures
            final(self).wf(),
            final(self)@ == old(self)@,
            !old(self)@.bound ==> emission is None,
    {
        match &mut self.listener {
            Some(receiver) => try_receive(receiver),
            None => None,
        }
    }

    /// Takes in what waits on the emission channel, up to the capacity of
    /// the channel, oldest first. The ghost result is the batch of messages
    /// that was there; it is empty for a process whose channels are not open.
    pub(crate) fn drain(&mut self) -> (out: (Vec<Emission>, Ghost<Seq<ProcessEmissionView>>))
        requires
            old(self).wf(),
        ensures
            final(self).wf(),
            out.1@.len() <= CHANNEL_CAPACITY,
            !old(self)@.bound ==> out.1@.len() == 0,
            final(self)@ == old(self)@.absorbed(out.1@),
            views(out.0@) == forwarded(old(self)@.origin, out.1@),
    {
        let mut pushed: Vec<Emission> = Vec::new();
        let ghost mut batch: Seq<ProcessEmissionView> = Seq::empty();
        let mut polled: usize = 0;
        while polled < CHANNEL_CAPACITY
            invariant
                self.wf(),
                polled <= CHANNEL_CAPACITY,
                batch.len() <= polled,
                !old(self)@.bound ==> batch.len() == 0,
                self@ == old(self)@.absorbed(batch),
                views(pushed@) == forwarded(old(self)@.origin, batch),
            decreases CHANNEL_CAPACITY - polled,
        {
            match self.poll() {
                None => {
                    break ;
                },
                Some(emission) => {
                    proof {
                        lemma_batch_push(old(self)@.origin, batch, emission@);
                        lemma_batch_push(old(self)@.origin, Seq::empty(), emission@);
                    }
                    let out = self.absorb(emission);
                    proof {
                        assert(self@.log =~= old(self)@.log + logged(batch.push(emission@)));
                        batch = batch.push(emission@);
                    }
                    match out {
                        Some(wrapped) => pushed.push(wrapped),
                        None => {},
                    }
                },
            }
            polled = polled + 1;
        }
        (pushed, Ghost(batch))
    }
}

} // verus!
