//! The worker-pool state machine.
//!
//! A pool owns one queue of dispatch messages and a fixed set of worker
//! records.  The host program gives each worker record a real thread; the
//! thread repeatedly calls [`ThreadPool::dequeue`] and runs the task it is
//! handed, and the pool's owner calls [`ThreadPool::execute`] to enqueue work
//! and [`ThreadPool::begin_shutdown`] to enqueue one stop message per worker
//! before joining the threads.  Every state change lives here and is
//! verified; the threads themselves only drive these functions.

use vstd::prelude::*;

use std::collections::VecDeque;

verus! {

/// A dispatch message: either a task to run or the instruction to stop.
///
/// Stop instructions travel through the same queue as tasks, so a worker
/// only stops once everything enqueued before its stop message has been
/// taken by some worker.
pub enum Message<T> {
    NewTask(T),
    Stop,
}

/// The life cycle of one worker: it waits for a message, executes a task it
/// was handed, and returns to waiting, until it takes a stop message and
/// stops for good.
#[derive(Clone, Copy, PartialEq, Eq, Structural, Debug)]
pub enum WorkerState {
    Waiting,
    Executing,
    Stopped,
}

/// What one call to [`ThreadPool::dequeue`] handed the calling worker:
/// a task to run, the instruction to stop, or nothing because the queue
/// was empty.
pub enum Dequeued<T> {
    Run(T),
    Stop,
    Empty,
}

/// One worker record: a diagnostic identifier and the worker's current
/// state.  The identifier plays no part in routing.
pub struct Worker {
    id: usize,
    state: WorkerState,
}

impl Worker {
    /// The worker's diagnostic identifier.
    pub closed spec fn spec_id(self) -> usize {
        self.id
    }

    /// The worker's current state.
    pub closed spec fn spec_state(self) -> WorkerState {
        self.state
    }
}

/// How many of the listed workers have stopped.
spec fn count_stopped(s: Seq<WorkerState>) -> nat
    decreases s.len(),
{
    if s.len() == 0 {
        0
    } else {
        count_stopped(s.drop_last()) + (if s.last() is Stopped {
            1nat
        } else {
            0nat
        })
    }
}

/// A fixed-size worker pool over a single shared dispatch queue.
///
/// The ghost fields record the pool's history: every task `execute` ever
/// accepted, and every delivery a worker ever took, so that the contracts
/// can say that no task is lost or handed out twice.
pub struct ThreadPool<T> {
    queue: VecDeque<Message<T>>,
    workers: Vec<Worker>,
    shut: bool,
    all_submitted: Ghost<Seq<T>>,
    all_delivered: Ghost<Seq<(usize, T)>>,
    task_queue: Ghost<Seq<T>>,
    stop_count: Ghost<nat>,
}

impl<T> ThreadPool<T> {
    /// How many workers the pool was built with.
    pub closed spec fn num_workers(self) -> nat {
        self.workers@.len()
    }

    /// Every task `execute` ever accepted, in submission order.
    pub closed spec fn submitted(self) -> Seq<T> {
        self.all_submitted@
    }

    /// Every delivery so far: which worker took which task, in delivery
    /// order.
    pub closed spec fn delivered(self) -> Seq<(usize, T)> {
        self.all_delivered@
    }

    /// The tasks delivered so far, without the worker that took each.
    pub open spec fn delivered_tasks(self) -> Seq<T> {
        self.delivered().map_values(|d: (usize, T)| d.1)
    }

    /// The tasks still queued, oldest first.
    pub closed spec fn queued(self) -> Seq<T> {
        self.task_queue@
    }

    /// How many stop messages are still queued.
    pub closed spec fn stops_queued(self) -> nat {
        self.stop_count@
    }

    /// Whether shutdown has begun.
    pub closed spec fn is_shut(self) -> bool {
        self.shut
    }

    /// The state of worker `w`.
    pub closed spec fn worker_state(self, w: int) -> WorkerState {
        self.workers@[w].spec_state()
    }

    /// How many workers have stopped.
    pub closed spec fn stopped_count(self) -> nat {
        count_stopped(self.states())
    }

    /// The states of all workers, in order of their identifiers.
    closed spec fn states(self) -> Seq<WorkerState> {
        self.workers@.map_values(|r: Worker| r.spec_state())
    }

    /// Well-formedness of the pool.  It ties the queue to its ghost
    /// history: the queue holds the still-pending tasks, oldest first,
    /// followed by the still-pending stop messages; the submission history
    /// is exactly the delivery history followed by the pending tasks; stop
    /// messages exist only after shutdown, one for each worker that has not
    /// yet stopped; and a worker only ever stops after shutdown, once the
    /// tasks ahead of its stop message have all been taken.
    pub closed spec fn wf(self) -> bool {
        &&& self.workers@.len() > 0
        &&& self.queue@ == self.task_queue@.map_values(|t: T| Message::NewTask(t)) + Seq::new(
            self.stop_count@,
            |i: int| Message::Stop,
        )
        &&& self.all_submitted@ == self.all_delivered@.map_values(|d: (usize, T)| d.1)
            + self.task_queue@
        &&& (self.shut ==> self.stop_count@ + count_stopped(self.states()) == self.workers@.len())
        &&& (!self.shut ==> self.stop_count@ == 0 && count_stopped(self.states()) == 0)
        &&& (count_stopped(self.states()) > 0 ==> self.shut && self.task_queue@.len() == 0)
        &&& (forall|i: int|
            0 <= i < self.all_delivered@.len() ==> (#[trigger] self.all_delivered@[i]).0
                < self.workers@.len())
        &&& (forall|w: int|
            0 <= w < self.workers@.len() ==> (#[trigger] self.workers@[w]).spec_id() == w)
    }

    /// Create a pool with `size` workers, all waiting, and an empty queue.
    ///
    /// A pool with zero workers could never make progress, so a positive
    /// size is a precondition rather than a runtime error.
    pub fn new(size: usize) -> (p: ThreadPool<T>)
        requires
            size > 0,
        ensures
            p.wf(),
            p.num_workers() == size,
            forall|w: int| 0 <= w < size ==> p.worker_state(w) is Waiting,
            p.submitted() == Seq::<T>::empty(),
            p.delivered() == Seq::<(usize, T)>::empty(),
            p.queued() == Seq::<T>::empty(),
            p.stops_queued() == 0,
            !p.is_shut(),
    {
        let mut workers: Vec<Worker> = Vec::new();
        let mut w: usize = 0;
        while w < size
            invariant
                w <= size,
                workers@.len() == w,
                forall|i: int| 0 <= i < w ==> (#[trigger] workers@[i]).spec_state() is Waiting,
                forall|i: int| 0 <= i < w ==> (#[trigger] workers@[i]).spec_id() == i,
            decreases size - w,
        {
            workers.push(Worker { id: w, state: WorkerState::Waiting });
            w = w + 1;
        }
        let p = ThreadPool {
            queue: VecDeque::new(),
            workers,
            shut: false,
            all_submitted: Ghost(Seq::empty()),
            all_delivered: Ghost(Seq::empty()),
            task_queue: Ghost(Seq::empty()),
            stop_count: Ghost(0nat),
        };
        proof {
            assert(p.queue@ =~= p.task_queue@.map_values(|t: T| Message::NewTask(t)) + Seq::new(
                p.stop_count@,
                |i: int| Message::Stop,
            ));
            assert(p.all_submitted@ =~= p.all_delivered@.map_values(|d: (usize, T)| d.1)
                + p.task_queue@);
            lemma_count_no_stopped(p.states());
        }
        p
    }

    /// Enqueue `task` for execution by some worker.
    ///
    /// Never blocks: the queue is unbounded, so before shutdown every call
    /// succeeds at once.  After shutdown has begun the task is refused and
    /// handed back unchanged, and the pool is left exactly as it was.
    pub fn execute(&mut self, task: T) -> (r: Result<(), T>)
        requires
            old(self).wf(),
        ensures
            final(self).wf(),
            r is Ok <==> !old(self).is_shut(),
            !old(self).is_shut() ==> final(self).queued() == old(self).queued().push(task)
                && final(self).submitted() == old(self).submitted().push(task),
            old(self).is_shut() ==> r == Result::<(), T>::Err(task) && *final(self) == *old(self),
            final(self).is_shut() == old(self).is_shut(),
            final(self).delivered() == old(self).delivered(),
            final(self).stops_queued() == old(self).stops_queued(),
            final(self).num_workers() == old(self).num_workers(),
            forall|w: int|
                0 <= w < old(self).num_workers() ==> final(self).worker_state(w) == old(
                    self,
                ).worker_state(w),
    {
        if self.shut {
            return Err(task);
        }
        let ghost t = task;
        self.queue.push_back(Message::NewTask(task));
        proof {
            self.all_submitted@ = self.all_submitted@.push(t);
            self.task_queue@ = self.task_queue@.push(t);
            assert(self.queue@ =~= self.task_queue@.map_values(|x: T| Message::NewTask(x))
                + Seq::new(self.stop_count@, |i: int| Message::Stop));
            assert(self.all_submitted@ =~= self.all_delivered@.map_values(|d: (usize, T)| d.1)
                + self.task_queue@);
        }
        Ok(())
    }

    /// Begin the one-time shutdown: enqueue exactly one stop message per
    /// worker, behind everything already queued.  Returns at once; the host
    /// joins the worker threads afterwards, and
    /// [`lemma_drained_when_all_stopped`] says what holds once every worker
    /// has taken its stop message.
    pub fn begin_shutdown(&mut self)
        requires
            old(self).wf(),
            !old(self).is_shut(),
        ensures
            final(self).wf(),
            final(self).is_shut(),
            final(self).stops_queued() == final(self).num_workers(),
            final(self).num_workers() == old(self).num_workers(),
            final(self).submitted() == old(self).submitted(),
            final(self).delivered() == old(self).delivered(),
            final(self).queued() == old(self).queued(),
            forall|w: int|
                0 <= w < old(self).num_workers() ==> final(self).worker_state(w) == old(
                    self,
                ).worker_state(w),
    {
        let ghost pre = *self;
        self.shut = true;
        let n = self.workers.len();
        let mut i: usize = 0;
        while i < n
            invariant
                i <= n,
                n == pre.workers@.len(),
                self.workers == pre.workers,
                self.shut,
                self.all_submitted == pre.all_submitted,
                self.all_delivered == pre.all_delivered,
                self.task_queue == pre.task_queue,
                self.stop_count@ == i,
                self.queue@ == self.task_queue@.map_values(|t: T| Message::NewTask(t)) + Seq::new(
                    i as nat,
                    |k: int| Message::Stop,
                ),
            decreases n - i,
        {
            self.queue.push_back(Message::Stop);
            proof {
                self.stop_count@ = self.stop_count@ + 1;
                assert(self.queue@ =~= self.task_queue@.map_values(|t: T| Message::NewTask(t))
                    + Seq::new(self.stop_count@, |k: int| Message::Stop));
            }
            i = i + 1;
        }
        proof {
            assert(self.states() == pre.states());
        }
    }

    /// Take the next message off the queue for worker `w`, which must be
    /// waiting.  The head of the queue — always the oldest still-queued
    /// task, if any is queued — is handed to `w` and to no one else; a stop
    /// message stops `w` for good; an empty queue leaves `w` waiting.
    pub fn dequeue(&mut self, w: usize) -> (r: Dequeued<T>)
        requires
            old(self).wf(),
            w < old(self).num_workers(),
            old(self).worker_state(w as int) is Waiting,
        ensures
            final(self).wf(),
            final(self).num_workers() == old(self).num_workers(),
            final(self).submitted() == old(self).submitted(),
            final(self).is_shut() == old(self).is_shut(),
            forall|v: int|
                0 <= v < old(self).num_workers() && v != w ==> final(self).worker_state(v) == old(
                    self,
                ).worker_state(v),
            match r {
                Dequeued::Run(t) => {
                    &&& old(self).queued().len() > 0
                    &&& t == old(self).queued()[0]
                    &&& final(self).queued() == old(self).queued().drop_first()
                    &&& final(self).delivered() == old(self).delivered().push((w, t))
                    &&& final(self).worker_state(w as int) is Executing
                    &&& final(self).stops_queued() == old(self).stops_queued()
                },
                Dequeued::Stop => {
                    &&& old(self).queued().len() == 0
                    &&& old(self).stops_queued() > 0
                    &&& old(self).is_shut()
                    &&& final(self).stops_queued() == old(self).stops_queued() - 1
                    &&& final(self).worker_state(w as int) is Stopped
                    &&& final(self).queued() == old(self).queued()
                    &&& final(self).delivered() == old(self).delivered()
                },
                Dequeued::Empty => {
                    &&& old(self).queued().len() == 0
                    &&& old(self).stops_queued() == 0
                    &&& final(self).queued() == old(self).queued()
                    &&& final(self).delivered() == old(self).delivered()
                    &&& final(self).stops_queued() == old(self).stops_queued()
                    &&& final(self).worker_state(w as int) == old(self).worker_state(w as int)
                },
            },
    {
        let ghost pre = *self;
        match self.queue.pop_front() {
            None => Dequeued::Empty,
            Some(Message::NewTask(t)) => {
                let ghost t0 = t;
                proof {
                    assert(pre.task_queue@.len() > 0);
                }
                self.workers[w].state = WorkerState::Executing;
                proof {
                    self.task_queue@ = self.task_queue@.drop_first();
                    self.all_delivered@ = self.all_delivered@.push((w, t0));
                    assert(self.workers@ =~= pre.workers@.update(
                        w as int,
                        self.workers@[w as int],
                    ));
                    assert(self.states() =~= pre.states().update(
                        w as int,
                        WorkerState::Executing,
                    ));
                    lemma_count_update(pre.states(), w as int, WorkerState::Executing);
                    assert(self.queue@ =~= self.task_queue@.map_values(|x: T| Message::NewTask(x))
                        + Seq::new(self.stop_count@, |k: int| Message::Stop));
                    assert(self.all_submitted@ =~= self.all_delivered@.map_values(
                        |d: (usize, T)| d.1,
                    ) + self.task_queue@);
                }
                Dequeued::Run(t)
            },
            Some(Message::Stop) => {
                proof {
                    assert(pre.task_queue@.len() == 0);
                    assert(pre.stop_count@ > 0);
                }
                self.workers[w].state = WorkerState::Stopped;
                proof {
                    self.stop_count@ = (self.stop_count@ - 1) as nat;
                    assert(self.workers@ =~= pre.workers@.update(
                        w as int,
                        self.workers@[w as int],
                    ));
                    assert(self.states() =~= pre.states().update(w as int, WorkerState::Stopped));
                    lemma_count_update(pre.states(), w as int, WorkerState::Stopped);
                    assert(self.queue@ =~= self.task_queue@.map_values(|x: T| Message::NewTask(x))
                        + Seq::new(self.stop_count@, |k: int| Message::Stop));
                }
                Dequeued::Stop
            },
        }
    }

    /// Record that worker `w` finished the task it was executing and is
    /// waiting for the next message again.
    pub fn task_done(&mut self, w: usize)
        requires
            old(self).wf(),
            w < old(self).num_workers(),
            old(self).worker_state(w as int) is Executing,
        ensures
            final(self).wf(),
            final(self).worker_state(w as int) is Waiting,
            final(self).num_workers() == old(self).num_workers(),
            final(self).submitted() == old(self).submitted(),
            final(self).delivered() == old(self).delivered(),
            final(self).queued() == old(self).queued(),
            final(self).stops_queued() == old(self).stops_queued(),
            final(self).is_shut() == old(self).is_shut(),
            forall|v: int|
                0 <= v < old(self).num_workers() && v != w ==> final(self).worker_state(v) == old(
                    self,
                ).worker_state(v),
    {
        let ghost pre = *self;
        self.workers[w].state = WorkerState::Waiting;
        proof {
            assert(self.workers@ =~= pre.workers@.update(w as int, self.workers@[w as int]));
            assert(self.states() =~= pre.states().update(w as int, WorkerState::Waiting));
            lemma_count_update(pre.states(), w as int, WorkerState::Waiting);
        }
    }

    /// The number of workers the pool was built with.
    pub fn size(&self) -> (r: usize)
        ensures
            r == self.num_workers(),
    {
        self.workers.len()
    }

    /// The current state of worker `w`.
    pub fn state_of(&self, w: usize) -> (r: WorkerState)
        requires
            w < self.num_workers(),
        ensures
            r == self.worker_state(w as int),
    {
        self.workers[w].state
    }

    /// The diagnostic identifier of worker `w`.
    pub fn worker_id(&self, w: usize) -> (r: usize)
        requires
            self.wf(),
            w < self.num_workers(),
        ensures
            r == w,
    {
        self.workers[w].id
    }

    /// Whether shutdown has begun.
    pub fn shut_down(&self) -> (r: bool)
        ensures
            r == self.is_shut(),
    {
        self.shut
    }

    /// How many messages — tasks and stop messages together — are queued.
    pub fn queue_len(&self) -> (r: usize)
        requires
            self.wf(),
        ensures
            r == self.queued().len() + self.stops_queued(),
    {
        self.queue.len()
    }
}

/// Law: no task is lost and none is handed out twice.  Whatever was
/// submitted so far is exactly the deliveries made so far — each to a
/// single worker — followed by the tasks still queued, in submission
/// order.  This holds however calls to `execute`, `dequeue` and
/// `task_done` interleave, so the total delivered never exceeds, and on a
/// drained queue equals, the total submitted.
pub proof fn lemma_tasks_conserved<T>(p: ThreadPool<T>)
    requires
        p.wf(),
    ensures
        p.submitted() == p.delivered_tasks() + p.queued(),
        forall|i: int|
            0 <= i < p.delivered().len() ==> (#[trigger] p.delivered()[i]).0 < p.num_workers(),
{
}

/// Law: once every worker has stopped, nothing is left behind.  The queue
/// holds no task and no stop message, and every task ever submitted was
/// delivered to exactly one worker.  Joining the worker threads after
/// shutdown therefore cannot abandon queued or in-flight work.
pub proof fn lemma_drained_when_all_stopped<T>(p: ThreadPool<T>)
    requires
        p.wf(),
        forall|w: int| 0 <= w < p.num_workers() ==> p.worker_state(w) is Stopped,
    ensures
        p.queued().len() == 0,
        p.stops_queued() == 0,
        p.delivered_tasks() == p.submitted(),
{
    assert forall|i: int| 0 <= i < p.states().len() implies (#[trigger] p.states()[i]) is Stopped by {
        assert(p.worker_state(i) is Stopped);
    }
    lemma_count_all_stopped(p.states());
    assert(p.delivered_tasks() + p.queued() =~= p.delivered_tasks());
}

/// Law: one stop per worker.  A worker never stops before shutdown has
/// begun, and from the moment shutdown begins, the stop messages still
/// queued and the workers already stopped always add up to the full worker
/// count — so each worker has exactly one stop message to take.
pub proof fn lemma_one_stop_per_worker<T>(p: ThreadPool<T>)
    requires
        p.wf(),
    ensures
        p.is_shut() ==> p.stops_queued() + p.stopped_count() == p.num_workers(),
        !p.is_shut() ==> p.stopped_count() == 0 && p.stops_queued() == 0,
{
}

/// Law: a stopped worker means shutdown had begun and the task queue was
/// already drained — a stop message is only ever taken once no task is
/// queued ahead of it.
pub proof fn lemma_stopped_only_after_shutdown<T>(p: ThreadPool<T>, w: int)
    requires
        p.wf(),
        0 <= w < p.num_workers(),
        p.worker_state(w) is Stopped,
    ensures
        p.is_shut(),
        p.queued().len() == 0,
{
    lemma_count_positive(p.states(), w);
}

/// Law: queued work keeps every worker alive.  While any task is still
/// queued, no worker has stopped, so submitting more tasks than there are
/// workers cannot strand them: each remains able to take the next one.
pub proof fn lemma_no_worker_stops_while_work_queued<T>(p: ThreadPool<T>)
    requires
        p.wf(),
        p.queued().len() > 0,
    ensures
        forall|w: int| 0 <= w < p.num_workers() ==> !(p.worker_state(w) is Stopped),
{
    assert forall|w: int| 0 <= w < p.num_workers() implies !(p.worker_state(w) is Stopped) by {
        if p.worker_state(w) is Stopped {
            lemma_count_positive(p.states(), w);
        }
    }
}

/// Changing one worker's state changes the stopped count by the difference
/// the two states make.
proof fn lemma_count_update(s: Seq<WorkerState>, i: int, v: WorkerState)
    requires
        0 <= i < s.len(),
    ensures
        count_stopped(s.update(i, v)) + (if s[i] is Stopped {
            1nat
        } else {
            0nat
        }) == count_stopped(s) + (if v is Stopped {
            1nat
        } else {
            0nat
        }),
    decreases s.len(),
{
    if i == s.len() - 1 {
        assert(s.update(i, v).drop_last() =~= s.drop_last());
    } else {
        assert(s.update(i, v).drop_last() =~= s.drop_last().update(i, v));
        lemma_count_update(s.drop_last(), i, v);
    }
}

/// Every worker in the list has stopped, so the stopped count is the
/// length.
proof fn lemma_count_all_stopped(s: Seq<WorkerState>)
    requires
        forall|i: int| 0 <= i < s.len() ==> (#[trigger] s[i]) is Stopped,
    ensures
        count_stopped(s) == s.len(),
    decreases s.len(),
{
    if s.len() > 0 {
        lemma_count_all_stopped(s.drop_last());
    }
}

/// A stopped worker makes the stopped count positive.
proof fn lemma_count_positive(s: Seq<WorkerState>, i: int)
    requires
        0 <= i < s.len(),
        s[i] is Stopped,
    ensures
        count_stopped(s) > 0,
    decreases s.len(),
{
    if i < s.len() - 1 {
        lemma_count_positive(s.drop_last(), i);
    }
}

/// No worker in the list has stopped, so the stopped count is zero.
proof fn lemma_count_no_stopped(s: Seq<WorkerState>)
    requires
        forall|i: int| 0 <= i < s.len() ==> !((#[trigger] s[i]) is Stopped),
    ensures
        count_stopped(s) == 0,
    decreases s.len(),
{
    if s.len() > 0 {
        lemma_count_no_stopped(s.drop_last());
    }
}

} // verus!
