//! The scheduler's state machine.
//!
//! Strict round robin over a first-in-first-out ready queue, with an idle thread of its own, a
//! tick count and the reaping of threads that have exited. Nothing in here depends on a machine:
//! contexts, stacks and interrupts are the caller's business.
//!
//! What every operation keeps ([`Scheduler::well_formed`]):
//! * the ready queue holds exactly the `Ready` threads other than the idle thread, each once;
//! * at most one thread is `Running`; it is the current one and not in the queue;
//! * the idle thread is `Ready` or `Running`, never queued and never reaped.

use vstd::prelude::*;
use vstd::string::*;

use crate::laws::sched::law_the_first_of_the_queue_runs;
use crate::text::{decimal, push_decimal};

verus! {

/// Size of the thread table.
pub const MAX_THREADS: usize = 16;

/// No thread.
pub const NO_THREAD: usize = usize::MAX;

/// State of a thread.
#[derive(Clone, Copy, PartialEq, Eq, Structural, Debug)]
pub enum ThreadState {
    /// The slot is empty.
    Unused,
    /// Waiting for the processor.
    Ready,
    /// On the processor.
    Running,
    /// Finished; its stack waits to be reclaimed.
    Exited,
}

/// Kind of a thread.
#[derive(Clone, Copy, PartialEq, Eq, Structural, Debug)]
pub enum ThreadKind {
    /// An ordinary kernel thread.
    Normal,
    /// Runs only when no other thread is ready.
    Idle,
    /// The context the kernel was started in.
    Boot,
}

/// Why the scheduler refused.
#[derive(Clone, Copy, PartialEq, Eq, Structural, Debug)]
pub enum SchedError {
    /// The thread table is full.
    NoFreeSlot,
    /// No such thread, or its slot is taken.
    InvalidId(usize),
    /// No boot context was registered.
    NoCurrentThread,
    /// There is an idle thread already.
    IdleAlreadyRegistered,
    /// No other thread is ready and there is no idle thread.
    NothingToRun,
}

impl SchedError {
    /// The message of this error.
    pub open spec fn message(self) -> Seq<char> {
        match self {
            SchedError::NoFreeSlot => "线程表已满（"@ + decimal(MAX_THREADS as nat) + " 项）"@,
            SchedError::InvalidId(id) => "非法线程号 "@ + decimal(id as nat),
            SchedError::NoCurrentThread => "尚未登记引导上下文"@,
            SchedError::IdleAlreadyRegistered => "空闲线程已经登记过"@,
            SchedError::NothingToRun => "没有任何可运行的线程（也没有空闲线程）"@,
        }
    }

    /// The message of this error.
    #[must_use]
    pub fn to_string(&self) -> (text: String)
        ensures
            text@ == self.message(),
    {
        let mut text = String::new();
        match *self {
            Self::NoFreeSlot => {
                text.append("线程表已满（");
                push_decimal(&mut text, MAX_THREADS as u64);
                text.append(" 项）");
            },
            Self::InvalidId(id) => {
                text.append("非法线程号 ");
                push_decimal(&mut text, id as u64);
            },
            Self::NoCurrentThread => text.append("尚未登记引导上下文"),
            Self::IdleAlreadyRegistered => text.append("空闲线程已经登记过"),
            Self::NothingToRun => text.append("没有任何可运行的线程（也没有空闲线程）"),
        }
        text
    }
}

/// A scheduling decision.
#[derive(Clone, Copy, PartialEq, Eq, Structural, Debug)]
pub enum Decision {
    /// The current thread goes on.
    Keep,
    /// Switch to `to`; the scheduler's state has changed already.
    Switch {
        /// The thread that leaves the processor.
        from: usize,
        /// The thread that gets it.
        to: usize,
    },
}

/// Statistics.
#[derive(Clone, Copy, PartialEq, Eq, Structural, Debug)]
pub struct SchedStats {
    /// Ticks so far.
    pub ticks: u64,
    /// Context switches so far.
    pub switches: u64,
    /// Length of the ready queue.
    pub ready: usize,
    /// Number of slots in use.
    pub live: usize,
}

impl Default for SchedStats {
    fn default() -> (stats: Self)
        ensures
            stats == (SchedStats { ticks: 0, switches: 0, ready: 0, live: 0 }),
    {
        SchedStats { ticks: 0, switches: 0, ready: 0, live: 0 }
    }
}

/// The scheduler.
pub struct Scheduler {
    /// State of each thread.
    pub(crate) states: [ThreadState; MAX_THREADS],
    /// Kind of each thread.
    pub(crate) kinds: [ThreadKind; MAX_THREADS],
    /// The ready queue, a ring buffer.
    pub(crate) queue: [usize; MAX_THREADS],
    /// Where the queue starts in the ring.
    pub(crate) head: usize,
    /// Length of the queue.
    pub(crate) len: usize,
    /// The current thread; [`NO_THREAD`] before one is registered.
    pub(crate) current: usize,
    /// The idle thread; [`NO_THREAD`] before one is registered.
    pub(crate) idle: usize,
    /// Ticks so far.
    pub(crate) ticks: u64,
    /// Context switches so far.
    pub(crate) switches: u64,
}

/// Number of slots in use among the first `n`.
pub open spec fn live_among(states: Seq<ThreadState>, n: int) -> int
    decreases n,
{
    if n <= 0 {
        0
    } else {
        live_among(states, n - 1) + (if states[n - 1] == ThreadState::Unused { 0int } else { 1 })
    }
}

impl Scheduler {
    /// State of each thread.
    pub open(crate) spec fn states(&self) -> [ThreadState; MAX_THREADS] {
        self.states
    }

    /// Kind of each thread.
    pub open(crate) spec fn kinds(&self) -> [ThreadKind; MAX_THREADS] {
        self.kinds
    }

    /// The current thread; [`NO_THREAD`] before one is registered.
    pub open(crate) spec fn current_id(&self) -> usize {
        self.current
    }

    /// The idle thread; [`NO_THREAD`] before one is registered.
    pub open(crate) spec fn idle_id(&self) -> usize {
        self.idle
    }

    /// Ticks so far.
    pub open(crate) spec fn tick_count(&self) -> u64 {
        self.ticks
    }

    /// Context switches so far.
    pub open(crate) spec fn switch_count(&self) -> u64 {
        self.switches
    }

    /// The ready queue, first thread first.
    pub open(crate) spec fn ready(&self) -> Seq<usize> {
        Seq::new(self.len as nat, |i: int| self.queue@[(self.head + i) % MAX_THREADS as int])
    }

    /// What every operation keeps.
    pub open(crate) spec fn well_formed(&self) -> bool {
        &&& self.head < MAX_THREADS
        &&& self.len <= MAX_THREADS
        &&& self.ready().no_duplicates()
        &&& forall|i: int| 0 <= i < self.len ==> #[trigger] self.ready()[i] < MAX_THREADS
        &&& forall|id: usize|
            id < MAX_THREADS ==> (#[trigger] self.ready().contains(id) <==> self.states@[id as int]
                == ThreadState::Ready && id != self.idle)
        &&& self.current == NO_THREAD || (self.current < MAX_THREADS && (
        self.states@[self.current as int] == ThreadState::Running
            || self.states@[self.current as int] == ThreadState::Exited))
        &&& forall|id: int|
            0 <= id < MAX_THREADS && #[trigger] self.states@[id] == ThreadState::Running ==> id
                == self.current
        &&& self.idle == NO_THREAD || (self.idle < MAX_THREADS && (self.states@[self.idle as int]
            == ThreadState::Ready || self.states@[self.idle as int] == ThreadState::Running))
        &&& forall|id: int|
            0 <= id < MAX_THREADS ==> (#[trigger] self.kinds@[id] == ThreadKind::Idle <==> id
                == self.idle)
    }

    /// Whether `other` has the same tick and switch counts.
    pub open(crate) spec fn same_counts(&self, other: &Scheduler) -> bool {
        self.ticks == other.ticks && self.switches == other.switches
    }

    /// A new scheduler: no thread, nothing running.
    #[must_use]
    pub fn new() -> (sched: Self)
        ensures
            sched.well_formed(),
            forall|i: int|
                0 <= i < MAX_THREADS ==> #[trigger] sched.states()@[i] == ThreadState::Unused,
            forall|i: int|
                0 <= i < MAX_THREADS ==> #[trigger] sched.kinds()@[i] == ThreadKind::Normal,
            sched.ready() == Seq::<usize>::empty(),
            sched.current_id() == NO_THREAD,
            sched.idle_id() == NO_THREAD,
            sched.tick_count() == 0,
            sched.switch_count() == 0,
    {
        let sched = Self {
            states: [ThreadState::Unused; MAX_THREADS],
            kinds: [ThreadKind::Normal; MAX_THREADS],
            queue: [NO_THREAD; MAX_THREADS],
            head: 0,
            len: 0,
            current: NO_THREAD,
            idle: NO_THREAD,
            ticks: 0,
            switches: 0,
        };
        sched
    }

    /// Whether `other` has the same current thread, idle thread and kinds.
    pub open(crate) spec fn same_roles(&self, other: &Scheduler) -> bool {
        self.current == other.current && self.idle == other.idle && self.kinds@ == other.kinds@
    }

    /// Whether a current thread that gives up the processor makes way for another one.
    pub open(crate) spec fn turns(&self) -> bool {
        self.current != NO_THREAD && self.ready().len() > 0
    }

    /// What giving up the processor does: the current thread goes to the end of the queue and the
    /// first thread of the queue runs. With an empty queue, or before a current thread is
    /// registered, nothing changes. The idle thread is not queued, and a thread that has exited
    /// stays so.
    pub open(crate) spec fn rotated(&self, before: &Scheduler, decision: Decision) -> bool {
        let from = before.current;
        if !before.turns() {
            &&& decision == Decision::Keep
            &&& self.states@ == before.states@
            &&& self.ready() == before.ready()
            &&& self.same_roles(before)
            &&& self.switches == before.switches
        } else {
            let to = before.ready()[0];
            let was_running = before.states@[from as int] == ThreadState::Running;
            let left = if was_running {
                before.states@.update(from as int, ThreadState::Ready)
            } else {
                before.states@
            };
            let queue = if was_running && from != before.idle {
                before.ready().push(from)
            } else {
                before.ready()
            };
            &&& decision == Decision::Switch { from, to }
            &&& self.states@ == left.update(to as int, ThreadState::Running)
            &&& self.ready() == queue.skip(1)
            &&& self.current == to
            &&& self.idle == before.idle
            &&& self.kinds@ == before.kinds@
            &&& self.switches == before.switches + 1
        }
    }

    /// Registers the boot context: it runs from the start and is not queued.
    ///
    /// # Errors
    /// [`SchedError::InvalidId`] if there is no such slot, if it is taken, or if a boot context
    /// is registered already; nothing has changed then.
    pub fn register_boot(&mut self, id: usize) -> (result: Result<(), SchedError>)
        requires
            old(self).well_formed(),
        ensures
            final(self).well_formed(),
            match result {
                Ok(()) => {
                    &&& id < MAX_THREADS
                    &&& old(self).current_id() == NO_THREAD
                    &&& old(self).states()@[id as int] == ThreadState::Unused
                    &&& final(self).states()@ == old(self).states()@.update(
                        id as int,
                        ThreadState::Running,
                    )
                    &&& final(self).kinds()@ == old(self).kinds()@.update(id as int, ThreadKind::Boot)
                    &&& final(self).current_id() == id
                    &&& final(self).idle_id() == old(self).idle_id()
                    &&& final(self).ready() == old(self).ready()
                    &&& final(self).same_counts(old(self))
                    &&& final(self).tick_count() == old(self).tick_count()
                    &&& final(self).switch_count() == old(self).switch_count()
                },
                Err(error) => {
                    &&& error == SchedError::InvalidId(id)
                    &&& id >= MAX_THREADS || old(self).current_id() != NO_THREAD || old(
                        self,
                    ).states()@[id as int] != ThreadState::Unused
                    &&& *final(self) == *old(self)
                },
            },
    {
        if id >= MAX_THREADS {
            return Err(SchedError::InvalidId(id));
        }
        if self.current != NO_THREAD || self.states[id] != ThreadState::Unused {
            return Err(SchedError::InvalidId(id));
        }
        self.states[id] = ThreadState::Running;
        self.kinds[id] = ThreadKind::Boot;
        self.current = id;
        assert(self.ready() =~= old(self).ready());
        Ok(())
    }

    /// Registers the idle thread: it is ready, but never queued.
    ///
    /// # Errors
    /// [`SchedError::InvalidId`] if there is no such slot or it is taken, and
    /// [`SchedError::IdleAlreadyRegistered`]; nothing has changed then.
    pub fn register_idle(&mut self, id: usize) -> (result: Result<(), SchedError>)
        requires
            old(self).well_formed(),
        ensures
            final(self).well_formed(),
            match result {
                Ok(()) => {
                    &&& id < MAX_THREADS
                    &&& old(self).idle_id() == NO_THREAD
                    &&& old(self).states()@[id as int] == ThreadState::Unused
                    &&& final(self).states()@ == old(self).states()@.update(
                        id as int,
                        ThreadState::Ready,
                    )
                    &&& final(self).kinds()@ == old(self).kinds()@.update(id as int, ThreadKind::Idle)
                    &&& final(self).idle_id() == id
                    &&& final(self).current_id() == old(self).current_id()
                    &&& final(self).ready() == old(self).ready()
                    &&& final(self).same_counts(old(self))
                    &&& final(self).tick_count() == old(self).tick_count()
                    &&& final(self).switch_count() == old(self).switch_count()
                },
                Err(error) => {
                    &&& error == (if id < MAX_THREADS && old(self).idle_id() != NO_THREAD {
                        SchedError::IdleAlreadyRegistered
                    } else {
                        SchedError::InvalidId(id)
                    })
                    &&& id >= MAX_THREADS || old(self).idle_id() != NO_THREAD || old(
                        self,
                    ).states()@[id as int] != ThreadState::Unused
                    &&& *final(self) == *old(self)
                },
            },
    {
        if id >= MAX_THREADS {
            return Err(SchedError::InvalidId(id));
        }
        if self.idle != NO_THREAD {
            return Err(SchedError::IdleAlreadyRegistered);
        }
        if self.states[id] != ThreadState::Unused {
            return Err(SchedError::InvalidId(id));
        }
        self.states[id] = ThreadState::Ready;
        self.kinds[id] = ThreadKind::Idle;
        self.idle = id;
        assert(self.ready() =~= old(self).ready());
        Ok(())
    }

    /// Creates an ordinary thread in the lowest empty slot and queues it.
    ///
    /// # Errors
    /// [`SchedError::NoFreeSlot`] if the table is full; nothing has changed then.
    pub fn create(&mut self) -> (result: Result<usize, SchedError>)
        requires
            old(self).well_formed(),
        ensures
            final(self).well_formed(),
            match result {
                Ok(id) => {
                    &&& id < MAX_THREADS
                    &&& old(self).states()@[id as int] == ThreadState::Unused
                    &&& forall|i: int|
                        0 <= i < id ==> #[trigger] old(self).states()@[i] != ThreadState::Unused
                    &&& final(self).states()@ == old(self).states()@.update(
                        id as int,
                        ThreadState::Ready,
                    )
                    &&& final(self).kinds()@ == old(self).kinds()@.update(id as int, ThreadKind::Normal)
                    &&& final(self).ready() == old(self).ready().push(id)
                    &&& final(self).current_id() == old(self).current_id()
                    &&& final(self).idle_id() == old(self).idle_id()
                    &&& final(self).same_counts(old(self))
                    &&& final(self).tick_count() == old(self).tick_count()
                    &&& final(self).switch_count() == old(self).switch_count()
                },
                Err(error) => {
                    &&& error == SchedError::NoFreeSlot
                    &&& forall|i: int|
                        0 <= i < MAX_THREADS ==> #[trigger] old(self).states()@[i]
                            != ThreadState::Unused
                    &&& *final(self) == *old(self)
                },
            },
    {
        match self.find(ThreadState::Unused, NO_THREAD) {
            None => Err(SchedError::NoFreeSlot),
            Some(id) => {
                proof {
                    lemma_room(self.ready(), id);
                }
                self.states[id] = ThreadState::Ready;
                self.kinds[id] = ThreadKind::Normal;
                assert(self.ready() =~= old(self).ready());
                self.enqueue(id);
                proof {
                    lemma_pushed(old(self).ready(), id);
                }
                Ok(id)
            },
        }
    }

    /// The lowest thread in the given state, other than `except`.
    fn find(&self, state: ThreadState, except: usize) -> (found: Option<usize>)
        ensures
            match found {
                Some(id) => {
                    &&& id < MAX_THREADS
                    &&& id != except
                    &&& self.states@[id as int] == state
                    &&& forall|i: int|
                        0 <= i < id && #[trigger] self.states@[i] == state ==> i == except
                },
                None => forall|i: int|
                    0 <= i < MAX_THREADS && #[trigger] self.states@[i] == state ==> i == except,
            },
    {
        let mut id: usize = 0;
        while id < MAX_THREADS
            invariant
                id <= MAX_THREADS,
                forall|i: int| 0 <= i < id && #[trigger] self.states@[i] == state ==> i == except,
            decreases MAX_THREADS - id,
        {
            if self.states[id] == state && id != except {
                return Some(id);
            }
            id = id + 1;
        }
        None
    }

    /// The current thread; [`NO_THREAD`] before one is registered.
    #[must_use]
    pub fn current(&self) -> (id: usize)
        ensures
            id == self.current_id(),
    {
        self.current
    }

    /// The idle thread; [`NO_THREAD`] before one is registered.
    #[must_use]
    pub fn idle(&self) -> (id: usize)
        ensures
            id == self.idle_id(),
    {
        self.idle
    }

    /// State of a thread.
    ///
    /// # Errors
    /// [`SchedError::InvalidId`] if there is no such slot.
    pub fn state(&self, id: usize) -> (state: Result<ThreadState, SchedError>)
        ensures
            state == (if id < MAX_THREADS {
                Ok(self.states()@[id as int])
            } else {
                Err(SchedError::InvalidId(id))
            }),
    {
        if id < MAX_THREADS {
            Ok(self.states[id])
        } else {
            Err(SchedError::InvalidId(id))
        }
    }

    /// Kind of a thread.
    ///
    /// # Errors
    /// [`SchedError::InvalidId`] if there is no such slot.
    pub fn kind(&self, id: usize) -> (kind: Result<ThreadKind, SchedError>)
        ensures
            kind == (if id < MAX_THREADS {
                Ok(self.kinds()@[id as int])
            } else {
                Err(SchedError::InvalidId(id))
            }),
    {
        if id < MAX_THREADS {
            Ok(self.kinds[id])
        } else {
            Err(SchedError::InvalidId(id))
        }
    }

    /// Statistics.
    #[must_use]
    pub fn stats(&self) -> (stats: SchedStats)
        ensures
            stats.ticks == self.tick_count(),
            stats.switches == self.switch_count(),
            stats.ready == self.ready().len(),
            stats.live == live_among(self.states()@, MAX_THREADS as int),
    {
        let mut live: usize = 0;
        let mut id: usize = 0;
        while id < MAX_THREADS
            invariant
                id <= MAX_THREADS,
                live <= id,
                live == live_among(self.states@, id as int),
            decreases MAX_THREADS - id,
        {
            if self.states[id] != ThreadState::Unused {
                live = live + 1;
            }
            id = id + 1;
        }
        SchedStats { ticks: self.ticks, switches: self.switches, ready: self.len, live }
    }

    /// The ready queue, first thread first.
    pub fn ready_queue(&self) -> (queue: Vec<usize>)
        requires
            self.well_formed(),
        ensures
            queue@ == self.ready(),
    {
        let mut queue: Vec<usize> = Vec::new();
        let mut i: usize = 0;
        while i < self.len
            invariant
                self.well_formed(),
                i <= self.len,
                queue@ == self.ready().take(i as int),
            decreases self.len - i,
        {
            queue.push(self.queue[(self.head + i) % MAX_THREADS]);
            i = i + 1;
            assert(queue@ =~= self.ready().take(i as int));
        }
        assert(self.ready().take(self.len as int) =~= self.ready());
        queue
    }

    /// Whether a thread is in the ready queue.
    pub fn queued(&self, id: usize) -> (result: bool)
        requires
            self.well_formed(),
        ensures
            result == self.ready().contains(id),
    {
        let mut i: usize = 0;
        while i < self.len
            invariant
                self.well_formed(),
                i <= self.len,
                forall|k: int| 0 <= k < i ==> #[trigger] self.ready()[k] != id,
            decreases self.len - i,
        {
            if self.queue[(self.head + i) % MAX_THREADS] == id {
                assert(self.ready()[i as int] == id);
                return true;
            }
            i = i + 1;
        }
        false
    }

    /// A timer interrupt: counts the tick, and gives the processor to the next thread if
    /// `reschedule` is set.
    pub fn on_tick(&mut self, reschedule: bool) -> (decision: Decision)
        requires
            old(self).well_formed(),
            old(self).tick_count() < u64::MAX,
            reschedule && old(self).turns() ==> old(self).switch_count() < u64::MAX,
        ensures
            final(self).well_formed(),
            final(self).tick_count() == old(self).tick_count() + 1,
            if reschedule {
                final(self).rotated(old(self), decision)
            } else {
                &&& decision == Decision::Keep
                &&& final(self).states()@ == old(self).states()@
                &&& final(self).ready() == old(self).ready()
                &&& final(self).same_roles(old(self))
                &&& final(self).current_id() == old(self).current_id()
                &&& final(self).idle_id() == old(self).idle_id()
                &&& final(self).kinds()@ == old(self).kinds()@
                &&& final(self).switch_count() == old(self).switch_count()
            },
            reschedule && old(self).current_id() != usize::MAX && old(self).ready().len() > 0 ==> {
                let (from, to) = (old(self).current_id(), old(self).ready()[0]);
                let queued = from != old(self).idle_id() && old(self).states()@[from as int]
                    == ThreadState::Running;
                &&& decision == Decision::Switch { from, to }
                &&& final(self).current_id() == to
                &&& final(self).switch_count() == old(self).switch_count() + 1
                &&& final(self).states()@[to as int] == ThreadState::Running
                &&& old(self).states()@[from as int] == ThreadState::Running
                    ==> final(self).states()@[from as int] == ThreadState::Ready
                &&& final(self).ready() == (if queued {
                    old(self).ready().skip(1).push(from)
                } else {
                    old(self).ready().skip(1)
                })
            },
            reschedule && (old(self).current_id() == usize::MAX || old(self).ready().len() == 0) ==> {
                &&& decision == Decision::Keep
                &&& final(self).current_id() == old(self).current_id()
                &&& final(self).ready() == old(self).ready()
            },
    {
        self.ticks = self.ticks + 1;
        assert(self.ready() =~= old(self).ready());
        if !reschedule {
            return Decision::Keep;
        }
        let ghost before = *self;
        let decision = self.rotate();
        proof {
            law_the_first_of_the_queue_runs(&before, self, decision, 0);
        }
        decision
    }

    /// The current thread gives up the processor.
    pub fn yield_current(&mut self) -> (decision: Decision)
        requires
            old(self).well_formed(),
            old(self).turns() ==> old(self).switch_count() < u64::MAX,
        ensures
            final(self).well_formed(),
            final(self).rotated(old(self), decision),
            final(self).tick_count() == old(self).tick_count(),
            old(self).current_id() != usize::MAX && old(self).ready().len() > 0 ==> {
                let (from, to) = (old(self).current_id(), old(self).ready()[0]);
                let queued = from != old(self).idle_id() && old(self).states()@[from as int]
                    == ThreadState::Running;
                &&& decision == Decision::Switch { from, to }
                &&& final(self).current_id() == to
                &&& final(self).switch_count() == old(self).switch_count() + 1
                &&& final(self).states()@[to as int] == ThreadState::Running
                &&& old(self).states()@[from as int] == ThreadState::Running
                    ==> final(self).states()@[from as int] == ThreadState::Ready
                &&& final(self).ready() == (if queued {
                    old(self).ready().skip(1).push(from)
                } else {
                    old(self).ready().skip(1)
                })
            },
            old(self).current_id() == usize::MAX || old(self).ready().len() == 0 ==> {
                &&& decision == Decision::Keep
                &&& final(self).current_id() == old(self).current_id()
                &&& final(self).ready() == old(self).ready()
            },
    {
        let decision = self.rotate();
        proof {
            law_the_first_of_the_queue_runs(old(self), self, decision, 0);
        }
        decision
    }

    /// The current thread ends; the next one is picked from the queue, or else the idle thread
    /// runs. The idle thread itself never ends: it only gives way.
    ///
    /// # Errors
    /// [`SchedError::NoCurrentThread`] before one is registered, and
    /// [`SchedError::NothingToRun`] if nothing is left to run; the thread has ended all the same.
    pub fn exit_current(&mut self) -> (result: Result<Decision, SchedError>)
        requires
            old(self).well_formed(),
            old(self).turns() || (old(self).current_id() != NO_THREAD && old(self).idle_id() != NO_THREAD)
                ==> old(self).switch_count() < u64::MAX,
        ensures
            final(self).well_formed(),
            final(self).idle_id() == old(self).idle_id(),
            final(self).kinds()@ == old(self).kinds()@,
            final(self).tick_count() == old(self).tick_count(),
            ({
                let from = old(self).current_id();
                let ended = old(self).states()@.update(
                    from as int,
                    if from == old(self).idle_id() {
                        ThreadState::Ready
                    } else {
                        ThreadState::Exited
                    },
                );
                if from == NO_THREAD {
                    &&& result == Err::<Decision, SchedError>(SchedError::NoCurrentThread)
                    &&& *final(self) == *old(self)
                } else if old(self).ready().len() == 0 && old(self).idle_id() == NO_THREAD {
                    &&& result == Err::<Decision, SchedError>(SchedError::NothingToRun)
                    &&& final(self).states()@ == ended
                    &&& final(self).ready() == old(self).ready()
                    &&& final(self).current_id() == from
                    &&& final(self).switch_count() == old(self).switch_count()
                } else {
                    let to = if old(self).ready().len() > 0 {
                        old(self).ready()[0]
                    } else {
                        old(self).idle_id()
                    };
                    &&& result == Ok::<Decision, SchedError>(Decision::Switch { from, to })
                    &&& final(self).states()@ == ended.update(to as int, ThreadState::Running)
                    &&& final(self).ready() == (if old(self).ready().len() > 0 {
                        old(self).ready().skip(1)
                    } else {
                        old(self).ready()
                    })
                    &&& final(self).current_id() == to
                    &&& final(self).switch_count() == old(self).switch_count() + 1
                }
            }),
    {
        let from: usize = self.current;
        if from == NO_THREAD {
            return Err(SchedError::NoCurrentThread);
        }
        self.states[from] = if from == self.idle {
            ThreadState::Ready
        } else {
            ThreadState::Exited
        };
        assert(self.ready() =~= old(self).ready());
        let to: usize = if self.len > 0 {
            let to: usize = self.dequeue();
            proof {
                lemma_popped(old(self).ready());
            }
            to
        } else if self.idle != NO_THREAD {
            self.idle
        } else {
            return Err(SchedError::NothingToRun);
        };
        let ghost queue = self.ready();
        self.states[to] = ThreadState::Running;
        self.current = to;
        self.switches = self.switches + 1;
        assert(self.ready() =~= queue);
        Ok(Decision::Switch { from, to })
    }

    /// Takes one thread that has ended: its slot is empty afterwards, and the caller reclaims its
    /// stack. The current thread is never taken.
    pub fn take_reapable(&mut self) -> (id: Option<usize>)
        requires
            old(self).well_formed(),
        ensures
            final(self).well_formed(),
            match id {
                Some(id) => {
                    &&& id < MAX_THREADS
                    &&& id != old(self).current_id()
                    &&& old(self).states()@[id as int] == ThreadState::Exited
                    &&& forall|i: int|
                        0 <= i < id && #[trigger] old(self).states()@[i] == ThreadState::Exited ==> i
                            == old(self).current_id()
                    &&& final(self).states()@ == old(self).states()@.update(
                        id as int,
                        ThreadState::Unused,
                    )
                    &&& final(self).kinds()@ == old(self).kinds()@.update(id as int, ThreadKind::Normal)
                    &&& final(self).ready() == old(self).ready()
                    &&& final(self).current_id() == old(self).current_id()
                    &&& final(self).idle_id() == old(self).idle_id()
                    &&& final(self).same_counts(old(self))
                    &&& final(self).tick_count() == old(self).tick_count()
                    &&& final(self).switch_count() == old(self).switch_count()
                },
                None => {
                    &&& forall|i: int|
                        0 <= i < MAX_THREADS && #[trigger] old(self).states()@[i]
                            == ThreadState::Exited ==> i == old(self).current_id()
                    &&& *final(self) == *old(self)
                },
            },
    {
        match self.find(ThreadState::Exited, self.current) {
            None => None,
            Some(id) => {
                self.states[id] = ThreadState::Unused;
                self.kinds[id] = ThreadKind::Normal;
                assert(self.ready() =~= old(self).ready());
                Some(id)
            },
        }
    }

    /// Puts the current thread at the end of the queue and runs the first of the queue.
    ///
    /// With an empty queue the current thread goes on: handing the processor to the idle thread
    /// would gain nothing.
    fn rotate(&mut self) -> (decision: Decision)
        requires
            old(self).well_formed(),
            old(self).turns() ==> old(self).switches < u64::MAX,
        ensures
            final(self).well_formed(),
            final(self).rotated(old(self), decision),
            final(self).ticks == old(self).ticks,
    {
        let from: usize = self.current;
        if from == NO_THREAD || self.len == 0 {
            return Decision::Keep;
        }
        let ghost before = self.ready();
        if self.states[from] == ThreadState::Running {
            // The idle thread leaves the processor too; it just does not queue up.
            self.states[from] = ThreadState::Ready;
            assert(self.ready() =~= before);
            if from != self.idle {
                proof {
                    assert(!before.contains(from));
                    lemma_room(before, from);
                    lemma_pushed(before, from);
                }
                self.enqueue(from);
            }
        }
        let ghost queue = self.ready();
        assert(queue[0] == before[0]);
        let to: usize = self.dequeue();
        proof {
            lemma_popped(queue);
            assert(before.contains(before[0]));
        }
        self.states[to] = ThreadState::Running;
        self.current = to;
        self.switches = self.switches + 1;
        assert(self.ready() =~= queue.skip(1));
        Decision::Switch { from, to }
    }

    /// Appends a thread to the queue.
    fn enqueue(&mut self, id: usize)
        requires
            old(self).head < MAX_THREADS,
            old(self).len < MAX_THREADS,
        ensures
            final(self).ready() == old(self).ready().push(id),
            final(self).head == old(self).head,
            final(self).len == old(self).len + 1,
            final(self).states == old(self).states,
            final(self).same_roles(old(self)),
            final(self).same_counts(old(self)),
    {
        self.queue[(self.head + self.len) % MAX_THREADS] = id;
        self.len = self.len + 1;
        assert(self.ready() =~= old(self).ready().push(id));
    }

    /// Removes the first thread of the queue.
    fn dequeue(&mut self) -> (id: usize)
        requires
            old(self).head < MAX_THREADS,
            0 < old(self).len <= MAX_THREADS,
        ensures
            id == old(self).ready()[0],
            final(self).ready() == old(self).ready().skip(1),
            final(self).head < MAX_THREADS,
            final(self).len == old(self).len - 1,
            final(self).states == old(self).states,
            final(self).same_roles(old(self)),
            final(self).same_counts(old(self)),
    {
        let id: usize = self.queue[self.head];
        self.queue[self.head] = NO_THREAD;
        self.head = (self.head + 1) % MAX_THREADS;
        self.len = self.len - 1;
        assert(self.ready() =~= old(self).ready().skip(1));
        id
    }
}

impl Default for Scheduler {
    fn default() -> (sched: Self)
        ensures
            sched.well_formed(),
            forall|i: int|
                0 <= i < MAX_THREADS ==> #[trigger] sched.states()@[i] == ThreadState::Unused,
            forall|i: int|
                0 <= i < MAX_THREADS ==> #[trigger] sched.kinds()@[i] == ThreadKind::Normal,
            sched.ready() == Seq::<usize>::empty(),
            sched.current_id() == NO_THREAD,
            sched.idle_id() == NO_THREAD,
            sched.tick_count() == 0,
            sched.switch_count() == 0,
    {
        Self::new()
    }
}

/// A queue of distinct threads that leaves one out is not full.
proof fn lemma_room(queue: Seq<usize>, id: usize)
    requires
        queue.no_duplicates(),
        forall|i: int| 0 <= i < queue.len() ==> #[trigger] queue[i] < MAX_THREADS,
        id < MAX_THREADS,
        !queue.contains(id),
    ensures
        queue.len() < MAX_THREADS,
{
    let numbers = queue.map_values(|x: usize| x as int);
    let all = vstd::set_lib::set_int_range(0, MAX_THREADS as int);
    vstd::set_lib::lemma_int_range(0, MAX_THREADS as int);
    assert(numbers.no_duplicates());
    numbers.unique_seq_to_set();
    assert(numbers.to_set().subset_of(all.remove(id as int))) by {
        assert forall|n: int| numbers.to_set().contains(n) implies all.remove(id as int).contains(
            n,
        ) by {
            let i = choose|i: int| 0 <= i < numbers.len() && numbers[i] == n;
            assert(queue[i] == n);
            assert(queue.contains(queue[i]));
        }
    }
    vstd::set_lib::lemma_len_subset(numbers.to_set(), all.remove(id as int));
}

/// A new thread at the end of a queue.
proof fn lemma_pushed(queue: Seq<usize>, id: usize)
    requires
        queue.no_duplicates(),
        !queue.contains(id),
    ensures
        queue.push(id).no_duplicates(),
        forall|x: usize|
            #[trigger] queue.push(id).contains(x) <==> queue.contains(x) || x == id,
{
    let pushed = queue.push(id);
    assert forall|x: usize| #[trigger] pushed.contains(x) <==> queue.contains(x) || x == id by {
        if queue.contains(x) {
            let i = choose|i: int| 0 <= i < queue.len() && queue[i] == x;
            assert(pushed[i] == x);
        }
        assert(pushed[queue.len() as int] == id);
    }
}

/// A queue without its first thread.
proof fn lemma_popped(queue: Seq<usize>)
    requires
        queue.no_duplicates(),
        queue.len() > 0,
    ensures
        queue.skip(1).no_duplicates(),
        forall|x: usize|
            #[trigger] queue.skip(1).contains(x) <==> queue.contains(x) && x != queue[0],
{
    let rest = queue.skip(1);
    assert forall|x: usize| #[trigger] rest.contains(x) <==> queue.contains(x) && x != queue[0] by {
        if queue.contains(x) && x != queue[0] {
            let i = choose|i: int| 0 <= i < queue.len() && queue[i] == x;
            assert(rest[i - 1] == x);
        }
        if rest.contains(x) {
            let i = choose|i: int| 0 <= i < rest.len() && rest[i] == x;
            assert(queue[i + 1] == x);
        }
    }
}

// ---------------------------------------------------------------------------------------------
// What the policy promises
// ---------------------------------------------------------------------------------------------

impl Scheduler {
    /// The threads that share the processor, the current one first.
    pub open(crate) spec fn ring(&self) -> Seq<usize> {
        seq![self.current] + self.ready()
    }
}

/// The ring after `n` turns: each turn moves its first thread to the end.
pub open spec fn turned(ring: Seq<usize>, n: nat) -> Seq<usize>
    decreases n,
{
    if n == 0 || ring.len() == 0 {
        ring
    } else {
        let rest = turned(ring, (n - 1) as nat);
        rest.skip(1).push(rest[0])
    }
}

/// Giving up the processor turns the ring by one, while an ordinary thread or the boot context is
/// running.
pub proof fn law_yield_turns_the_ring(before: &Scheduler, after: &Scheduler, decision: Decision)
    requires
        before.well_formed(),
        before.current_id() != NO_THREAD,
        before.current_id() != before.idle_id(),
        before.states()@[before.current_id() as int] == ThreadState::Running,
        after.rotated(before, decision),
    ensures
        after.ring() == turned(before.ring(), 1),
{
    reveal_with_fuel(turned, 2);
    let ring = before.ring();
    assert(ring[0] == before.current);
    if before.ready().len() == 0 {
        assert(ring.skip(1).push(ring[0]) =~= ring);
        assert(after.ring() =~= ring);
    } else {
        assert(after.ring() =~= ring.skip(1).push(ring[0]));
    }
}

/// Strict round robin: after `n` turns the processor belongs to the thread `n` places further on,
/// so that everyone in a ring of `k` threads runs once in every `k` turns.
pub proof fn law_round_robin(ring: Seq<usize>, n: nat)
    requires
        ring.len() > 0,
    ensures
        turned(ring, n).len() == ring.len(),
        turned(ring, n)[0] == ring[n as int % ring.len() as int],
{
    lemma_turned(ring, n, 0);
    vstd::arithmetic::div_mod::lemma_mod_bound(n as int, ring.len() as int);
}

proof fn lemma_turned(ring: Seq<usize>, n: nat, i: int)
    requires
        ring.len() > 0,
        0 <= i < ring.len(),
    ensures
        turned(ring, n).len() == ring.len(),
        turned(ring, n)[i] == ring[(n + i) % ring.len() as int],
    decreases n,
{
    let k = ring.len() as int;
    if n == 0 {
        vstd::arithmetic::div_mod::lemma_small_mod(i as nat, ring.len());
    } else {
        let m = (n - 1) as nat;
        let next = if i + 1 < k { i + 1 } else { 0 };
        lemma_turned(ring, m, next);
        if i + 1 == k {
            vstd::arithmetic::div_mod::lemma_mod_add_multiples_vanish(m as int, k);
            assert((n + i) % k == m as int % k);
        }
    }
}

/// Giving up the processor leads to another thread, if to any: the one that leaves is ready or has
/// ended, the one that comes is running.
pub proof fn law_switch_leads_to_another_thread(
    before: &Scheduler,
    after: &Scheduler,
    from: usize,
    to: usize,
)
    requires
        before.well_formed(),
        after.rotated(before, Decision::Switch { from, to }),
    ensures
        from == before.current_id(),
        to == after.current_id(),
        from != to,
        after.states()@[from as int] == ThreadState::Ready || after.states()@[from as int]
            == ThreadState::Exited,
        after.states()@[to as int] == ThreadState::Running,
{
    assert(before.ready().contains(before.ready()[0]));
}

/// A thread that has ended never gets the processor again, whoever gives it up.
pub proof fn law_ended_threads_stay_ended(
    before: &Scheduler,
    after: &Scheduler,
    decision: Decision,
    id: int,
)
    requires
        before.well_formed(),
        after.rotated(before, decision),
        0 <= id < MAX_THREADS,
        before.states()@[id] == ThreadState::Exited,
    ensures
        after.states()@[id] == ThreadState::Exited,
        decision matches Decision::Switch { from: _, to } ==> to != id,
{
    if before.current != NO_THREAD && before.ready().len() > 0 {
        let to = before.ready()[0];
        assert(before.ready().contains(to));
    }
}

/// Only ready threads are queued: not the running one, not one that has ended, not an empty slot
/// and never the idle thread.
pub proof fn law_who_is_queued(sched: &Scheduler, id: usize)
    requires
        sched.well_formed(),
        id < MAX_THREADS,
    ensures
        sched.ready().contains(id) <==> sched.states()@[id as int] == ThreadState::Ready
            && sched.kinds()@[id as int] != ThreadKind::Idle,
        sched.states()@[id as int] == ThreadState::Running ==> id == sched.current_id(),
{
}

} // verus!
