//! The scheduler: who runs next, what happens to the queue, and what is counted.

use vstd::prelude::*;

use crate::sched::{live_among, Decision, Scheduler, ThreadState};

verus! {

/// Whoever gives up the processor, the idle thread included: if there is a current thread and the
/// queue is not empty, the first thread of the queue runs, and the rest of the queue keeps its
/// order, with the thread that leaves at its end if it was running and is not the idle thread.
/// No other thread is touched. Else nothing changes.
pub proof fn law_the_first_of_the_queue_runs(
    before: &Scheduler,
    after: &Scheduler,
    decision: Decision,
    id: int,
)
    requires
        before.well_formed(),
        after.rotated(before, decision),
    ensures
        before.current_id() != usize::MAX && before.ready().len() > 0 ==> {
            let (from, to) = (before.current_id(), before.ready()[0]);
            let was_running = before.states()@[from as int] == ThreadState::Running;
            &&& decision == Decision::Switch { from, to }
            &&& after.current_id() == to
            &&& after.ready().len() == before.ready().len() - 1 + (if was_running && from
                != before.idle_id() {
                1int
            } else {
                0
            })
            &&& forall|i: int|
                0 <= i < before.ready().len() - 1 ==> #[trigger] after.ready()[i]
                    == before.ready()[i + 1]
            &&& was_running && from != before.idle_id() ==> after.ready().last() == from
            &&& after.ready() == (if was_running && from != before.idle_id() {
                before.ready().skip(1).push(from)
            } else {
                before.ready().skip(1)
            })
            &&& after.switch_count() == before.switch_count() + 1
            &&& after.states()@[to as int] == ThreadState::Running
            &&& was_running ==> after.states()@[from as int] == ThreadState::Ready
            &&& 0 <= id < 16 && id != to && !(id == from && was_running)
                ==> after.states()@[id] == before.states()@[id]
        },
        before.current_id() == usize::MAX || before.ready().len() == 0 ==> {
            &&& decision == Decision::Keep
            &&& after.current_id() == before.current_id()
            &&& after.ready() == before.ready()
            &&& after.switch_count() == before.switch_count()
            &&& after.states()@ == before.states()@
        },
        after.idle_id() == before.idle_id(),
        after.kinds()@ == before.kinds()@,
{
    if before.current_id() != usize::MAX && before.ready().len() > 0 {
        let (from, to) = (before.current_id(), before.ready()[0]);
        assert(before.ready().contains(to));
        let was_running = before.states()@[from as int] == ThreadState::Running;
        if was_running && from != before.idle_id() {
            assert(before.ready().push(from).skip(1) =~= before.ready().skip(1).push(from));
        }
    }
}

/// The number of live threads is the number of slots that are not empty.
pub proof fn law_live_threads_are_counted(states: Seq<ThreadState>, n: int)
    requires
        0 <= n <= states.len(),
    ensures
        live_among(states, n) == states.take(n).filter(
            |state: ThreadState| state != ThreadState::Unused,
        ).len(),
    decreases n,
{
    reveal(Seq::filter);
    if n > 0 {
        law_live_threads_are_counted(states, n - 1);
        assert(states.take(n).drop_last() =~= states.take(n - 1));
    }
}

} // verus!
