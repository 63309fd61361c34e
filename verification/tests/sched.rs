use paranukos::sched::{
    Decision, SchedError, SchedStats, Scheduler, ThreadKind, ThreadState, MAX_THREADS, NO_THREAD,
};

fn bootstrapped(count: usize) -> (Scheduler, Vec<usize>) {
    let mut sched = Scheduler::new();
    sched.register_boot(0).expect("登记引导上下文");
    sched.register_idle(1).expect("登记空闲线程");
    let mut threads = Vec::new();
    for _ in 0..count {
        threads.push(sched.create().expect("创建线程"));
    }
    (sched, threads)
}

fn assert_invariants(sched: &Scheduler) {
    let mut running = 0;
    for id in 0..MAX_THREADS {
        let state = sched.state(id).expect("线程号合法");
        let kind = sched.kind(id).expect("线程号合法");
        match state {
            ThreadState::Running => {
                running += 1;
                assert!(!sched.queued(id), "运行中的线程不应在就绪队列里");
            }
            ThreadState::Ready => {
                if kind == ThreadKind::Idle {
                    assert!(!sched.queued(id), "空闲线程永不入队");
                } else {
                    assert!(sched.queued(id), "就绪的普通线程必须在队列里");
                }
            }
            ThreadState::Unused => {
                assert!(!sched.queued(id), "空槽不应在队列里");
            }
            ThreadState::Exited => {
                assert!(!sched.queued(id), "已退出线程不应在队列里");
            }
        }
    }
    assert!(running <= 1, "至多一个线程处于 Running");
    assert_eq!(sched.stats().ready, sched.ready_queue().len());
}

#[test]
fn new_scheduler_has_nothing_running() {
    let sched = Scheduler::new();
    assert_eq!(sched.current(), NO_THREAD);
    assert_eq!(sched.idle(), NO_THREAD);
    assert_eq!(sched.stats(), SchedStats::default());
    assert_eq!(sched.ready_queue().len(), 0);
    assert_eq!(sched.state(0), Ok(ThreadState::Unused));
}

#[test]
fn boot_context_runs_and_is_not_queued() {
    let mut sched = Scheduler::new();
    sched.register_boot(0).expect("登记引导上下文");
    assert_eq!(sched.current(), 0);
    assert_eq!(sched.state(0), Ok(ThreadState::Running));
    assert_eq!(sched.kind(0), Ok(ThreadKind::Boot));
    assert_eq!(sched.stats().ready, 0, "引导上下文不入队");
    assert_invariants(&sched);
}

#[test]
fn create_enqueues_in_creation_order() {
    let (sched, threads) = bootstrapped(3);
    assert_eq!(threads, vec![2, 3, 4], "应占用最小的空槽");
    let queue = sched.ready_queue();
    assert_eq!(queue, vec![2, 3, 4]);
    assert_eq!(sched.stats().ready, 3);
    assert_eq!(sched.stats().live, 5, "引导 + 空闲 + 3 个普通线程");
    assert_invariants(&sched);
}

#[test]
fn idle_is_never_queued_and_never_reused_as_a_normal_slot() {
    let (mut sched, _) = bootstrapped(1);
    assert_eq!(sched.state(1), Ok(ThreadState::Ready));
    assert!(!sched.queued(1));
    assert_invariants(&sched);
    assert_eq!(
        sched.register_idle(5),
        Err(SchedError::IdleAlreadyRegistered)
    );
    assert_eq!(
        sched.register_idle(0),
        Err(SchedError::IdleAlreadyRegistered),
        "已登记空闲线程时优先报该错误"
    );
}

#[test]
fn yielding_rotates_strictly_round_robin() {
    let (mut sched, threads) = bootstrapped(3);
    let mut order = Vec::new();
    for _ in 0..9 {
        let current = sched.current();
        order.push(current);
        let decision = sched.yield_current();
        assert!(matches!(decision, Decision::Switch { .. }));
        assert_invariants(&sched);
    }
    assert_eq!(
        order,
        vec![0, 2, 3, 4, 0, 2, 3, 4, 0],
        "必须严格按 0,2,3,4 轮转"
    );
    assert_eq!(sched.current(), 2);
    assert_eq!(sched.stats().switches, 9);
    let _ = threads;
}

#[test]
fn yielding_with_an_empty_queue_keeps_running() {
    let mut sched = Scheduler::new();
    sched.register_boot(0).expect("登记");
    sched.register_idle(1).expect("登记空闲");
    assert_eq!(
        sched.yield_current(),
        Decision::Keep,
        "只有引导上下文时不该切到空闲线程"
    );
    assert_eq!(sched.current(), 0);
    assert_eq!(sched.stats().switches, 0);
    assert_invariants(&sched);
}

#[test]
fn tick_counts_even_without_rescheduling() {
    let mut sched = Scheduler::new();
    sched.register_boot(0).expect("登记");
    for _ in 0..5 {
        assert_eq!(sched.on_tick(false), Decision::Keep);
    }
    assert_eq!(sched.stats().ticks, 5);
    assert_eq!(sched.stats().switches, 0);
}

#[test]
fn tick_preempts_when_another_thread_is_ready() {
    let (mut sched, _) = bootstrapped(2);
    let decision = sched.on_tick(true);
    assert_eq!(decision, Decision::Switch { from: 0, to: 2 });
    assert_eq!(sched.current(), 2);
    assert_eq!(sched.state(0), Ok(ThreadState::Ready));
    assert_eq!(sched.stats().ticks, 1);
    assert_eq!(sched.stats().switches, 1);
    assert_invariants(&sched);
}

#[test]
fn tick_with_an_empty_queue_keeps_running() {
    let mut sched = Scheduler::new();
    sched.register_boot(0).expect("登记");
    sched.register_idle(1).expect("登记空闲");
    assert_eq!(sched.on_tick(true), Decision::Keep);
    assert_eq!(sched.current(), 0);
}

#[test]
fn idle_only_runs_when_nothing_else_is_ready() {
    let mut sched = Scheduler::new();
    sched.register_boot(0).expect("登记");
    sched.register_idle(1).expect("登记空闲");
    let id = sched.create().expect("创建线程");
    assert_eq!(id, 2);

    let decision = sched.exit_current().expect("退出成功");
    assert_eq!(decision, Decision::Switch { from: 0, to: 2 });
    assert_eq!(sched.state(0), Ok(ThreadState::Exited));

    let decision = sched.exit_current().expect("退出成功");
    assert_eq!(decision, Decision::Switch { from: 2, to: 1 });
    assert_eq!(sched.current(), 1);
    assert_eq!(sched.state(1), Ok(ThreadState::Running));
    assert_invariants(&sched);

    assert_eq!(sched.yield_current(), Decision::Keep);
    assert_invariants(&sched);
}

#[test]
fn idle_yields_to_a_ready_thread() {
    let mut sched = Scheduler::new();
    sched.register_boot(0).expect("登记");
    sched.register_idle(1).expect("登记空闲");
    let _ = sched.exit_current().expect("退出成功");
    assert_eq!(sched.current(), 1);

    let id = sched.create().expect("创建线程");
    let decision = sched.yield_current();
    assert_eq!(decision, Decision::Switch { from: 1, to: id });
    assert_eq!(sched.current(), id);
    assert_eq!(sched.state(1), Ok(ThreadState::Ready));
    assert_invariants(&sched);
}

#[test]
fn a_dead_thread_is_never_scheduled_again() {
    let (mut sched, _) = bootstrapped(2);
    let _ = sched.yield_current();
    assert_eq!(sched.current(), 2);
    let decision = sched.exit_current().expect("退出成功");
    assert_eq!(decision, Decision::Switch { from: 2, to: 3 });

    for _ in 0..6 {
        let current = sched.current();
        assert_ne!(current, 2, "已退出的线程不得再被调度");
        sched.yield_current();
    }
    assert_invariants(&sched);
}

#[test]
fn reapable_threads_are_returned_once_and_free_their_slot() {
    let (mut sched, _) = bootstrapped(1);
    let _ = sched.yield_current();
    assert_eq!(sched.current(), 2);
    let _ = sched.exit_current().expect("退出成功");
    assert_eq!(sched.state(2), Ok(ThreadState::Exited));
    assert_eq!(sched.take_reapable(), Some(2));
    assert_eq!(sched.state(2), Ok(ThreadState::Unused));
    assert_eq!(sched.take_reapable(), None, "同一个线程只能被回收一次");
    assert!(sched.take_reapable().is_none());

    assert_eq!(sched.create(), Ok(2));
}

#[test]
fn the_running_thread_is_never_reapable() {
    let (mut sched, _) = bootstrapped(1);
    assert_eq!(sched.take_reapable(), None, "运行中的线程不可能是待回收的");
}

#[test]
fn exiting_the_last_thread_without_idle_is_an_error() {
    let mut sched = Scheduler::new();
    sched.register_boot(0).expect("登记");
    assert_eq!(sched.exit_current(), Err(SchedError::NothingToRun));
    assert_eq!(sched.state(0), Ok(ThreadState::Exited));
}

#[test]
fn the_thread_table_fills_up() {
    let (mut sched, threads) = bootstrapped(MAX_THREADS - 2);
    assert_eq!(threads.len(), MAX_THREADS - 2);
    assert_eq!(sched.stats().live, MAX_THREADS);
    assert_eq!(sched.create(), Err(SchedError::NoFreeSlot));
    let _ = sched.yield_current();
    let _ = sched.exit_current().expect("退出成功");
    let freed = sched.take_reapable().expect("应有可回收线程");
    assert_eq!(sched.create(), Ok(freed));
}

#[test]
fn invalid_thread_ids_are_rejected() {
    let sched = Scheduler::new();
    assert_eq!(
        sched.state(MAX_THREADS),
        Err(SchedError::InvalidId(MAX_THREADS))
    );
    assert_eq!(sched.kind(999), Err(SchedError::InvalidId(999)));
    let mut sched = sched;
    assert_eq!(
        sched.register_boot(MAX_THREADS),
        Err(SchedError::InvalidId(MAX_THREADS))
    );
}

#[test]
fn long_round_robin_run_stays_fair() {
    let (mut sched, threads) = bootstrapped(3);
    let mut counts = [0usize; MAX_THREADS];
    for _ in 0..30 {
        counts[sched.current()] += 1;
        sched.yield_current();
        assert_invariants(&sched);
    }
    for id in [0, 2, 3, 4] {
        assert!(
            (7..=8).contains(&counts[id]),
            "线程 {id} 只跑了 {} 次，轮转不公平",
            counts[id]
        );
    }
    assert_eq!(counts[1], 0, "空闲线程一次都不该跑");
    let _ = threads;
}

#[test]
fn the_boot_context_is_registered_once() {
    let mut sched = Scheduler::default();
    sched.register_boot(3).expect("boot");
    assert_eq!(sched.register_boot(4), Err(SchedError::InvalidId(4)));
    assert_eq!(sched.register_boot(3), Err(SchedError::InvalidId(3)));
    assert_eq!(sched.state(4), Ok(ThreadState::Unused));
    assert_eq!(sched.current(), 3);

    let mut sched = Scheduler::new();
    assert_eq!(sched.create(), Ok(0));
    assert_eq!(sched.register_boot(0), Err(SchedError::InvalidId(0)));
    assert_eq!(sched.register_idle(0), Err(SchedError::InvalidId(0)));
    assert_eq!(sched.register_idle(MAX_THREADS), Err(SchedError::InvalidId(MAX_THREADS)));
    assert_invariants(&sched);
}

#[test]
fn the_idle_thread_never_ends() {
    let mut sched = Scheduler::new();
    sched.register_boot(0).expect("boot");
    sched.register_idle(1).expect("idle");
    assert_eq!(sched.exit_current(), Ok(Decision::Switch { from: 0, to: 1 }));
    assert_eq!(sched.exit_current(), Ok(Decision::Switch { from: 1, to: 1 }));
    assert_eq!(sched.state(1), Ok(ThreadState::Running));
    assert_eq!(sched.create(), Ok(2));
    assert_eq!(sched.exit_current(), Ok(Decision::Switch { from: 1, to: 2 }));
    assert_eq!(sched.state(1), Ok(ThreadState::Ready));
    assert_eq!(sched.take_reapable(), Some(0));
    assert_eq!(sched.take_reapable(), None);
    assert_invariants(&sched);
}

#[test]
fn a_thread_that_ended_without_a_successor_stays_ended() {
    let mut sched = Scheduler::new();
    assert_eq!(sched.exit_current(), Err(SchedError::NoCurrentThread));
    sched.register_boot(0).expect("boot");
    assert_eq!(sched.exit_current(), Err(SchedError::NothingToRun));
    assert_eq!(sched.current(), 0);
    assert_eq!(sched.take_reapable(), None);
    assert_eq!(sched.create(), Ok(1));
    assert_eq!(sched.yield_current(), Decision::Switch { from: 0, to: 1 });
    assert_eq!(sched.state(0), Ok(ThreadState::Exited));
    assert_eq!(sched.take_reapable(), Some(0));
    assert_invariants(&sched);
}

#[test]
fn nothing_is_scheduled_before_the_boot_context() {
    let mut sched = Scheduler::new();
    assert_eq!(sched.create(), Ok(0));
    assert_eq!(sched.yield_current(), Decision::Keep);
    assert_eq!(sched.on_tick(true), Decision::Keep);
    assert_eq!(sched.stats(), SchedStats { ticks: 1, switches: 0, ready: 1, live: 1 });
}

#[test]
fn the_queue_survives_going_round_the_ring() {
    let (mut sched, _) = bootstrapped(5);
    for turn in 0..40usize {
        let expected = [0, 2, 3, 4, 5, 6][turn % 6];
        assert_eq!(sched.current(), expected);
        sched.yield_current();
    }
    assert_eq!(sched.ready_queue(), vec![6, 0, 2, 3, 4]);
}

#[test]
fn sched_messages_name_the_values() {
    assert_eq!(SchedError::NoFreeSlot.to_string(), "线程表已满（16 项）");
    assert_eq!(SchedError::InvalidId(99).to_string(), "非法线程号 99");
    assert_eq!(SchedError::NoCurrentThread.to_string(), "尚未登记引导上下文");
    assert_eq!(SchedError::IdleAlreadyRegistered.to_string(), "空闲线程已经登记过");
    assert_eq!(
        SchedError::NothingToRun.to_string(),
        "没有任何可运行的线程（也没有空闲线程）"
    );
}
