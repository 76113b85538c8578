use dowsing::bpf::{jump, stmt, BPF_JMP_JEQ_K, BPF_RET_K, SECCOMP_RET_ALLOW};
use dowsing::candidate::CandidateOrigin;
use dowsing::linux::{Regs, SIGTRAP, SYS_FUTEX, SYS_GETRANDOM, SYS_SCHED_YIELD};
use dowsing::rng::CaseRng;
use dowsing::scheduler::dowsing::CaseScheduler;
use dowsing::scheduler::handshake::{attached, Handshake, Progress, SpawnError};
use dowsing::scheduler::ptrace::{decode, WaitEvent};
use dowsing::scheduler::report::{
    cost_of, outcome_name, point_name, same_class, schedule_features, uncontrolled_name, RunReport,
};
use dowsing::scheduler::seccomp::{program, scheduling_syscalls};
use dowsing::scheduler::shm::{
    assign_guards, guard_count, guard_place, hit_guards, on_edge, parse_fd, shm_feedback, Header, ShmCoverage,
    BITMAP_BYTES, EXTRA_FEATURE_BIT,
};
use dowsing::scheduler::supervisor::{
    budget, skip_syscall, wanted_random, wanted_word, Decision, FifoScheduler, Handling, Idle,
    Outcome, PointKind, Run, Scheduler, State, Step, TraceEvent, Turn, Uncontrolled, FUTEX_WAIT,
    FUTEX_WAKE,
};
use dowsing::text::{push_aligned, push_decimal, push_signed};
use dowsing::trace::Trace;
use std::hash::{DefaultHasher, Hash, Hasher};

fn regs(nr: i64, args: [u64; 3]) -> Regs {
    Regs {
        r15: 0,
        r14: 0,
        r13: 0,
        r12: 0,
        rbp: 0,
        rbx: 0,
        r11: 0,
        r10: 0,
        r9: 0,
        r8: 0,
        rax: 0,
        rcx: 0,
        rdx: args[2],
        rsi: args[1],
        rdi: args[0],
        orig_rax: nr as u64,
        rip: 0,
        cs: 0,
        eflags: 0,
        rsp: 0,
        ss: 0,
        fs_base: 0,
        gs_base: 0,
        ds: 0,
        es: 0,
        fs: 0,
        gs: 0,
    }
}

fn started() -> Run {
    let mut run = Run::new(100);
    run.threads[0].state = State::Stopped;
    run
}

fn with_thread(run: &mut Run, tid: i32) {
    let parent = run.current.expect("a thread runs");
    run.on_clone(parent, tid, 0);
    let index = run.thread_index(tid).expect("the thread is known");
    run.threads[index].state = State::Stopped;
}

#[test]
fn a_single_thread_runs_without_a_decision() {
    let mut run = started();
    assert_eq!(run.runnable(), vec![0]);
    let grant = run.schedule(&mut FifoScheduler).expect("a thread can run");
    assert_eq!((grant.tid, grant.signal, grant.budget), (100, 0, 0));
    assert_eq!(run.current, Some(0));
    assert!(run.busy());
    assert!(run.decisions.is_empty());
    assert!(!run.needs_schedule());
}

struct Second;

impl Scheduler for Second {
    fn decide(&mut self, candidates: usize) -> Decision {
        Decision { pick: candidates - 1, budget: 3 }
    }

    fn random_bytes(&mut self, len: usize) -> Vec<u8> {
        vec![0; len]
    }
}

#[test]
fn the_scheduler_picks_among_the_runnable_threads() {
    let mut run = started();
    run.schedule(&mut FifoScheduler).expect("a thread can run");
    with_thread(&mut run, 101);
    run.threads[0].state = State::Stopped;
    run.current = None;
    assert_eq!(run.candidates(), vec![0, 1]);
    let grant = run.schedule(&mut Second).expect("a thread can run");
    assert_eq!((grant.tid, grant.budget), (101, budget(3)));
    assert_eq!(run.last_ran, Some(1));
    assert_eq!(run.decisions, vec![Decision { pick: 1, budget: 3 }]);
    assert_eq!(run.threads.iter().filter(|thread| thread.state == State::Running).count(), 1);
}

#[test]
fn a_thread_waits_for_its_word_and_is_woken() {
    let mut run = started();
    run.schedule(&mut FifoScheduler).expect("a thread can run");
    with_thread(&mut run, 101);
    let wait = regs(SYS_FUTEX, [0x1000, FUTEX_WAIT, 7]);
    assert_eq!(wanted_word(wait), Some(0x1000));
    let step = run.handle_seccomp(0, wait, 7, vec![], 0);
    assert!(matches!(step, Step::Skip { .. } | Step::Resume));
    assert!(matches!(run.threads[0].state, State::FutexWait { addr: 0x1000, val: 7, .. }));
    assert_eq!(run.waiters(), vec![0]);
    run.schedule(&mut FifoScheduler).expect("the other thread can run");
    assert_eq!(run.current, Some(1));
    let wake = regs(SYS_FUTEX, [0x1000, FUTEX_WAKE, 1]);
    run.handle_seccomp(1, wake, 0, vec![], 0);
    assert!(run.waiters().is_empty());
    assert_eq!(run.threads[0].state, State::Stopped);
}

#[test]
fn a_wait_on_another_value_does_not_block() {
    let mut run = started();
    run.schedule(&mut FifoScheduler).expect("a thread can run");
    let wait = regs(SYS_FUTEX, [0x1000, FUTEX_WAIT, 7]);
    run.handle_seccomp(0, wait, 8, vec![], 0);
    assert!(run.waiters().is_empty());
    assert_eq!(run.trace.last().expect("an entry").kind, PointKind::FutexNoWait);
}

#[test]
fn threads_that_wait_for_ever_are_a_deadlock() {
    let mut run = started();
    run.schedule(&mut FifoScheduler).expect("a thread can run");
    run.handle_seccomp(0, regs(SYS_FUTEX, [0x1000, FUTEX_WAIT, 7]), 7, vec![], 0);
    assert!(run.schedule(&mut FifoScheduler).is_none());
    match run.handle_idle(&vec![7], 0) {
        Idle::Deadlock { waiting_threads } => assert_eq!(waiting_threads, vec![0]),
        other => panic!("{other:?}"),
    }
    assert!(matches!(run.handle_idle(&vec![8], 0), Idle::Woken));
}

#[test]
fn random_bytes_are_answered_for_the_thread() {
    let mut run = started();
    run.schedule(&mut FifoScheduler).expect("a thread can run");
    let ask = regs(SYS_GETRANDOM, [0x2000, 4, 0]);
    assert_eq!(wanted_random(ask), Some(4));
    let answer = FifoScheduler.random_bytes(4);
    assert_eq!(answer, vec![0x42; 4]);
    match run.handle_seccomp(0, ask, 0, answer, 0) {
        Step::Fill { addr, bytes, regs } => {
            assert_eq!((addr, bytes), (0x2000, vec![0x42; 4]));
            assert_eq!((regs.rax, regs.orig_rax), (4, u64::MAX));
        }
        other => panic!("{other:?}"),
    }
    let skipped = skip_syscall(ask, -11);
    assert_eq!(skipped.rax as i64, -11);
    assert!(wanted_random(regs(SYS_SCHED_YIELD, [0, 0, 0])).is_none());
}

#[test]
fn an_exit_ends_the_run() {
    let mut run = started();
    run.schedule(&mut FifoScheduler).expect("a thread can run");
    let handling = run.handle_event(WaitEvent::Exited { pid: 100, code: 3 }, 0);
    assert!(matches!(handling, Handling::Finished));
    assert_eq!(run.outcome, Some(Outcome::Exited(3)));
    assert!(!Outcome::Exited(3).is_ok());
    assert!(Outcome::Exited(0).is_ok());
}

#[test]
fn a_watchdog_ends_the_run() {
    let mut run = started();
    run.on_watchdog();
    assert_eq!(run.outcome, Some(Outcome::Timeout));
}

#[test]
fn status_words_become_events() {
    assert_eq!(decode(5, 3 << 8), WaitEvent::Exited { pid: 5, code: 3 });
    assert_eq!(decode(5, 9), WaitEvent::Killed { pid: 5, sig: 9 });
    assert_eq!(decode(5, (11 << 8) | 0x7f), WaitEvent::Signal { pid: 5, sig: 11 });
    assert_eq!(
        decode(5, ((SIGTRAP | 0x80) << 8) | 0x7f),
        WaitEvent::Syscall { pid: 5 }
    );
    assert_eq!(
        decode(5, (128 << 16) | (19 << 8) | 0x7f),
        WaitEvent::GroupStop { pid: 5, sig: 19 }
    );
    assert_eq!(
        decode(5, (7 << 16) | (SIGTRAP << 8) | 0x7f),
        WaitEvent::Event { pid: 5, event: 7 }
    );
}

fn report(outcome: Outcome, decisions: Vec<Decision>) -> RunReport {
    RunReport {
        outcome,
        trace: vec![
            TraceEvent { thread: 0, kind: PointKind::Start, edges: 0 },
            TraceEvent { thread: 1, kind: PointKind::Signal(11), edges: 1234 },
        ],
        decisions,
        stops: 2,
        edges: 1234,
        threads: 2,
        wall_ns: 0,
        uncontrolled: vec![],
        stderr: String::new(),
    }
}

#[test]
fn a_schedule_hashes_like_its_trace_and_the_text_of_its_outcome() {
    let outcomes = vec![
        Outcome::Exited(-3),
        Outcome::Signaled(11),
        Outcome::Deadlock { waiting_threads: vec![0, 12] },
        Outcome::Timeout,
    ];
    for outcome in outcomes {
        let text = outcome_name(&outcome);
        let mut run = report(outcome, vec![]);
        run.trace.push(TraceEvent { thread: 3, kind: PointKind::Signal(-1), edges: u64::MAX });
        run.trace.push(TraceEvent { thread: 70000, kind: PointKind::Exit, edges: 256 });
        let mut hasher = DefaultHasher::new();
        run.trace.hash(&mut hasher);
        text.hash(&mut hasher);
        assert_eq!(run.trace_hash(), hasher.finish());
    }
}

#[test]
fn what_is_not_controlled_is_named() {
    let event = Uncontrolled::Event { event: 9, pid: 77 };
    assert_eq!(uncontrolled_name(event), "ptrace event 9 on tid 77");
    let call = Uncontrolled::Syscall { nr: -1, thread: 0 };
    assert_eq!(uncontrolled_name(call), "syscall -1 passed through on T0");
    let futex = Uncontrolled::Futex { op: 12, thread: 3 };
    assert_eq!(uncontrolled_name(futex), "futex op 12 passed through on T3");
}

#[test]
fn reports_are_hashed_and_described() {
    let first = report(Outcome::Exited(0), vec![Decision { pick: 1, budget: 0 }]);
    let second = report(Outcome::Exited(1), vec![Decision { pick: 1, budget: 2 }]);
    assert_eq!(first.trace_hash(), report(Outcome::Exited(0), vec![]).trace_hash());
    assert_ne!(first.trace_hash(), second.trace_hash());
    assert_eq!(first.non_zero_decisions(), 1);
    assert_eq!(second.non_zero_decisions(), 2);
    assert_eq!(first.scheduling_points(), 2);
    assert!(cost_of(&first) < cost_of(&second));
    let text = first.describe();
    assert_eq!(text.lines().count(), 2);
    assert!(text.lines().next().expect("a line").ends_with("ran      0 edges -> start"));
    assert!(text.ends_with("ran   1234 edges -> signal(11)\n"));
    assert_eq!(point_name(PointKind::Preempt), "preempt");
}

#[test]
fn outcomes_are_classed_by_their_kind() {
    let deadlock = Outcome::Deadlock { waiting_threads: vec![1] };
    let other = Outcome::Deadlock { waiting_threads: vec![2] };
    assert!(same_class(&deadlock, &other));
    assert!(!same_class(&deadlock, &Outcome::Timeout));
    assert_ne!(outcome_name(&deadlock), outcome_name(&Outcome::Timeout));
}

#[test]
fn the_filter_names_each_scheduling_call() {
    let calls = scheduling_syscalls();
    assert!(calls.contains(&SYS_FUTEX));
    assert!(calls.contains(&SYS_GETRANDOM));
    let program = program();
    for call in calls {
        assert!(program
            .iter()
            .any(|instruction| instruction.code == BPF_JMP_JEQ_K && instruction.k == call as u32));
    }
    assert!(program.contains(&stmt(BPF_RET_K, SECCOMP_RET_ALLOW)));
    assert_eq!(jump(BPF_JMP_JEQ_K, 9, 1, 2).jt, 1);
}

#[test]
fn edges_are_marked_counted_and_taken_off_the_budget() {
    let mut header = Header { budget: 2, edges: 0, marker_hits: 0 };
    let mut bitmap = vec![0u8; BITMAP_BYTES];
    assert!(!on_edge(&mut header, &mut bitmap, 9));
    assert!(on_edge(&mut header, &mut bitmap, 17));
    assert!(!on_edge(&mut header, &mut bitmap, u32::MAX));
    assert_eq!((header.budget, header.edges, header.marker_hits), (0, 2, 1));
    assert_eq!(hit_guards(&bitmap), vec![9, 17]);
    let feedback = shm_feedback(&vec![9, 17], &vec![3], header.edges);
    let raw: Vec<u64> = feedback.features().iter().iter().map(|id| id.raw()).collect();
    assert_eq!(raw, vec![9, 17, 3 | EXTRA_FEATURE_BIT]);
}

#[test]
fn shared_coverage_adds_features_until_it_is_reset() {
    let mut capture = ShmCoverage::new();
    capture.add_features(vec![5]);
    let bitmap = vec![0u8; BITMAP_BYTES];
    assert_eq!(capture.finish(&bitmap, 1).features().len(), 1);
    capture.add_features(vec![6]);
    capture.reset();
    assert!(capture.finish(&bitmap, 1).features().is_empty());
}

#[test]
fn guards_are_numbered_once() {
    let mut guards = vec![0, 7, 0];
    let next = assign_guards(&mut guards, 1);
    assert_eq!(guards, vec![1, 2, 3]);
    assert_eq!(next, 4);
    assert_eq!(guard_count(next), 3);
    assert_eq!(assign_guards(&mut guards, next), next);
    assert_eq!(guards, vec![1, 2, 3]);
}

#[test]
fn descriptor_numbers_are_decimal() {
    assert_eq!(parse_fd(&b"42".to_vec()), Some(42));
    assert_eq!(parse_fd(&b"-1".to_vec()), None);
    assert_eq!(parse_fd(&b"99999999999".to_vec()), None);
}

#[test]
fn numbers_are_written_in_decimal() {
    let mut text = String::new();
    push_decimal(&mut text, u64::MAX);
    text.push(' ');
    push_signed(&mut text, i64::MIN);
    text.push(' ');
    push_aligned(&mut text, 42, 5);
    assert_eq!(text, "18446744073709551615 -9223372036854775808    42");
}

fn scheduler_of(bytes: &[u8]) -> CaseScheduler<()> {
    let case = Trace::from_raw_parts(0, bytes.to_vec(), true);
    CaseScheduler::new(CaseRng::new(&case, CandidateOrigin::SeededCase, None))
}

#[test]
fn a_case_decides_the_schedule() {
    let mut scheduler = scheduler_of(&[1, 0, 0, 0, 5, 0, 0, 0, 9, 0, 0, 0]);
    assert_eq!(scheduler.consumed, 0);
    assert_eq!(scheduler.decide(2), Decision { pick: 1, budget: 9 });
    assert_eq!(scheduler.consumed, 1);
    assert_eq!(scheduler.random_bytes(2).len(), 2);
    assert_eq!(scheduler.decide(2), Decision { pick: 0, budget: 0 });
    assert_eq!(scheduler.consumed, 1);
}

#[test]
fn a_case_of_zeros_keeps_the_natural_schedule() {
    let mut scheduler = scheduler_of(&[]);
    assert_eq!(scheduler.decide(3), Decision { pick: 0, budget: 0 });
    assert_eq!(scheduler.random_bytes(3), vec![0x5a, 0x9d ^ 0x5a, 0x3a ^ 0x5a]);
}

#[test]
fn a_program_is_ready_after_both_reports() {
    let cont = WaitEvent::Signal { pid: 5, sig: 18 };
    let exec = WaitEvent::Event { pid: 5, event: 4 };
    for (first, second) in [(cont, exec), (exec, cont)] {
        let mut handshake = Handshake::new();
        assert_eq!(handshake.on_event(first), Progress::Resume);
        assert_eq!(
            handshake.on_event(WaitEvent::GroupStop { pid: 5, sig: 19 }),
            Progress::Resume
        );
        assert_eq!(handshake.on_event(second), Progress::Ready);
    }
}

#[test]
fn a_program_that_does_not_start_says_why() {
    let mut handshake = Handshake::new();
    assert_eq!(
        handshake.on_event(WaitEvent::Exited { pid: 5, code: 126 }),
        Progress::Failed(SpawnError::ExitedEarly(126))
    );
    assert_eq!(
        handshake.on_event(WaitEvent::Event { pid: 5, event: 7 }),
        Progress::Failed(SpawnError::ExecFailed)
    );
    let other = WaitEvent::Signal { pid: 5, sig: 11 };
    assert_eq!(
        handshake.on_event(other),
        Progress::Failed(SpawnError::Unexpected(other))
    );
    assert_eq!(attached(WaitEvent::GroupStop { pid: 5, sig: 19 }), Ok(()));
    assert_eq!(attached(other), Err(SpawnError::Unexpected(other)));
}

#[test]
fn schedules_have_features() {
    let trace = vec![
        TraceEvent { thread: 1, kind: PointKind::Start, edges: 0 },
        TraceEvent { thread: 2, kind: PointKind::Yield, edges: 9 },
    ];
    assert_eq!(schedule_features(&trace, &vec![7, 3]), [0x1_0007, 0x1_0002_0003]);
}

#[test]
fn guards_have_places_in_the_bitmap() {
    assert_eq!(guard_place(0), Some((0, 1)));
    assert_eq!(guard_place(11), Some((1, 8)));
    assert_eq!(guard_place(8 * BITMAP_BYTES as u32 - 1), Some((BITMAP_BYTES - 1, 128)));
    assert_eq!(guard_place(8 * BITMAP_BYTES as u32), None);
    let mut header = Header { budget: 2, edges: 0, marker_hits: 0 };
    assert!(!header.count_edge());
    assert!(header.count_edge());
    assert!(!header.count_edge());
    assert_eq!(header, Header { budget: 0, edges: 3, marker_hits: 1 });
}

#[test]
fn a_schedule_takes_turns() {
    let mut run = Run::new(5);
    assert_eq!(run.take_turn(), Turn::Schedule);
    let grant = run.schedule(&mut FifoScheduler).expect("the leader can run");
    assert_eq!(grant.tid, 5);
    assert_eq!(run.take_turn(), Turn::Await);
    run.on_watchdog();
    assert_eq!(run.take_turn(), Turn::Finished(Outcome::Timeout));
    assert_eq!(run.take_turn(), Turn::Await);
}
