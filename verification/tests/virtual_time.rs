use dowsing::candidate::CandidateOrigin;
use dowsing::coverage::{CaptureStart, CoverageCapture};
use dowsing::linux::{
    Regs, CLOCK_MONOTONIC, CLOCK_REALTIME, POLLIN, POLLOUT, PTRACE_EVENT_EXIT,
    PTRACE_EVENT_SECCOMP, SIGTRAP, SYS_CLOCK_GETTIME, SYS_FUTEX, SYS_GETRANDOM, SYS_NANOSLEEP,
};
use dowsing::rng::CaseRng;
use dowsing::trace::Trace;
use dowsing::virtual_time::clock::{
    split, to_ns, VirtualClock, MONOTONIC_EPOCH_NS, NANOS, REALTIME_BASE_NS,
};
use dowsing::virtual_time::coverage::{feedback_from_counters, SandboxCoverage};
use dowsing::virtual_time::log::event_line;
use dowsing::virtual_time::memory::{
    decode_timespec, encode_timespec, parse_tgid, push_word, read_word, AuxvEdit, AuxvScan,
    TgidError, AT_SYSINFO_EHDR,
};
use dowsing::virtual_time::sandbox::{
    is_first_stop, magnitude_ns, plan, quantum_ns, skipped, Action, Decisions, Event, Jump, Next,
    Outcome, Plan, Quiescence, Run, Turn, Watched,
};
use dowsing::virtual_time::seccomp::{build_filter, traced_syscalls, ANNOUNCE_NR};
use dowsing::virtual_time::waits::{
    any_ready, decode_fdsets, decode_pollfds, fdset_bytes, poll_verdict, pollfd_bytes, Readiness, WaitKind,
};

fn regs(nr: i64, args: [u64; 3]) -> Regs {
    Regs {
        r15: 0,
        r14: 0,
        r13: 0,
        r12: 0,
        rbp: 0,
        rbx: 0,
        r11: 0,
        r10: 0,
        r9: 0,
        r8: 0,
        rax: 0,
        rcx: 0,
        rdx: args[2],
        rsi: args[1],
        rdi: args[0],
        orig_rax: nr as u64,
        rip: 0x4000,
        cs: 0,
        eflags: 0,
        rsp: 0x7000,
        ss: 0,
        fs_base: 0,
        gs_base: 0,
        ds: 0,
        es: 0,
        fs: 0,
        gs: 0,
    }
}

fn nothing_watched() -> Watched {
    Watched { pollfds: vec![], read: None, write: None, except: None }
}

fn natural() -> Decisions {
    Decisions::new(0, 0, vec![])
}

fn sandbox(decisions: Decisions, limit: Option<u64>) -> Run {
    let mut run = Run::new(decisions, 50, limit);
    run.register(50, 50, false);
    run
}

#[test]
fn clocks_advance_by_their_quantum() {
    let mut clock = VirtualClock::new(1_000);
    assert_eq!(clock.read(CLOCK_MONOTONIC as i64), Some((1_000_000, 1_000)));
    assert_eq!(clock.now(), 1_000);
    assert_eq!(
        clock.read(CLOCK_REALTIME as i64),
        Some(((REALTIME_BASE_NS / NANOS) as i64, 2_000))
    );
    assert_eq!(clock.read(9999), None);
    clock.advance_to(5_000);
    clock.advance_to(3_000);
    assert_eq!(clock.now(), 5_000);
}

#[test]
fn absolute_and_relative_deadlines_agree() {
    let mut clock = VirtualClock::new(1);
    clock.advance_to(7 * NANOS);
    let (secs, nanos) = split(MONOTONIC_EPOCH_NS + 10 * NANOS);
    assert_eq!(
        clock.deadline_from_absolute(CLOCK_MONOTONIC as i64, secs, nanos),
        Some(10 * NANOS)
    );
    assert_eq!(clock.deadline_from_relative(3, 0), 10 * NANOS);
    assert_eq!(clock.deadline_from_absolute(9999, 1, 0), None);
}

#[test]
fn a_wall_clock_step_moves_the_wall_clock_alone() {
    let mut clock = VirtualClock::new(0);
    let before = clock.realtime_ns();
    clock.step_realtime(-5);
    assert_eq!(clock.realtime_ns(), before - 5);
    assert_eq!(clock.now(), 0);
}

#[test]
fn nanoseconds_split_and_join() {
    assert_eq!(split(1_500_000_000), (1, 500_000_000));
    assert_eq!(to_ns(1, 500_000_000), 1_500_000_000);
    assert_eq!(to_ns(-1, 0), 0);
    assert_eq!(to_ns(i64::MAX, 0), u64::MAX);
}

#[test]
fn words_and_timespecs_stand_in_memory() {
    let mut bytes = vec![9];
    push_word(&mut bytes, 0x0102_0304_0506_0708);
    assert_eq!(bytes[1], 8);
    assert_eq!(read_word(&bytes, 1), 0x0102_0304_0506_0708);
    let bytes = encode_timespec(-1, 999);
    assert_eq!(bytes.len(), 16);
    assert_eq!(decode_timespec(&bytes), (-1, 999));
}

#[test]
fn the_shared_object_is_hidden_from_the_auxiliary_vector() {
    let stack = [1, 0xaaaa, 0, 0xbbbb, 0, 6, 4096, AT_SYSINFO_EHDR, 0xcccc, 0, 0];
    let mut scan = AuxvScan::new(1000);
    let mut edits = Vec::new();
    while let Some(address) = scan.wants() {
        let word = stack[((address - 1000) / 8) as usize];
        assert!(scan.accepts(word));
        if let AuxvEdit::Ignore { at } = scan.feed(word) {
            edits.push(at);
        }
    }
    assert_eq!(edits, vec![1000 + 7 * 8]);
    assert_eq!(scan, AuxvScan::Done { rewritten: true });
}

#[test]
fn the_thread_group_is_read_from_a_status_text() {
    let text = "Name:\tcat\nTgid:\t1234\nPid:\t77\n";
    assert_eq!(parse_tgid(text), Ok(1234));
    assert_eq!(parse_tgid("Pid:\t77\n"), Err(TgidError::Missing));
    assert_eq!(parse_tgid("Tgid:\tx\n"), Err(TgidError::Invalid));
}

#[test]
fn white_space_round_a_thread_group_is_unicode_white_space() {
    assert_eq!(parse_tgid("Tgid:\u{a0}\u{3000} 17\u{2009}\u{85}\r\nPid:\t3"), Ok(17));
    assert_eq!(parse_tgid("Tgid:\t-5\u{1680}\u{202f}"), Ok(-5));
    assert_eq!(parse_tgid("Tgid:\u{200b}17\n"), Err(TgidError::Invalid));
    assert_eq!(parse_tgid("Tgid:\t1 7\n"), Err(TgidError::Invalid));
}

#[test]
fn watched_descriptors_are_read_from_memory() {
    assert_eq!(pollfd_bytes(2), 16);
    assert_eq!(fdset_bytes(65), 16);
    let pollfds = vec![3, 0, 0, 0, 1, 0, 0, 0, 255, 255, 255, 255, 1, 0, 0, 0];
    assert_eq!(decode_pollfds(&pollfds), vec![(3, POLLIN)]);
    let read = Some(vec![0b1000_0001, 0, 0, 0, 0, 0, 0, 0]);
    let write = Some(vec![0b10, 0, 0, 0, 0, 0, 0, 0]);
    assert_eq!(
        decode_fdsets(8, &read, &write, &None),
        vec![(0, POLLIN), (7, POLLIN), (1, POLLOUT)]
    );
    assert_eq!(poll_verdict(1, 0), Readiness::Ready);
    assert_eq!(poll_verdict(-1, 4), Readiness::NotReady);
    assert_eq!(poll_verdict(-1, 9), Readiness::Failed);
}

#[test]
fn counters_become_feedback_and_arrive_once() {
    let feedback = feedback_from_counters(&vec![0, 1, 9]);
    let raw: Vec<u64> = feedback.features().iter().iter().map(|id| id.raw()).collect();
    assert_eq!(raw, vec![1 << 8, (2 << 8) | 4]);
    assert_eq!(feedback.hit_count_weight(), 6);
    let mut capture = SandboxCoverage::new();
    assert!(matches!(capture.start_capture(), Ok(CaptureStart::Started(()))));
    capture.store(Some(vec![0, 1, 9]));
    assert!(capture.slot().counters.is_some());
    assert_eq!(capture.finish_capture(()).expect("feedback").features().len(), 2);
    assert!(capture.finish_capture(()).expect("feedback").features().is_empty());
}

#[test]
fn variants_have_fixed_sizes() {
    assert_eq!([0, 1, 2, 3].map(quantum_ns), [1_000, 100, 10_000, 1_000_000]);
    assert_eq!(
        [0, 1, 2, 3, 4, 5].map(magnitude_ns),
        [
            1_000_000,
            10_000_000,
            100_000_000,
            1_000_000_000,
            10_000_000_000,
            60_000_000_000
        ]
    );
}

#[test]
fn decisions_cost_by_jumps_and_time() {
    let mut decisions = Decisions::new(1, 0, vec![Jump { kind: 2, magnitude: 0 }]);
    assert_eq!(decisions.cost(3 * NANOS), 3);
    decisions.jumps_used = 1;
    decisions.non_natural_jumps = 1;
    assert_eq!(decisions.cost(3 * NANOS), 11_003);
}

#[test]
fn a_case_of_zeros_draws_natural_decisions() {
    let case = Trace::from_raw_parts(0, vec![], true);
    let mut rng: CaseRng<()> = CaseRng::new(&case, CandidateOrigin::SeededCase, None);
    let decisions = Decisions::draw(&mut rng, 4);
    assert_eq!((decisions.quantum_variant, decisions.realtime_variant), (0, 0));
    assert!(decisions.jumps.is_empty());
}

#[test]
fn a_clock_read_is_answered_from_the_virtual_clock() {
    let mut run = sandbox(natural(), None);
    let read = regs(SYS_CLOCK_GETTIME, [CLOCK_MONOTONIC as u64, 0x9000, 0]);
    let actions = run.on_seccomp(50, read, (0, 0), &nothing_watched());
    assert!(actions.contains(&Action::WriteTimespec {
        tid: 50,
        addr: 0x9000,
        secs: 1_000_000,
        nanos: 1_000,
    }));
    assert!(actions.contains(&Action::SetRegs { tid: 50, regs: skipped(read, 0) }));
    assert_eq!(run.stats.clock_reads, 1);
}

#[test]
fn sleepers_wake_when_time_jumps_to_their_deadline() {
    let mut run = sandbox(natural(), None);
    let sleep = regs(SYS_NANOSLEEP, [0x9000, 0, 0]);
    assert_eq!(run.wanted_time(50, sleep), Some(0x9000));
    run.on_seccomp(50, sleep, (2, 0), &nothing_watched());
    assert!(run.is_parked(50));
    assert!(run.all_parked());
    assert!(run.ready_for_event());
    let mut actions = Vec::new();
    assert!(matches!(run.quiesce(&mut actions), Quiescence::Advanced));
    assert_eq!(run.clock.now(), 2 * NANOS);
    assert!(!run.is_parked(50));
    assert!(actions.contains(&Action::FinishSleep { tid: 50 }));
    assert_eq!((run.stats.jumps, run.stats.natural_jumps), (1, 1));
}

#[test]
fn a_jump_can_overshoot_the_deadline() {
    let jumps = vec![Jump { kind: 2, magnitude: 3 }];
    let mut run = sandbox(Decisions::new(0, 0, jumps), None);
    run.on_seccomp(50, regs(SYS_NANOSLEEP, [0x9000, 0, 0]), (2, 0), &nothing_watched());
    run.quiesce(&mut Vec::new());
    assert_eq!(run.clock.now(), 3 * NANOS);
}

#[test]
fn time_beyond_the_limit_ends_the_run() {
    let mut run = sandbox(natural(), Some(NANOS));
    run.on_seccomp(50, regs(SYS_NANOSLEEP, [0x9000, 0, 0]), (2, 0), &nothing_watched());
    assert!(matches!(run.quiesce(&mut Vec::new()), Quiescence::LimitReached));
    assert_eq!(run.forced, Some(Outcome::VirtualLimit));
}

#[test]
fn threads_that_wait_without_a_deadline_are_a_deadlock() {
    let mut run = sandbox(natural(), None);
    let mut actions = Vec::new();
    assert!(matches!(run.quiesce(&mut actions), Quiescence::Untimed));
    run.declare_deadlock(&mut actions);
    assert_eq!(run.forced, Some(Outcome::Deadlock));
    assert!(actions.iter().any(|action| matches!(
        action,
        Action::Log { event: Event::Deadlock(_), .. }
    )));
}

#[test]
fn random_bytes_are_asked_of_the_case() {
    let mut run = sandbox(natural(), None);
    let ask = regs(SYS_GETRANDOM, [0x9000, 8, 0]);
    let actions = run.on_seccomp(50, ask, (0, 0), &nothing_watched());
    assert!(actions.contains(&Action::WriteRandom { tid: 50, addr: 0x9000, len: 8 }));
    assert_eq!(run.decisions.random_bytes, 8);
}

#[test]
fn announced_counters_are_remembered() {
    let mut run = sandbox(natural(), None);
    assert_eq!(run.counters(50), None);
    let call = regs(ANNOUNCE_NR, [0x5000, 0x5100, 0]);
    let actions = run.on_seccomp(50, call, (0, 0), &nothing_watched());
    assert!(!actions.is_empty());
    assert!(run.counters(50).is_some());
}

#[test]
fn plans_go_by_the_system_call() {
    let clock = VirtualClock::new(1);
    let read = regs(SYS_CLOCK_GETTIME, [CLOCK_MONOTONIC as u64, 0x9000, 0]);
    assert!(matches!(
        plan(&clock, &None, read, (0, 0)),
        Plan::ReadClock { clockid } if clockid == CLOCK_MONOTONIC as i64
    ));
    let sleep = regs(SYS_NANOSLEEP, [0x9000, 0, 0]);
    assert!(matches!(plan(&clock, &None, sleep, (1, 0)), Plan::Sleep { until: NANOS }));
    let wake = regs(SYS_FUTEX, [0x9000, 1, 1]);
    assert!(matches!(plan(&clock, &None, wake, (0, 0)), Plan::Wake { .. }));
}

#[test]
fn only_a_probe_needs_room_below_the_stack() {
    let run = sandbox(natural(), None);
    let low = |nr: i64, args: [u64; 3], r10: u64| Regs { rsp: 8, rip: 0, r10, ..regs(nr, args) };
    assert!(run.handleable(50, low(SYS_CLOCK_GETTIME, [CLOCK_MONOTONIC as u64, 0x9000, 0], 0), (0, 0)));
    assert!(run.handleable(50, low(SYS_NANOSLEEP, [0x9000, 0, 0], 0), (1, 0)));
    assert!(run.handleable(50, low(SYS_FUTEX, [0x9000, 1, 1], 0), (0, 0)));
    let wait = low(SYS_FUTEX, [0x9000, 0, 1], 0x9100);
    assert!(!run.handleable(50, wait, (1, 0)));
    assert!(run.handleable(50, Regs { rsp: 512, ..wait }, (1, 0)));
}

#[test]
fn stops_are_told_apart() {
    let mut run = sandbox(natural(), None);
    let stop = |event: i32| (event << 16) | (SIGTRAP << 8) | 0x7f;
    assert!(matches!(run.handle_stop(50, 50, stop(PTRACE_EVENT_SECCOMP)).0, Next::Seccomp));
    assert!(matches!(run.handle_stop(50, 50, stop(PTRACE_EVENT_EXIT)).0, Next::Exiting));
    assert!(matches!(run.handle_stop(51, 50, stop(PTRACE_EVENT_SECCOMP)).0, Next::Seccomp));
    assert!(run.knows(51));
    let (next, _) = run.handle_stop(50, 50, 7 << 8);
    assert!(matches!(next, Next::Done));
    assert_eq!(run.outcome(true), Outcome::Hang);
    assert_eq!(run.outcome(false), Outcome::Exited(7));
    assert_eq!(run.outcome(false), Outcome::Error("main thread never reported exit".to_string()));
    assert!(Outcome::Exited(7).is_failure());
    assert!(!Outcome::Exited(0).is_failure());
}

#[test]
fn the_filter_tests_each_traced_call() {
    let calls = traced_syscalls();
    let program = build_filter(&calls);
    for call in calls {
        assert!(program.iter().any(|instruction| instruction.k == call as u32));
    }
}

#[test]
fn events_are_logged_one_to_a_line() {
    let jump = Event::Jump { kind: 2, magnitude: 3, target: 9 };
    assert_eq!(event_line(0, 5, jump), "t0 @5 jump kind=2 mag=3 -> 9");
    let probe = Event::Probe { nr: 7, result: -110, block: true };
    assert_eq!(event_line(1, 0, probe), "t1 @0 probe nr=7 result=-110 block=true");
    assert_eq!(event_line(2, 1, Event::Exited(-1)), "t2 @1 exit Exited(-1)");
    assert_eq!(event_line(2, 1, Event::Timeout(WaitKind::Poll)), "t2 @1 timeout Poll");
    assert_eq!(event_line(0, 0, Event::Exec { vdso_hidden: false }), "t0 @0 exec vdso_hidden=false");
    assert_eq!(event_line(0, 0, Event::Sleep(u64::MAX)), format!("t0 @0 sleep {}", u64::MAX));
}

#[test]
fn watched_descriptors_decide_readiness() {
    assert_eq!(any_ready(0, Some((3, 0))), Readiness::NotReady);
    assert_eq!(any_ready(2, None), Readiness::Ready);
    assert_eq!(any_ready(2, Some((1, 0))), Readiness::Ready);
    assert_eq!(any_ready(2, Some((0, 0))), Readiness::NotReady);
    assert_eq!(any_ready(2, Some((-1, 4))), Readiness::NotReady);
    assert_eq!(any_ready(2, Some((-1, 22))), Readiness::Failed);
}

#[test]
fn a_run_takes_turns() {
    let mut run = Run::new(Decisions::new(0, 0, Vec::new()), 7, None);
    assert_eq!(run.take_turn(), Turn::Finished);
    run.register(7, 7, false);
    assert_eq!(run.take_turn(), Turn::Await);
    run.forced = Some(Outcome::Deadlock);
    assert_eq!(run.take_turn(), Turn::Stop(Outcome::Deadlock));
    assert_eq!(run.take_turn(), Turn::Await);
}

#[test]
fn the_first_stop_is_a_trap_of_the_program() {
    assert!(is_first_stop(9, 9, 0x057f));
    assert!(!is_first_stop(9, 8, 0x057f));
    assert!(!is_first_stop(9, 9, 0x137f));
    assert!(!is_first_stop(9, 9, 0));
}
