//! Laws of the sandbox: how its judgements of different calls hang together.

use vstd::prelude::*;

use super::clock::{VirtualClock, MONOTONIC_EPOCH_NS, REALTIME_BASE_NS};
use super::sandbox::{
    after_jump, after_timeouts, carried_out, clock_after, counters_spec, delivered, gone,
    is_earliest, is_latest, jump_target, magnitude_spec, next_jump, next_spec, plan_spec, position,
    probe_regs_spec, quantum_spec, registered, reissue_spec, scratch_spec, syscall_stopped,
    taken_up, Action, Decisions, Jump, Next, Plan, Probe, Run, Thread, Watched, FUTEX_CMD_MASK,
};
use super::waits::{pollfd_events, pollfd_fd, pollfds, WaitKind};
use crate::linux::{
    Regs, CLOCK_MONOTONIC, CLOCK_REALTIME, ENOSYS, ETIMEDOUT, FUTEX_CLOCK_REALTIME, FUTEX_WAIT,
    FUTEX_WAIT_BITSET, SIGSTOP, SIGTRAP, SYS_CLOCK_NANOSLEEP, SYS_EPOLL_PWAIT, SYS_EPOLL_PWAIT2,
    SYS_EPOLL_WAIT, SYS_FUTEX, SYS_GETRANDOM, SYS_NANOSLEEP, SYS_POLL, SYS_PPOLL, SYS_PSELECT6,
    SYS_SELECT, TIMER_ABSTIME,
};

verus! {

/// A wait for so many milliseconds ends as many millions of nanoseconds from now; zero does not
/// wait, and less than zero waits without end.
pub proof fn milliseconds_are_waited_out(
    clock: VirtualClock,
    regs: Regs,
    ms: i32,
    time: (i64, i64),
)
    requires
        ({
            ||| regs.orig_rax as i64 == SYS_POLL && regs.rdx as i32 == ms
            ||| regs.orig_rax as i64 == SYS_EPOLL_WAIT && regs.r10 as i32 == ms
            ||| regs.orig_rax as i64 == SYS_EPOLL_PWAIT && regs.r10 as i32 == ms
        }),
        clock.vnow + ms * 1_000_000 <= u64::MAX,
    ensures
        ms > 0 ==> plan_spec(clock, None, regs, time) == (Plan::Probe {
            kind: WaitKind::Poll,
            deadline: Some((clock.vnow + ms * 1_000_000) as u64),
        }),
        ms == 0 ==> plan_spec(clock, None, regs, time) == Plan::Native,
        ms < 0 ==> plan_spec(clock, None, regs, time) == (Plan::Probe {
            kind: WaitKind::Poll,
            deadline: None,
        }),
{
}

/// Waits agree in their units: so many milliseconds in a register end when the same span in a
/// timespec ends, and when a sleep of that span ends.
pub proof fn waits_agree_in_their_units(
    clock: VirtualClock,
    short: Regs,
    long: Regs,
    sleep: Regs,
    ms: i32,
    any: (i64, i64),
)
    requires
        ({
            ||| short.orig_rax as i64 == SYS_POLL && short.rdx as i32 == ms
            ||| short.orig_rax as i64 == SYS_EPOLL_WAIT && short.r10 as i32 == ms
            ||| short.orig_rax as i64 == SYS_EPOLL_PWAIT && short.r10 as i32 == ms
        }),
        ({
            ||| long.orig_rax as i64 == SYS_PPOLL && long.rdx != 0
            ||| long.orig_rax as i64 == SYS_PSELECT6 && long.r8 != 0
            ||| long.orig_rax as i64 == SYS_EPOLL_PWAIT2 && long.r10 != 0
            ||| long.orig_rax as i64 == SYS_FUTEX && (long.rsi & FUTEX_CMD_MASK) as i32
                == FUTEX_WAIT && long.r10 != 0
        }),
        ({
            ||| sleep.orig_rax as i64 == SYS_NANOSLEEP
            ||| sleep.orig_rax as i64 == SYS_CLOCK_NANOSLEEP && sleep.rsi & TIMER_ABSTIME == 0
        }),
        ms > 0,
        clock.vnow < u64::MAX,
    ensures
        ({
            let span = ((ms / 1000) as i64, ((ms % 1000) * 1_000_000) as i64);
            &&& plan_spec(clock, None, short, any) matches Plan::Probe { deadline: Some(a), .. }
            &&& plan_spec(clock, None, long, span) matches Plan::Probe { deadline: Some(b), .. }
            &&& plan_spec(clock, None, sleep, span) matches Plan::Sleep { until }
            &&& a == b
            &&& b == until
        }),
{
}

/// A `select` counts microseconds where a `pselect6` counts nanoseconds.
pub proof fn selects_agree_in_their_units(
    clock: VirtualClock,
    select: Regs,
    pselect: Regs,
    secs: i64,
    micros: i64,
)
    requires
        select.orig_rax as i64 == SYS_SELECT,
        pselect.orig_rax as i64 == SYS_PSELECT6,
        select.r8 != 0,
        pselect.r8 != 0,
        0 <= secs,
        0 <= micros,
        micros * 1000 <= i64::MAX,
        0 < secs + micros,
        clock.vnow + secs * 1_000_000_000 + micros * 1000 <= u64::MAX,
    ensures
        plan_spec(clock, None, select, (secs, micros)) == plan_spec(
            clock,
            None,
            pselect,
            (secs, (micros * 1000) as i64),
        ),
        plan_spec(clock, None, select, (secs, micros)) == (Plan::Probe {
            kind: WaitKind::Poll,
            deadline: Some((clock.vnow + secs * 1_000_000_000 + micros * 1000) as u64),
        }),
{
}

/// A futex wait with a relative timeout ends that long from now; one with a bit set names the
/// instant itself, on the monotonic clock or on the wall clock; without a timeout it has no end.
pub proof fn futex_waits_end_on_time(clock: VirtualClock, regs: Regs, secs: i64, nanos: i64)
    requires
        regs.orig_rax as i64 == SYS_FUTEX,
        0 <= secs,
        0 <= nanos,
        clock.vnow + secs * 1_000_000_000 + nanos <= u64::MAX,
        0 <= REALTIME_BASE_NS + clock.realtime_step_ns <= u64::MAX,
    ensures
        ({
            let command = (regs.rsi & FUTEX_CMD_MASK) as i32;
            let plan = plan_spec(clock, None, regs, (secs, nanos));
            let span = secs * 1_000_000_000 + nanos;
            let base = if regs.rsi & FUTEX_CLOCK_REALTIME != 0 {
                REALTIME_BASE_NS + clock.realtime_step_ns
            } else {
                MONOTONIC_EPOCH_NS as int
            };
            &&& (command == FUTEX_WAIT || command == FUTEX_WAIT_BITSET) && regs.r10 == 0 ==> plan
                == (Plan::Probe { kind: WaitKind::Futex, deadline: None })
            &&& command == FUTEX_WAIT && regs.r10 != 0 ==> plan == (Plan::Probe {
                kind: WaitKind::Futex,
                deadline: Some((clock.vnow + span) as u64),
            })
            &&& command == FUTEX_WAIT_BITSET && regs.r10 != 0 ==> plan == (Plan::Probe {
                kind: WaitKind::Futex,
                deadline: Some(
                    if span >= base {
                        (span - base) as u64
                    } else {
                        0
                    },
                ),
            })
        }),
{
}

/// A sleep until an instant and a sleep for the span that is left until then end together.
pub proof fn sleeps_agree(clock: VirtualClock, absolute: Regs, relative: Regs, span: u64)
    requires
        absolute.orig_rax as i64 == SYS_CLOCK_NANOSLEEP,
        absolute.rsi & TIMER_ABSTIME != 0,
        absolute.rdi as i64 as i32 == CLOCK_MONOTONIC,
        relative.orig_rax as i64 == SYS_NANOSLEEP || relative.orig_rax as i64
            == SYS_CLOCK_NANOSLEEP && relative.rsi & TIMER_ABSTIME == 0,
        MONOTONIC_EPOCH_NS + clock.vnow + span <= u64::MAX,
    ensures
        ({
            let instant = MONOTONIC_EPOCH_NS + clock.vnow + span;
            let at = ((instant / 1_000_000_000) as i64, (instant % 1_000_000_000) as i64);
            let within = ((span / 1_000_000_000) as i64, (span % 1_000_000_000) as i64);
            &&& plan_spec(clock, None, absolute, at) == (Plan::Sleep {
                until: (clock.vnow + span) as u64,
            })
            &&& plan_spec(clock, None, relative, within) == (Plan::Sleep {
                until: (clock.vnow + span) as u64,
            })
        }),
{
}

/// A probe is the same call but for its timeout, which is zero: in the register itself, or in
/// memory below the stack that the register points to.
pub proof fn probes_change_only_the_timeout(regs: Regs)
    ensures
        ({
            let probe = probe_regs_spec(regs);
            let nr = regs.orig_rax as i64;
            let in_rdx = nr == SYS_POLL || nr == SYS_PPOLL;
            let in_r8 = nr == SYS_SELECT || nr == SYS_PSELECT6;
            let in_register = nr == SYS_POLL || nr == SYS_EPOLL_WAIT || nr == SYS_EPOLL_PWAIT;
            let zero = if in_register {
                0
            } else {
                scratch_spec(regs)
            };
            &&& probe == (Regs { rdx: probe.rdx, r8: probe.r8, r10: probe.r10, ..regs })
            &&& probe.rdx == if in_rdx {
                zero
            } else {
                regs.rdx
            }
            &&& probe.r8 == if in_r8 {
                zero
            } else {
                regs.r8
            }
            &&& probe.r10 == if !in_rdx && !in_r8 {
                zero
            } else {
                regs.r10
            }
        }),
{
}

/// The zero timeout of a probe lies below the stack, beyond the red zone and on a boundary of
/// sixteen bytes, and the whole of it lies below what the thread may still use.
pub proof fn scratch_lies_below_the_stack(regs: Regs)
    requires
        regs.rsp >= 512,
    ensures
        scratch_spec(regs) % 16 == 0,
        scratch_spec(regs) + 512 <= regs.rsp,
        regs.rsp < scratch_spec(regs) + 512 + 16,
{
    let below: u64 = (regs.rsp - 512) as u64;
    assert((below & 0xFFFF_FFFF_FFFF_FFF0) % 16 == 0) by (bit_vector);
    assert((below & 0xFFFF_FFFF_FFFF_FFF0) <= below) by (bit_vector);
    assert(below - (below & 0xFFFF_FFFF_FFFF_FFF0) < 16) by (bit_vector);
}

/// A parked call that is issued again is the call that the thread first made: the instruction
/// pointer stands at the call, its number is back in place, and nothing else has changed.
pub proof fn reissued_calls_are_as_they_were(probe: Probe)
    requires
        probe.entry_regs.rip >= 2,
        probe.nr == probe.entry_regs.orig_rax as i64,
    ensures
        reissue_spec(probe) == (Regs {
            rip: (probe.entry_regs.rip - 2) as u64,
            rax: probe.nr as u64,
            orig_rax: probe.nr as u64,
            ..probe.entry_regs
        }),
{
}

/// A wake restarts every thread that waits on the word, and leaves every other thread alone. A
/// restarted thread keeps its deadline. What the caller is told counts each of them once.
pub proof fn wakes_reach_the_waiters(
    pre: Run,
    post: Run,
    at: int,
    regs: Regs,
    second: bool,
    memory: Watched,
    actions: Seq<Action>,
    i: int,
)
    requires
        carried_out(pre, post, at, regs, Plan::Wake { second }, memory, actions),
        0 <= at < pre.threads@.len(),
        0 <= i < pre.threads@.len(),
    ensures
        ({
            let process = pre.threads@[at].tgid;
            let woken = pre.threads@[i].wait matches Some(w) && (w.futex == Some(
                (process, regs.rdi),
            ) || second && w.futex == Some((process, regs.r8)));
            &&& post.threads@.len() == pre.threads@.len()
            &&& !woken ==> post.threads@[i] == pre.threads@[i]
            &&& woken ==> {
                &&& post.threads@[i].wait is None
                &&& post.threads@[i].probe is None
                &&& post.threads@[i].restart matches Some(r) && r.deadline
                    == pre.threads@[i].wait.unwrap().deadline
                &&& post.threads@[i].tid == pre.threads@[i].tid
            }
            &&& post.clock == pre.clock
            &&& post.stats.wakes == (pre.stats.wakes + 1) as usize
        }),
{
}

/// A thread that found its futex word unchanged is parked, keeps the deadline of its wait and the
/// word it waits on, and is restarted by a wake on that word.
pub proof fn parked_threads_are_woken(
    before: Run,
    parked: Run,
    after: Run,
    at: int,
    waker: int,
    regs: Regs,
    wake: Regs,
    memory: Watched,
    actions: Seq<Action>,
    wake_actions: Seq<Action>,
    word: u64,
)
    requires
        0 <= at < before.threads@.len(),
        0 <= waker < before.threads@.len(),
        before.threads@[at].probe matches Some(p) && p.kind == WaitKind::Futex && p.seen_entry
            && p.futex == Some((before.threads@[at].tgid, word)) && (p.deadline matches Some(d)
            ==> d > before.clock.vnow),
        regs.rax as i64 == -ETIMEDOUT,
        syscall_stopped(before, parked, at, regs, actions),
        parked.threads@[waker].tgid == parked.threads@[at].tgid,
        wake.rdi == word,
        carried_out(
            parked,
            after,
            waker,
            wake,
            Plan::Wake { second: false },
            memory,
            wake_actions,
        ),
    ensures
        parked.threads@[at].wait matches Some(w) && w.kind == WaitKind::Futex && w.deadline
            == before.threads@[at].probe.unwrap().deadline,
        after.threads@[at].wait is None,
        after.threads@[at].restart matches Some(r) && r.deadline
            == before.threads@[at].probe.unwrap().deadline,
{
    wakes_reach_the_waiters(
        parked,
        after,
        waker,
        wake,
        false,
        memory,
        wake_actions,
        at,
    );
}

/// The result of a probe is handed on unless it says that the call would have blocked: a futex
/// wait that timed out at once, a poll that found nothing. A call whose deadline has come is not
/// parked either.
pub proof fn only_blocked_calls_are_parked(
    pre: Run,
    post: Run,
    at: int,
    regs: Regs,
    actions: Seq<Action>,
)
    requires
        syscall_stopped(pre, post, at, regs, actions),
        0 <= at < pre.threads@.len(),
        pre.threads@[at].wait is None,
        pre.threads@[at].probe is Some,
        pre.threads@[at].probe.unwrap().kind != WaitKind::Sleep,
        pre.threads@[at].probe.unwrap().seen_entry || regs.rax as i64 != -ENOSYS,
    ensures
        ({
            let probe = pre.threads@[at].probe.unwrap();
            let result = regs.rax as i64;
            let blocks = if probe.kind == WaitKind::Futex {
                result == -ETIMEDOUT
            } else {
                result == 0
            };
            let over = probe.deadline matches Some(d) && d <= pre.clock.vnow;
            &&& post.threads@[at].wait is Some <==> blocks && !over
            &&& !(blocks && !over) ==> post.threads@[at].probe is None && actions.last() == (
            Action::Resume { tid: pre.threads@[at].tid, signal: 0 })
            &&& post.clock == pre.clock
            &&& forall|i: int|
                0 <= i < pre.threads@.len() && i != at ==> #[trigger] post.threads@[i]
                    == pre.threads@[i]
        }),
{
}

/// A sleep that is not over parks its thread until its end, and time alone wakes it: at no moment
/// before its end, and at every moment from then on.
pub proof fn sleepers_wake_on_time(
    pre: Run,
    post: Run,
    at: int,
    regs: Regs,
    until: u64,
    memory: Watched,
    actions: Seq<Action>,
    now: u64,
)
    requires
        carried_out(pre, post, at, regs, Plan::Sleep { until }, memory, actions),
        0 <= at < pre.threads@.len(),
        pre.threads@[at].wait is None,
    ensures
        post.threads@[at].wait is Some <==> until > pre.clock.vnow,
        until > pre.clock.vnow && now < until ==> after_timeouts(post.threads@, now)[at]
            == post.threads@[at],
        until > pre.clock.vnow && now >= until ==> after_timeouts(post.threads@, now)[at].wait
            is None,
        until <= pre.clock.vnow ==> actions.last() == (Action::Resume {
            tid: pre.threads@[at].tid,
            signal: 0,
        }),
{
}

/// The three calls that ask for the wall-clock time agree: `gettimeofday` tells the microseconds
/// of what `clock_gettime` tells in nanoseconds, `time` the seconds; and each lets as much time
/// pass.
pub proof fn wall_clock_calls_agree(
    pre: Run,
    by_clock: Run,
    by_day: Run,
    by_time: Run,
    at: int,
    asked: Regs,
    day: Regs,
    time: Regs,
    memory: Watched,
    clock_actions: Seq<Action>,
    day_actions: Seq<Action>,
    time_actions: Seq<Action>,
)
    requires
        0 <= at < pre.threads@.len(),
        asked.rsi != 0,
        day.rdi != 0,
        time.rdi != 0,
        carried_out(
            pre,
            by_clock,
            at,
            asked,
            Plan::ReadClock { clockid: CLOCK_REALTIME as i64 },
            memory,
            clock_actions,
        ),
        carried_out(pre, by_day, at, day, Plan::ReadTimeOfDay, memory, day_actions),
        carried_out(pre, by_time, at, time, Plan::ReadTime, memory, time_actions),
    ensures
        ({
            &&& clock_actions[0] matches Action::WriteTimespec { addr, secs, nanos, .. } && addr
                == asked.rsi && 0 <= nanos < 1_000_000_000 && (
            day_actions[0] matches Action::WriteTimespec { addr, secs: s, nanos: micros, .. }
                && addr == day.rdi && s == secs && micros * 1000 <= nanos < (micros + 1) * 1000) && (
            time_actions[0] matches Action::WriteWord { addr, value, .. } && addr == time.rdi
                && value == secs as u64)
            &&& by_clock.clock == by_day.clock
            &&& by_day.clock == by_time.clock
        }),
{
}

/// A call for random bytes is answered with as many as it asks for, up to a page: so many are
/// written to its buffer, and so many it is told.
pub proof fn random_requests_are_answered(
    pre: Run,
    post: Run,
    at: int,
    regs: Regs,
    time: (i64, i64),
    memory: Watched,
    actions: Seq<Action>,
)
    requires
        0 <= at < pre.threads@.len(),
        regs.orig_rax as i64 == SYS_GETRANDOM,
        carried_out(
            pre,
            post,
            at,
            regs,
            plan_spec(pre.clock, None, regs, time),
            memory,
            actions,
        ),
    ensures
        ({
            let len = if regs.rsi <= 4096 {
                regs.rsi
            } else {
                4096
            };
            &&& actions[0] == (Action::WriteRandom {
                tid: pre.threads@[at].tid,
                addr: regs.rdi,
                len: len as usize,
            })
            &&& actions[2] matches Action::SetRegs { regs: next, .. } && next.rax == len
                && next.orig_rax == u64::MAX
            &&& post.decisions.random_bytes == (pre.decisions.random_bytes + len) as usize
        }),
{
    let len: usize = (if regs.rsi < 4096 {
        regs.rsi
    } else {
        4096
    }) as usize;
    assert(len as i64 as u64 == len);
    assert(actions[2] == (Action::SetRegs {
        tid: pre.threads@[at].tid,
        regs: super::sandbox::skipped_spec(regs, len as i64),
    }));
}

/// The spans of time that a run can be given differ by powers of ten: clock reads that take from
/// a tenth of a microsecond to a millisecond, and jumps from a millisecond to a minute.
pub proof fn drawn_spans_grow_by_tens(variant: int)
    requires
        0 <= variant < 4,
    ensures
        quantum_spec(0) == 1_000,
        quantum_spec(1) * 10 == quantum_spec(0),
        quantum_spec(2) == quantum_spec(0) * 10,
        quantum_spec(3) == quantum_spec(2) * 100,
        magnitude_spec(0) == quantum_spec(3),
        magnitude_spec(variant + 1) == magnitude_spec(variant) * 10,
        magnitude_spec(5) == magnitude_spec(4) * 6,
{
}

/// A jump takes time to the earliest deadline or beyond it: just there, to the latest one, or by
/// its magnitude past the earliest. One that steps the wall clock goes to the earliest too.
pub proof fn jumps_reach_a_deadline(
    jump: Jump,
    threads: Seq<Thread>,
    earliest: u64,
    latest: u64,
)
    requires
        is_earliest(threads, earliest),
        is_latest(threads, latest),
        jump.magnitude < 6,
    ensures
        jump_target(jump, earliest, latest) >= earliest,
        jump.kind == 0 || jump.kind == 3 ==> jump_target(jump, earliest, latest) == earliest,
        jump.kind == 1 ==> forall|i: int|
            0 <= i < threads.len() ==> ((#[trigger] threads[i]).waits_until() matches Some(d)
                ==> d <= jump_target(jump, earliest, latest)),
        jump.kind == 2 && earliest + magnitude_spec(jump.magnitude as int) <= u64::MAX
            ==> jump_target(jump, earliest, latest) - earliest == magnitude_spec(
            jump.magnitude as int,
        ),
        jump.kind == 2 && earliest + magnitude_spec(jump.magnitude as int) > u64::MAX
            ==> jump_target(jump, earliest, latest) == u64::MAX,
{
}

/// The drawn jumps are taken in the order in which they were drawn, each once; then time moves
/// naturally.
pub proof fn jumps_are_taken_in_order(decisions: Decisions)
    requires
        decisions.jumps@.len() <= usize::MAX,
        decisions.non_natural_jumps < usize::MAX,
    ensures
        decisions.jumps_used < decisions.jumps@.len() ==> {
            &&& next_jump(decisions) == decisions.jumps@[decisions.jumps_used as int]
            &&& after_jump(decisions).jumps_used == decisions.jumps_used + 1
            &&& after_jump(decisions).non_natural_jumps - decisions.non_natural_jumps == if next_jump(
                decisions,
            ).kind == 0 {
                0int
            } else {
                1
            }
        },
        decisions.jumps_used >= decisions.jumps@.len() ==> next_jump(decisions).kind == 0
            && after_jump(decisions) == decisions,
        after_jump(decisions).jumps@ == decisions.jumps@,
        after_jump(decisions).quantum_variant == decisions.quantum_variant,
        after_jump(decisions).realtime_variant == decisions.realtime_variant,
        after_jump(decisions).random_bytes == decisions.random_bytes,
{
}

/// Virtual time never goes back at a quiescence, and the wall clock goes along with it, but for
/// its steps: the one that was drawn, an hour on or back and once in a run, and those of the
/// jumps that step it.
pub proof fn the_wall_clock_goes_along(run: Run, target: u64)
    requires
        run.decisions.realtime_variant < 3,
        next_jump(run.decisions).magnitude < 6,
        i64::MIN + 3_600_000_000_000 <= run.clock.realtime_step_ns <= i64::MAX - 3_660_000_000_000,
    ensures
        ({
            let after = clock_after(run, target);
            let jump = next_jump(run.decisions);
            let drawn = if run.realtime_applied || run.decisions.realtime_variant == 0 {
                0int
            } else if run.decisions.realtime_variant == 1 {
                3_600_000_000_000
            } else {
                -3_600_000_000_000
            };
            let stepped = if jump.kind == 3 {
                magnitude_spec(jump.magnitude as int) as int
            } else {
                0
            };
            &&& after.vnow >= run.clock.vnow
            &&& after.vnow >= target
            &&& after.vnow == target || after.vnow == run.clock.vnow
            &&& after.realtime_step_ns - run.clock.realtime_step_ns == drawn + stepped
            &&& after.quantum_ns == run.clock.quantum_ns
        }),
{
}

/// The end of a thread takes it out of the run, restarts the futex waiters of its process, and
/// leaves every other thread alone. The end of the main thread is the end that is reported.
pub proof fn ended_threads_are_gone(
    pre: Run,
    post: Run,
    tid: i32,
    status: i32,
    actions: Seq<Action>,
    i: int,
)
    requires
        gone(pre, post, tid, status, actions),
        registered(pre.threads@, tid),
        0 <= i < pre.threads@.len(),
        i != position(pre.threads@, tid),
    ensures
        post.threads@.len() == pre.threads@.len() - 1,
        tid != pre.main_pid ==> post.main_status == pre.main_status,
        tid == pre.main_pid ==> post.main_status is Some,
        ({
            let at = position(pre.threads@, tid);
            let there = post.threads@[if i < at {
                i
            } else {
                i - 1
            }];
            let t = pre.threads@[i];
            let waits = t.wait matches Some(w) && w.kind == WaitKind::Futex && t.tgid
                == pre.threads@[at].tgid;
            &&& !waits ==> there == t
            &&& waits ==> there.tid == t.tid && there.wait is None && (
            there.restart matches Some(r) && r.deadline == t.wait.unwrap().deadline)
        }),
        post.clock == pre.clock,
{
    let at = position(pre.threads@, tid);
    let rest = pre.threads@.remove(at);
    let k = if i < at {
        i
    } else {
        i - 1
    };
    assert(rest[k] == pre.threads@[i]);
}

/// The counters of a process are those that it announced last, cut at sixteen megabytes; what
/// another process announces is of no account.
pub proof fn the_last_announcement_counts(
    announced: Seq<(i32, u64, u64)>,
    tgid: i32,
    start: u64,
    end: u64,
    other: i32,
)
    ensures
        start <= end && end - start <= 16 * 1024 * 1024 ==> counters_spec(
            announced.push((tgid, start, end)),
            tgid,
        ) == Some((start, (end - start) as u64)),
        start <= end && end - start > 16 * 1024 * 1024 ==> counters_spec(
            announced.push((tgid, start, end)),
            tgid,
        ) == Some((start, 0x100_0000u64)),
        end < start ==> counters_spec(announced.push((tgid, start, end)), tgid) == Some(
            (start, 0u64),
        ),
        other != tgid ==> counters_spec(announced.push((tgid, start, end)), other)
            == counters_spec(announced, other),
        counters_spec(Seq::empty(), other) is None,
{
    assert(announced.push((tgid, start, end)).drop_last() =~= announced);
}

/// A thread that is not known is taken up behind those that are, under the next index and with
/// nothing to wait for; the others keep their places.
pub proof fn new_threads_are_taken_up(
    pre: Run,
    post: Run,
    tid: i32,
    tgid: i32,
    fresh: bool,
    i: int,
)
    requires
        taken_up(pre, post, tid, tgid, fresh),
        0 <= i < pre.threads@.len(),
        pre.next_index < usize::MAX,
        pre.stats.threads < usize::MAX,
    ensures
        registered(pre.threads@, tid) ==> post == pre,
        !registered(pre.threads@, tid) ==> {
            let at = position(post.threads@, tid);
            &&& post.threads@.len() == pre.threads@.len() + 1
            &&& post.threads@[at].tid == tid
            &&& post.threads@[at].tgid == tgid
            &&& post.threads@[at].index == pre.next_index
            &&& post.threads@[at].fresh == fresh
            &&& post.threads@[at].wait is None
            &&& post.threads@[at].probe is None
            &&& post.threads@[if i < at {
                i
            } else {
                i + 1
            }] == pre.threads@[i]
            &&& post.next_index == pre.next_index + 1
            &&& post.stats.threads == pre.stats.threads + 1
            &&& post.clock == pre.clock
        },
{
}

/// A signal is handed on to its thread, but for the stop that a new thread is born with, and for
/// those that stand for an event.
pub proof fn signals_are_handed_on(signal: i32, event: i32, fresh: bool)
    ensures
        event != 0 ==> delivered(signal, event, fresh) == 0,
        event == 0 && (signal != SIGSTOP || !fresh) ==> delivered(signal, event, fresh) == signal,
        event == 0 && signal == SIGSTOP && fresh ==> delivered(signal, event, fresh) == 0,
        signal != SIGTRAP && signal != SIGTRAP | 0x80i32 ==> next_spec(signal, event)
            == Next::Done,
        event == 0 && signal == SIGTRAP ==> next_spec(signal, event) == Next::Done,
{
    assert(5i32 | 0x80i32 == 0x85i32) by (bit_vector);
}

/// The descriptors of a `poll` call are those of its entries that are not negative, in their
/// order, each with the events that it asks for.
pub proof fn polled_descriptors_are_watched(bytes: Seq<u8>, n: int, i: int)
    requires
        0 <= i < n,
        8 * n <= bytes.len(),
    ensures
        pollfd_fd(bytes, i) >= 0 ==> pollfds(bytes, n).contains(
            (pollfd_fd(bytes, i), pollfd_events(bytes, i)),
        ),
        forall|k: int|
            0 <= k < pollfds(bytes, n).len() ==> (#[trigger] pollfds(bytes, n)[k]).0 >= 0,
        pollfds(bytes, n).len() <= n,
    decreases n,
{
    let before = pollfds(bytes, n - 1);
    let list = pollfds(bytes, n);
    if i < n - 1 {
        polled_descriptors_are_watched(bytes, n - 1, i);
        if pollfd_fd(bytes, i) >= 0 {
            let item = (pollfd_fd(bytes, i), pollfd_events(bytes, i));
            let k = choose|k: int| 0 <= k < before.len() && before[k] == item;
            assert(list[k] == item);
        }
    } else {
        if n > 1 {
            polled_descriptors_are_watched(bytes, n - 1, n - 2);
        }
        if pollfd_fd(bytes, i) >= 0 {
            assert(list[list.len() - 1] == (pollfd_fd(bytes, i), pollfd_events(bytes, i)));
        }
    }
    assert forall|k: int| 0 <= k < list.len() implies (#[trigger] list[k]).0 >= 0 by {
        if k < before.len() {
            assert(list[k] == before[k]);
        }
    }
}

} // verus!
