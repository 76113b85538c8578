//! The supervisor of a sandboxed program: answers its clock, parks its waiting threads, and moves
//! virtual time on when every thread is parked.
//!
//! [`Run`] decides; the caller stops threads, reads their registers and memory, hands both over,
//! and carries out the [`Action`]s that come back, in order.

use crate::execution::SemanticKind;
use crate::rng::{
    choices_lie_below, chooses, draws_add_up, draws_on, lemma_records_draw_nothing, opens_range,
    with_item_at, with_semantic, with_sequence, CaseRng, Edge, RangeModel, RngModel,
};
use vstd::prelude::*;

use super::clock::{VirtualClock, NANOS};
use super::seccomp::ANNOUNCE_NR;
use super::waits::{
    copy_readiness, decode_fdsets, decode_pollfds, fdset_bytes, fdset_len, pollfd_bytes, pollfds,
    select_members, view_of, watched, Restart, Wait, WaitKind,
};
use crate::linux::{
    decode_status, status_spec, Regs, Status, CLOCK_MONOTONIC, CLOCK_REALTIME, ENOSYS, ETIMEDOUT,
    FUTEX_CLOCK_REALTIME, FUTEX_CMP_REQUEUE, FUTEX_REQUEUE, FUTEX_WAIT, FUTEX_WAIT_BITSET,
    FUTEX_WAKE, FUTEX_WAKE_BITSET, FUTEX_WAKE_OP, POLLIN, PTRACE_EVENT_CLONE, PTRACE_EVENT_EXEC,
    PTRACE_EVENT_EXIT, PTRACE_EVENT_FORK, PTRACE_EVENT_SECCOMP, PTRACE_EVENT_VFORK, SIGSTOP,
    SIGTRAP, SYS_CLOCK_GETTIME, SYS_CLOCK_NANOSLEEP, SYS_EPOLL_PWAIT, SYS_EPOLL_PWAIT2,
    SYS_EPOLL_WAIT, SYS_FUTEX, SYS_GETRANDOM, SYS_GETTIMEOFDAY, SYS_NANOSLEEP, SYS_POLL, SYS_PPOLL,
    SYS_PSELECT6, SYS_SELECT, SYS_TIME, SYS_TIMERFD_SETTIME, TIMER_ABSTIME,
};

verus! {

/// Number of clock quanta, and of jump magnitudes, to choose from.
pub const QUANTUM_VARIANTS: usize = 4;

pub const MAGNITUDE_VARIANTS: usize = 6;

/// Size of one wall-clock step.
pub const REALTIME_STEP_NS: i64 = 3_600_000_000_000;

/// Futex command bits: everything but the private and the clock flag.
pub const FUTEX_CMD_MASK: u64 = 0xFFFF_FFFF_FFFF_FE7F;

pub const SYSCALL_INSN_LEN: u64 = 2;

/// Scratch bytes for zero timespecs live this far below the thread's stack pointer, well past the
/// red zone.
pub const SCRATCH_BELOW_RSP: u64 = 512;

/// No more random bytes than this are answered at once.
pub const MAX_RANDOM_BYTES: u64 = 4096;

/// Counter ranges longer than this are cut.
pub const MAX_COUNTER_BYTES: u64 = 16_777_216;

pub open spec fn quantum_spec(variant: int) -> u64 {
    if variant == 0 {
        1_000
    } else if variant == 1 {
        100
    } else if variant == 2 {
        10_000
    } else {
        1_000_000
    }
}

/// Nanoseconds that one clock read takes.
pub fn quantum_ns(variant: usize) -> (quantum: u64)
    requires
        variant < QUANTUM_VARIANTS,
    ensures
        quantum == quantum_spec(variant as int),
{
    if variant == 0 {
        1_000
    } else if variant == 1 {
        100
    } else if variant == 2 {
        10_000
    } else {
        1_000_000
    }
}

pub open spec fn magnitude_spec(variant: int) -> u64 {
    if variant == 0 {
        1_000_000
    } else if variant == 1 {
        10_000_000
    } else if variant == 2 {
        100_000_000
    } else if variant == 3 {
        1_000_000_000
    } else if variant == 4 {
        10_000_000_000
    } else {
        60_000_000_000
    }
}

/// Nanoseconds that a jump of this magnitude adds.
pub fn magnitude_ns(variant: u8) -> (magnitude: u64)
    requires
        variant < MAGNITUDE_VARIANTS,
    ensures
        magnitude == magnitude_spec(variant as int),
{
    if variant == 0 {
        1_000_000
    } else if variant == 1 {
        10_000_000
    } else if variant == 2 {
        100_000_000
    } else if variant == 3 {
        1_000_000_000
    } else if variant == 4 {
        10_000_000_000
    } else {
        60_000_000_000
    }
}

/// One scheduling decision.
#[derive(Debug, Clone, Copy, PartialEq, Eq, Structural)]
pub struct Jump {
    /// 0 = advance to the earliest deadline (natural), 1 = jump to the latest deadline,
    /// 2 = overshoot the earliest deadline by `magnitude`, 3 = natural + realtime step.
    pub kind: u8,
    pub magnitude: u8,
}

/// Everything the run drew from the case.
#[derive(Debug)]
pub struct Decisions {
    pub quantum_variant: usize,
    pub realtime_variant: usize,
    pub jumps: Vec<Jump>,
    pub jumps_used: usize,
    pub non_natural_jumps: usize,
    pub random_bytes: usize,
}

impl Decisions {
    /// Every variant lies within its table.
    pub open spec fn wf(self) -> bool {
        &&& self.quantum_variant < QUANTUM_VARIANTS
        &&& self.jumps_used <= self.jumps@.len()
        &&& self.non_natural_jumps <= self.jumps_used
        &&& forall|i: int|
            0 <= i < self.jumps@.len() ==> (#[trigger] self.jumps@[i]).magnitude
                < MAGNITUDE_VARIANTS
    }

    pub open spec fn cost_of(self, virtual_elapsed_ns: u64) -> int {
        self.jumps_used * 1000 + self.non_natural_jumps * 10_000 + virtual_elapsed_ns as int
            / NANOS as int
    }

    /// Decisions as drawn, before the run has used any.
    pub fn new(quantum_variant: usize, realtime_variant: usize, jumps: Vec<Jump>) -> (drawn: Self)
        ensures
            drawn == (Decisions {
                quantum_variant,
                realtime_variant,
                jumps,
                jumps_used: 0,
                non_natural_jumps: 0,
                random_bytes: 0,
            }),
    {
        Self {
            quantum_variant,
            realtime_variant,
            jumps,
            jumps_used: 0,
            non_natural_jumps: 0,
            random_bytes: 0,
        }
    }

    /// Draws the decisions of a run from a case.
    pub fn draw<Session>(rng: &mut CaseRng<Session>, max_jumps: usize) -> (drawn: Self)
        ensures
            drawn.wf(),
            drawn.jumps_used == 0,
            drawn.non_natural_jumps == 0,
            drawn.random_bytes == 0,
            drawn.jumps@.len() <= max_jumps,
            decisions_drawn(old(rng)@, final(rng)@, max_jumps, drawn),
            final(rng).session_of() == old(rng).session_of(),
            draws_on(*old(rng), *final(rng)),
    {
        let ghost first = rng@;
        let quantum_variant: usize = rng.variant(QUANTUM_VARIANTS);
        let ghost second = rng@;
        let ghost quantum_drawn = *rng;
        let realtime_variant: usize = rng.variant(3);
        let ghost third = rng@;
        let ghost shift_drawn = *rng;
        let mut range = rng.range(Edge::Included(0), Edge::Included(max_jumps));
        proof {
            draws_add_up(*old(rng), quantum_drawn, shift_drawn);
            assert(rng@.trace.take(third.trace.len() as int) =~= third.trace);
            draws_add_up(*old(rng), shift_drawn, *rng);
        }
        let ghost mut states: Seq<RngModel> = seq![rng@];
        let ghost mut ranges: Seq<RangeModel> = seq![range@];
        let mut jumps: Vec<Jump> = Vec::new();
        while jumps.len() < range.len()
            invariant
                states.len() == jumps@.len() + 1,
                ranges.len() == jumps@.len() + 1,
                states.last() == rng@,
                ranges.last() == range@,
                range@.index == jumps@.len(),
                range@.len == ranges[0].len,
                jumps@.len() <= range@.len,
                jumps_drawn(states, ranges, jumps@),
                opens_range(
                    third,
                    states[0],
                    Edge::Included(0),
                    Edge::Included(max_jumps),
                    ranges[0],
                ),
                forall|i: int|
                    0 <= i < jumps@.len() ==> (#[trigger] jumps@[i]).magnitude
                        < MAGNITUDE_VARIANTS,
                rng.session_of() == old(rng).session_of(),
                draws_on(*old(rng), *rng),
                old(rng)@.trace.len() <= rng@.trace.len(),
                rng@.prefix == old(rng)@.prefix,
                rng@.zero_tail == old(rng)@.zero_tail,
            decreases range@.len - jumps@.len(),
        {
            let ghost before = rng@;
            let ghost opened = *rng;
            let ghost range_before = range@;
            match range.next(rng) {
                Some(child) => {
                    let kind: usize = child.variant(rng, 4);
                    let ghost middle = rng@;
                    let ghost kind_drawn = *rng;
                    let magnitude: usize = child.variant(rng, MAGNITUDE_VARIANTS as usize);
                    let ghost end = rng@;
                    let ghost jump_done = *rng;
                    child.close(&mut range, rng);
                    let jump = Jump { kind: kind as u8, magnitude: magnitude as u8 };
                    proof {
                        draws_add_up(*old(rng), opened, kind_drawn);
                        draws_add_up(*old(rng), kind_drawn, jump_done);
                        lemma_records_draw_nothing(*old(rng), jump_done, *rng);
                        choices_lie_below(before, middle, 4, SemanticKind::Variant, kind);
                        choices_lie_below(
                            middle,
                            end,
                            MAGNITUDE_VARIANTS as usize,
                            SemanticKind::Variant,
                            magnitude,
                        );
                        assert(chooses(before, middle, 4, SemanticKind::Variant, jump.kind as usize));
                        assert(chooses(
                            middle,
                            end,
                            MAGNITUDE_VARIANTS as usize,
                            SemanticKind::Variant,
                            jump.magnitude as usize,
                        ));
                        assert(jump_drawn(before, rng@, range_before, range@, jump));
                        let more_states = states.push(rng@);
                        let more_ranges = ranges.push(range@);
                        let more_jumps = jumps@.push(jump);
                        assert forall|i: int| 0 <= i < more_jumps.len() implies #[trigger] jump_drawn(
                            more_states[i],
                            more_states[i + 1],
                            more_ranges[i],
                            more_ranges[i + 1],
                            more_jumps[i],
                        ) by {
                            if i < jumps@.len() {
                                assert(jump_drawn(
                                    states[i],
                                    states[i + 1],
                                    ranges[i],
                                    ranges[i + 1],
                                    jumps@[i],
                                ));
                            }
                        }
                        states = more_states;
                        ranges = more_ranges;
                    }
                    jumps.push(jump);
                },
                None => {},
            }
        }
        let ghost all_drawn = *rng;
        range.close(rng);
        proof {
            lemma_records_draw_nothing(*old(rng), all_drawn, *rng);
        }
        let drawn = Decisions::new(quantum_variant, realtime_variant, jumps);
        proof {
            choices_lie_below(
                first,
                second,
                QUANTUM_VARIANTS,
                SemanticKind::Variant,
                quantum_variant,
            );
            assert(draws_decisions(first, second, third, states, ranges, rng@, max_jumps, drawn));
        }
        drawn
    }

    /// Domain cost for minimisation: fewer jumps, fewer non-natural jumps, less virtual time.
    pub fn cost(&self, virtual_elapsed_ns: u64) -> (cost: usize)
        requires
            self.cost_of(virtual_elapsed_ns) <= usize::MAX,
        ensures
            cost == self.cost_of(virtual_elapsed_ns),
    {
        let secs: usize = (virtual_elapsed_ns / NANOS) as usize;
        self.jumps_used * 1000 + self.non_natural_jumps * 10_000 + secs
    }
}

/// One jump, drawn inside its own child of the range.
pub open spec fn jump_drawn(
    before: RngModel,
    after: RngModel,
    range_before: RangeModel,
    range_after: RangeModel,
    jump: Jump,
) -> bool {
    exists|middle: RngModel, end: RngModel|
        {
            &&& #[trigger] chooses(
                before,
                middle,
                4,
                SemanticKind::Variant,
                jump.kind as usize,
            )
            &&& #[trigger] chooses(
                middle,
                end,
                MAGNITUDE_VARIANTS as usize,
                SemanticKind::Variant,
                jump.magnitude as usize,
            )
            &&& after == with_semantic(end, before.trace.len() as int, SemanticKind::Item)
            &&& range_after == with_item_at(
                (RangeModel { index: (range_before.index + 1) as usize, ..range_before }),
                end,
                range_before.index,
                before.trace.len() as int,
            )
        }
}

/// The jumps, one after the other.
pub open spec fn jumps_drawn(
    states: Seq<RngModel>,
    ranges: Seq<RangeModel>,
    jumps: Seq<Jump>,
) -> bool {
    forall|i: int|
        0 <= i < jumps.len() ==> #[trigger] jump_drawn(
            states[i],
            states[i + 1],
            ranges[i],
            ranges[i + 1],
            jumps[i],
        )
}

/// The quantum, the realtime shift, then a range of jumps.
pub open spec fn draws_decisions(
    first: RngModel,
    second: RngModel,
    third: RngModel,
    states: Seq<RngModel>,
    ranges: Seq<RangeModel>,
    last: RngModel,
    max_jumps: usize,
    drawn: Decisions,
) -> bool {
    &&& chooses(first, second, QUANTUM_VARIANTS, SemanticKind::Variant, drawn.quantum_variant)
    &&& chooses(second, third, 3, SemanticKind::Variant, drawn.realtime_variant)
    &&& states.len() == drawn.jumps@.len() + 1
    &&& ranges.len() == drawn.jumps@.len() + 1
    &&& opens_range(third, states[0], Edge::Included(0), Edge::Included(max_jumps), ranges[0])
    &&& drawn.jumps@.len() == ranges[0].len
    &&& jumps_drawn(states, ranges, drawn.jumps@)
    &&& last == with_sequence(states.last(), ranges.last())
}

/// The decisions were drawn from the case.
pub open spec fn decisions_drawn(
    before: RngModel,
    after: RngModel,
    max_jumps: usize,
    drawn: Decisions,
) -> bool {
    exists|
        second: RngModel,
        third: RngModel,
        states: Seq<RngModel>,
        ranges: Seq<RangeModel>,
    | #[trigger]
        draws_decisions(before, second, third, states, ranges, after, max_jumps, drawn)
}

#[derive(Debug, PartialEq, Eq)]
pub enum Outcome {
    Exited(i32),
    Signaled(i32),
    /// The wall-clock watchdog fired: a thread was blocked in an unsupervised syscall or spinning.
    Hang,
    /// Every thread was parked without a deadline and nothing was ready.
    Deadlock,
    /// Virtual time went past the configured limit.
    VirtualLimit,
    Error(String),
}

impl Outcome {
    pub fn is_failure(&self) -> (failure: bool)
        ensures
            failure == (*self != Outcome::Exited(0)),
    {
        match self {
            Outcome::Exited(code) => *code != 0,
            _ => true,
        }
    }
}

/// Counters over one run.
#[derive(Debug, Clone, Copy, PartialEq, Eq, Structural)]
pub struct StopStats {
    pub stops: usize,
    pub clock_reads: usize,
    pub sleeps: usize,
    pub futex_probes: usize,
    pub futex_parked: usize,
    pub poll_probes: usize,
    pub poll_parked: usize,
    pub wakes: usize,
    pub restarts: usize,
    pub jumps: usize,
    pub natural_jumps: usize,
    pub getrandom: usize,
    pub threads: usize,
}

impl StopStats {
    /// No counter overflows within the next `n` counts.
    pub open spec fn room(self, n: int) -> bool {
        &&& self.stops + n <= usize::MAX
        &&& self.clock_reads + n <= usize::MAX
        &&& self.sleeps + n <= usize::MAX
        &&& self.futex_probes + n <= usize::MAX
        &&& self.futex_parked + n <= usize::MAX
        &&& self.poll_probes + n <= usize::MAX
        &&& self.poll_parked + n <= usize::MAX
        &&& self.wakes + n <= usize::MAX
        &&& self.restarts + n <= usize::MAX
        &&& self.jumps + n <= usize::MAX
        &&& self.natural_jumps + n <= usize::MAX
        &&& self.getrandom + n <= usize::MAX
        &&& self.threads + n <= usize::MAX
    }

    pub fn new() -> (stats: Self)
        ensures
            stats == (StopStats {
                stops: 0,
                clock_reads: 0,
                sleeps: 0,
                futex_probes: 0,
                futex_parked: 0,
                poll_probes: 0,
                poll_parked: 0,
                wakes: 0,
                restarts: 0,
                jumps: 0,
                natural_jumps: 0,
                getrandom: 0,
                threads: 0,
            }),
    {
        Self {
            stops: 0,
            clock_reads: 0,
            sleeps: 0,
            futex_probes: 0,
            futex_parked: 0,
            poll_probes: 0,
            poll_parked: 0,
            wakes: 0,
            restarts: 0,
            jumps: 0,
            natural_jumps: 0,
            getrandom: 0,
            threads: 0,
        }
    }
}

/// What came of one run.
#[derive(Debug)]
pub struct RunReport {
    pub outcome: Outcome,
    pub virtual_elapsed_ns: u64,
    pub wall_ns: u64,
    pub stats: StopStats,
    pub decisions: Decisions,
    /// Hash of the ordered event log; identical hashes mean an identical schedule.
    pub event_hash: u64,
    pub events: Vec<String>,
    pub coverage_bytes: usize,
}

impl RunReport {
    pub fn cost(&self) -> (cost: usize)
        requires
            self.decisions.cost_of(self.virtual_elapsed_ns) <= usize::MAX,
        ensures
            cost == self.decisions.cost_of(self.virtual_elapsed_ns),
    {
        self.decisions.cost(self.virtual_elapsed_ns)
    }
}

/// A syscall that was issued with a zero timeout to learn whether it would block.
#[derive(Debug)]
pub struct Probe {
    pub kind: WaitKind,
    pub deadline: Option<u64>,
    pub futex: Option<(i32, u64)>,
    pub readiness: Vec<(i32, i16)>,
    pub nr: i64,
    pub entry_regs: Regs,
    /// Seen the syscall-entry stop already; the next stop is the exit stop.
    pub seen_entry: bool,
}

#[derive(Debug)]
pub struct Thread {
    pub tid: i32,
    pub index: usize,
    pub tgid: i32,
    pub fresh: bool,
    pub wait: Option<Wait>,
    pub restart: Option<Restart>,
    pub probe: Option<Probe>,
}

/// Entry of the schedule log.
#[derive(Debug, Clone, Copy, PartialEq, Eq, Structural)]
pub enum Event {
    Exited(i32),
    Signaled(i32),
    Exec { vdso_hidden: bool },
    Clone { index: usize },
    Signal(i32),
    FutexWake(u64),
    GetRandom(usize),
    TimerfdSettimeNative(u64),
    Announce(u64),
    Sleep(u64),
    Probe { nr: i64, result: i64, block: bool },
    Restart(i64),
    Timeout(WaitKind),
    Ready(usize),
    Deadlock(usize),
    Jump { kind: u8, magnitude: u8, target: u64 },
}

/// Something the caller does to a stopped thread.
#[derive(Debug, Clone, Copy, PartialEq, Eq, Structural)]
pub enum Action {
    /// Append to the log: thread index, virtual time, event.
    Log { index: usize, now: u64, event: Event },
    /// Store a `struct timespec` (or `struct timeval`).
    WriteTimespec { tid: i32, addr: u64, secs: i64, nanos: i64 },
    /// Store a 64-bit word.
    WriteWord { tid: i32, addr: u64, value: u64 },
    /// Draw this many bytes from the case and store them.
    WriteRandom { tid: i32, addr: u64, len: usize },
    SetRegs { tid: i32, regs: Regs },
    /// Resume, delivering `signal` unless it is zero.
    Resume { tid: i32, signal: i32 },
    /// Resume until the next syscall entry or exit.
    ResumeToSyscall { tid: i32 },
    /// Read the registers, skip the syscall with result zero ([`skipped`]), and resume.
    FinishSleep { tid: i32 },
}

/// Registers with which a thread skips its syscall and sees `ret`.
pub open spec fn skipped_spec(regs: Regs, ret: i64) -> Regs {
    Regs { orig_rax: u64::MAX, rax: ret as u64, ..regs }
}

pub fn skipped(regs: Regs, ret: i64) -> (next: Regs)
    ensures
        next == skipped_spec(regs, ret),
{
    Regs { orig_rax: u64::MAX, rax: ret as u64, ..regs }
}

/// Where a zero timespec is put below the stack.
pub open spec fn scratch_spec(regs: Regs) -> u64 {
    ((regs.rsp - SCRATCH_BELOW_RSP) as u64) & 0xFFFF_FFFF_FFFF_FFF0
}

/// State of one supervised run.
#[derive(Debug)]
pub struct Run {
    pub decisions: Decisions,
    pub clock: VirtualClock,
    /// The live threads, by ascending thread id.
    pub threads: Vec<Thread>,
    pub next_index: usize,
    pub main_pid: i32,
    pub main_status: Option<Outcome>,
    /// Announced counter ranges: process, start, end; the last of a process counts.
    pub announced: Vec<(i32, u64, u64)>,
    pub stats: StopStats,
    pub realtime_applied: bool,
    pub forced: Option<Outcome>,
    /// Virtual time past which the run is cut off.
    pub virtual_limit_ns: Option<u64>,
}

pub open spec fn by_tid(threads: Seq<Thread>) -> bool {
    forall|i: int, j: int| 0 <= i < j < threads.len() ==> threads[i].tid < threads[j].tid
}

pub open spec fn registered(threads: Seq<Thread>, tid: i32) -> bool {
    exists|i: int| 0 <= i < threads.len() && #[trigger] threads[i].tid == tid
}

pub open spec fn position(threads: Seq<Thread>, tid: i32) -> int {
    choose|i: int| 0 <= i < threads.len() && #[trigger] threads[i].tid == tid
}

/// Index under which a thread is logged.
pub open spec fn label(threads: Seq<Thread>, tid: i32) -> usize {
    if registered(threads, tid) {
        threads[position(threads, tid)].index
    } else {
        usize::MAX
    }
}

impl Thread {
    /// A thread parked in a probe keeps the probe; a sleeping thread waits for nothing but time.
    pub open spec fn wf(self) -> bool {
        &&& self.wait matches Some(w) ==> {
            &&& w.kind != WaitKind::Sleep ==> self.probe is Some
            &&& w.kind == WaitKind::Sleep ==> w.futex is None && w.deadline is Some
        }
        &&& self.probe matches Some(p) ==> p.kind != WaitKind::Sleep
    }

    pub open spec fn waits_until(self) -> Option<u64> {
        match self.wait {
            Some(w) => w.deadline,
            None => None,
        }
    }

    /// The wait is over by time `now`.
    pub open spec fn is_due(self, now: u64) -> bool {
        self.waits_until() matches Some(d) && d <= now
    }

    /// The thread with its wait ended by time.
    pub open spec fn timed_out(self) -> Thread {
        Thread { wait: None, probe: None, ..self }
    }

    /// The thread with its probe about to be issued anew; the deadline is kept.
    pub open spec fn restarted(self) -> Thread {
        Thread {
            wait: None,
            probe: None,
            restart: Some(Restart { deadline: self.wait.unwrap().deadline }),
            ..self
        }
    }
}

/// Registers that issue a probed syscall again, as it was first issued.
pub open spec fn reissue_spec(probe: Probe) -> Regs {
    Regs {
        rip: probe.entry_regs.rip.wrapping_sub(SYSCALL_INSN_LEN),
        rax: probe.nr as u64,
        orig_rax: probe.nr as u64,
        ..probe.entry_regs
    }
}

pub open spec fn restart_actions(t: Thread, now: u64) -> Seq<Action> {
    let probe = t.probe.unwrap();
    seq![
        Action::Log { index: t.index, now, event: Event::Restart(probe.nr) },
        Action::SetRegs { tid: t.tid, regs: reissue_spec(probe) },
        Action::Resume { tid: t.tid, signal: 0 },
    ]
}

pub open spec fn timeout_actions(t: Thread, now: u64) -> Seq<Action> {
    let kind = t.wait.unwrap().kind;
    seq![
        Action::Log { index: t.index, now, event: Event::Timeout(kind) },
        if kind == WaitKind::Sleep {
            Action::FinishSleep { tid: t.tid }
        } else {
            Action::Resume { tid: t.tid, signal: 0 }
        },
    ]
}

/// A set of parked threads.
#[derive(Debug, Clone, Copy, PartialEq, Eq)]
pub enum Waiters {
    /// Every futex waiter of a process.
    OfProcess(i32),
    /// The waiters on one or two futex words of a process.
    OnWords(i32, u64, Option<u64>),
}

impl Waiters {
    pub open spec fn selects(self, t: Thread) -> bool {
        match t.wait {
            None => false,
            Some(w) => match self {
                Waiters::OfProcess(tgid) => t.tgid == tgid && w.kind == WaitKind::Futex,
                Waiters::OnWords(tgid, first, second) => w.futex == Some((tgid, first)) || (
                second matches Some(s) && w.futex == Some((tgid, s))),
            },
        }
    }

    fn picks(&self, t: &Thread) -> (picked: bool)
        ensures
            picked == self.selects(*t),
    {
        match &t.wait {
            None => false,
            Some(w) => match *self {
                Waiters::OfProcess(tgid) => t.tgid == tgid && w.kind == WaitKind::Futex,
                Waiters::OnWords(tgid, first, second) => match w.futex {
                    None => false,
                    Some((process, word)) => process == tgid && (word == first || match second {
                        Some(s) => word == s,
                        None => false,
                    }),
                },
            },
        }
    }
}

/// The threads after every one of `who` has been restarted.
pub open spec fn after_restarts(threads: Seq<Thread>, who: Waiters) -> Seq<Thread> {
    threads.map_values(
        |t: Thread|
            if who.selects(t) {
                t.restarted()
            } else {
                t
            },
    )
}

/// What restarting the first `n` threads' waiters takes, in order of thread id.
pub open spec fn restarts_of(threads: Seq<Thread>, who: Waiters, now: u64, n: int) -> Seq<Action>
    decreases n,
{
    if n <= 0 {
        Seq::empty()
    } else if who.selects(threads[n - 1]) {
        restarts_of(threads, who, now, n - 1) + restart_actions(threads[n - 1], now)
    } else {
        restarts_of(threads, who, now, n - 1)
    }
}

/// How many of the first `n` threads are among `who`.
pub open spec fn count_of(threads: Seq<Thread>, who: Waiters, n: int) -> int
    decreases n,
{
    if n <= 0 {
        0
    } else {
        count_of(threads, who, n - 1) + if who.selects(threads[n - 1]) {
            1int
        } else {
            0
        }
    }
}

/// The threads after every due wait has timed out.
pub open spec fn after_timeouts(threads: Seq<Thread>, now: u64) -> Seq<Thread> {
    threads.map_values(
        |t: Thread|
            if t.is_due(now) {
                t.timed_out()
            } else {
                t
            },
    )
}

/// What timing out the first `n` threads' due waits takes, in order of thread id.
pub open spec fn timeouts_of(threads: Seq<Thread>, now: u64, n: int) -> Seq<Action>
    decreases n,
{
    if n <= 0 {
        Seq::empty()
    } else if threads[n - 1].is_due(now) {
        timeouts_of(threads, now, n - 1) + timeout_actions(threads[n - 1], now)
    } else {
        timeouts_of(threads, now, n - 1)
    }
}

proof fn lemma_position(threads: Seq<Thread>, i: int)
    requires
        by_tid(threads),
        0 <= i < threads.len(),
    ensures
        registered(threads, threads[i].tid),
        position(threads, threads[i].tid) == i,
{
    let p = position(threads, threads[i].tid);
    assert(threads[p].tid == threads[i].tid);
    if p < i {
        assert(threads[p].tid < threads[i].tid);
    } else if i < p {
        assert(threads[i].tid < threads[p].tid);
    }
}

impl Run {
    /// Threads are in order and each is well formed, and the decisions lie within their tables.
    pub open spec fn wf(self) -> bool {
        &&& self.decisions.wf()
        &&& by_tid(self.threads@)
        &&& forall|i: int| 0 <= i < self.threads@.len() ==> (#[trigger] self.threads@[i]).wf()
    }

    /// No counter overflows while one event is handled.
    pub open spec fn has_room(self) -> bool {
        &&& self.stats.room(self.threads@.len() as int + 2)
        &&& self.next_index < usize::MAX
        &&& self.decisions.random_bytes + MAX_RANDOM_BYTES <= usize::MAX
        &&& i64::MIN + 2 * REALTIME_STEP_NS <= self.clock.realtime_step_ns <= i64::MAX - 2
            * REALTIME_STEP_NS
    }

    pub fn new(decisions: Decisions, main_pid: i32, virtual_limit_ns: Option<u64>) -> (run: Self)
        requires
            decisions.wf(),
        ensures
            run.wf(),
            run.decisions == decisions,
            run.clock == (VirtualClock {
                vnow: 0,
                quantum_ns: quantum_spec(decisions.quantum_variant as int),
                realtime_step_ns: 0,
            }),
            run.threads@.len() == 0,
            run.next_index == 0,
            run.main_pid == main_pid,
            run.main_status is None,
            run.announced@.len() == 0,
            run.stats == (StopStats {
                stops: 0,
                clock_reads: 0,
                sleeps: 0,
                futex_probes: 0,
                futex_parked: 0,
                poll_probes: 0,
                poll_parked: 0,
                wakes: 0,
                restarts: 0,
                jumps: 0,
                natural_jumps: 0,
                getrandom: 0,
                threads: 0,
            }),
            !run.realtime_applied,
            run.forced is None,
            run.virtual_limit_ns == virtual_limit_ns,
    {
        let clock = VirtualClock::new(quantum_ns(decisions.quantum_variant));
        Self {
            decisions,
            clock,
            threads: Vec::new(),
            next_index: 0,
            main_pid,
            main_status: None,
            announced: Vec::new(),
            stats: StopStats::new(),
            realtime_applied: false,
            forced: None,
            virtual_limit_ns,
        }
    }

    /// Whether every counter can take one more event.
    pub fn ready_for_event(&self) -> (ready: bool)
        ensures
            ready == self.has_room(),
    {
        let n: usize = self.threads.len();
        if n > usize::MAX - 2 {
            return false;
        }
        let most: usize = usize::MAX - (n + 2);
        let s = self.stats;
        s.stops <= most && s.clock_reads <= most && s.sleeps <= most && s.futex_probes <= most
            && s.futex_parked <= most && s.poll_probes <= most && s.poll_parked <= most && s.wakes
            <= most && s.restarts <= most && s.jumps <= most && s.natural_jumps <= most
            && s.getrandom <= most && s.threads <= most && self.next_index < usize::MAX
            && self.decisions.random_bytes <= usize::MAX - MAX_RANDOM_BYTES as usize && i64::MIN + 2
            * REALTIME_STEP_NS <= self.clock.realtime_step_ns && self.clock.realtime_step_ns
            <= i64::MAX - 2 * REALTIME_STEP_NS
    }

    /// Where thread `tid` stands.
    fn find(&self, tid: i32) -> (found: Option<usize>)
        requires
            by_tid(self.threads@),
        ensures
            match found {
                Some(i) => i < self.threads@.len() && self.threads@[i as int].tid == tid && i
                    == position(self.threads@, tid) && registered(self.threads@, tid),
                None => !registered(self.threads@, tid),
            },
    {
        let mut i: usize = 0;
        while i < self.threads.len()
            invariant
                i <= self.threads@.len(),
                by_tid(self.threads@),
                forall|k: int| 0 <= k < i ==> (#[trigger] self.threads@[k]).tid != tid,
            decreases self.threads@.len() - i,
        {
            if self.threads[i].tid == tid {
                proof {
                    lemma_position(self.threads@, i as int);
                }
                return Some(i);
            }
            i += 1;
        }
        None
    }

    /// Index under which a thread is logged.
    fn label(&self, tid: i32) -> (index: usize)
        requires
            by_tid(self.threads@),
        ensures
            index == label(self.threads@, tid),
    {
        match self.find(tid) {
            Some(i) => self.threads[i].index,
            None => usize::MAX,
        }
    }

    /// Whether thread `tid` is known.
    pub fn knows(&self, tid: i32) -> (known: bool)
        requires
            self.wf(),
        ensures
            known == registered(self.threads@, tid),
    {
        self.find(tid).is_some()
    }

    /// Whether thread `tid` is known and parked.
    pub fn is_parked(&self, tid: i32) -> (parked: bool)
        requires
            self.wf(),
        ensures
            parked == (registered(self.threads@, tid) && self.threads@[position(
                self.threads@,
                tid,
            )].wait is Some),
    {
        match self.find(tid) {
            Some(i) => self.threads[i].wait.is_some(),
            None => false,
        }
    }

    /// All threads are parked.
    pub open spec fn is_quiet(self) -> bool {
        forall|i: int| 0 <= i < self.threads@.len() ==> (#[trigger] self.threads@[i]).wait is Some
    }

    /// What the caller does next: an outcome that was decided on ends the run at once, and so does
    /// the end of the last thread; the clock moves only while all threads are parked.
    pub fn take_turn(&mut self) -> (turn: Turn)
        ensures
            turn == match old(self).forced {
                Some(outcome) => Turn::Stop(outcome),
                None => if old(self).threads@.len() == 0 {
                    Turn::Finished
                } else if old(self).is_quiet() {
                    Turn::Quiesce
                } else {
                    Turn::Await
                },
            },
            *final(self) == (Run { forced: None, ..*old(self) }),
    {
        match self.forced.take() {
            Some(outcome) => Turn::Stop(outcome),
            None => {
                if self.threads.len() == 0 {
                    Turn::Finished
                } else if self.all_parked() {
                    Turn::Quiesce
                } else {
                    Turn::Await
                }
            },
        }
    }

    /// Whether all threads are parked.
    pub fn all_parked(&self) -> (parked: bool)
        ensures
            parked == self.is_quiet(),
    {
        let mut i: usize = 0;
        while i < self.threads.len()
            invariant
                i <= self.threads@.len(),
                forall|k: int| 0 <= k < i ==> (#[trigger] self.threads@[k]).wait is Some,
            decreases self.threads@.len() - i,
        {
            if self.threads[i].wait.is_none() {
                assert(self.threads@[i as int].wait is None);
                return false;
            }
            i += 1;
        }
        true
    }

    /// Take up a thread not seen before. `tgid` is its thread group.
    pub fn register(&mut self, tid: i32, tgid: i32, fresh: bool)
        requires
            old(self).wf(),
            old(self).next_index < usize::MAX,
            old(self).stats.threads < usize::MAX,
        ensures
            final(self).wf(),
            registered(final(self).threads@, tid),
            taken_up(*old(self), *final(self), tid, tgid, fresh),
    {
        let ghost before = self.threads@;
        let mut at: usize = 0;
        while at < self.threads.len() && self.threads[at].tid < tid
            invariant
                at <= self.threads@.len(),
                self.threads@ == before,
                forall|k: int| 0 <= k < at ==> (#[trigger] before[k]).tid < tid,
            decreases self.threads@.len() - at,
        {
            at += 1;
        }
        if at < self.threads.len() && self.threads[at].tid == tid {
            assert(before[at as int].tid == tid);
            return;
        }
        proof {
            assert forall|k: int| at <= k < before.len() implies tid < (#[trigger] before[k]).tid by {
                if k > at {
                    assert(before[at as int].tid < before[k].tid);
                }
            }
        }
        let index = self.next_index;
        self.next_index = self.next_index + 1;
        self.stats.threads = self.stats.threads + 1;
        let thread = Thread { tid, index, tgid, fresh, wait: None, restart: None, probe: None };
        self.threads.insert(at, thread);
        proof {
            assert(by_tid(self.threads@));
            assert forall|i: int| 0 <= i < self.threads@.len() implies (
            #[trigger] self.threads@[i]).wf() by {
                if i < at {
                    assert(self.threads@[i] == before[i]);
                } else if i > at {
                    assert(self.threads@[i] == before[i - 1]);
                }
            }
            lemma_position(self.threads@, at as int);
        }
    }

    /// Issue a parked probe from scratch, with the registers it first had.
    fn restart_wait(&mut self, i: usize, actions: &mut Vec<Action>)
        requires
            i < old(self).threads@.len(),
            old(self).threads@[i as int].wf(),
            old(self).threads@[i as int].wait matches Some(w) ==> w.kind != WaitKind::Sleep,
            old(self).stats.restarts < usize::MAX,
        ensures
            ({
                let t = old(self).threads@[i as int];
                if t.wait is Some {
                    &&& *final(self) == (Run {
                        threads: final(self).threads,
                        stats: StopStats {
                            restarts: (old(self).stats.restarts + 1) as usize,
                            ..old(self).stats
                        },
                        ..*old(self)
                    })
                    &&& final(self).threads@ == old(self).threads@.update(i as int, t.restarted())
                    &&& final(actions)@ == old(actions)@ + restart_actions(t, old(self).clock.vnow)
                } else {
                    *final(self) == *old(self) && final(actions)@ == old(actions)@
                }
            }),
    {
        let ghost t = self.threads@[i as int];
        let tid = self.threads[i].tid;
        let index = self.threads[i].index;
        let now = self.clock.now();
        if self.threads[i].wait.is_none() {
            return;
        }
        let wait = self.threads[i].wait.take();
        if let Some(wait) = wait {
            let probe = self.threads[i].probe.take();
            self.threads[i].restart = Some(Restart { deadline: wait.deadline });
            if let Some(probe) = probe {
                let mut regs = probe.entry_regs;
                regs.rip = regs.rip.wrapping_sub(SYSCALL_INSN_LEN);
                regs.rax = probe.nr as u64;
                regs.orig_rax = probe.nr as u64;
                self.stats.restarts = self.stats.restarts + 1;
                actions.push(Action::Log { index, now, event: Event::Restart(probe.nr) });
                actions.push(Action::SetRegs { tid, regs });
                actions.push(Action::Resume { tid, signal: 0 });
                assert(actions@ =~= old(actions)@ + restart_actions(t, now));
                assert(self.threads@ =~= old(self).threads@.update(i as int, t.restarted()));
            }
        }
    }

    /// Restart every one of `who`, in order of thread id.
    fn restart_all(&mut self, who: Waiters, actions: &mut Vec<Action>)
        requires
            old(self).wf(),
            old(self).stats.restarts + old(self).threads@.len() <= usize::MAX,
        ensures
            final(self).wf(),
            *final(self) == (Run {
                threads: final(self).threads,
                stats: StopStats {
                    restarts: (old(self).stats.restarts + count_of(
                        old(self).threads@,
                        who,
                        old(self).threads@.len() as int,
                    )) as usize,
                    ..old(self).stats
                },
                ..*old(self)
            }),
            final(self).threads@ == after_restarts(old(self).threads@, who),
            final(actions)@ == old(actions)@ + restarts_of(
                old(self).threads@,
                who,
                old(self).clock.vnow,
                old(self).threads@.len() as int,
            ),
    {
        let ghost before = self.threads@;
        let ghost now = self.clock.vnow;
        let mut i: usize = 0;
        assert(actions@ =~= old(actions)@ + restarts_of(before, who, now, 0));
        while i < self.threads.len()
            invariant
                before == old(self).threads@,
                now == old(self).clock.vnow,
                old(self).wf(),
                old(self).stats.restarts + before.len() <= usize::MAX,
                i <= self.threads@.len() == before.len(),
                0 <= count_of(before, who, i as int) <= i,
                *self == (Run {
                    threads: self.threads,
                    stats: StopStats {
                        restarts: (old(self).stats.restarts + count_of(
                            before,
                            who,
                            i as int,
                        )) as usize,
                        ..old(self).stats
                    },
                    ..*old(self)
                }),
                forall|k: int|
                    0 <= k < i ==> #[trigger] self.threads@[k] == if who.selects(before[k]) {
                        before[k].restarted()
                    } else {
                        before[k]
                    },
                forall|k: int| i <= k < before.len() ==> #[trigger] self.threads@[k] == before[k],
                actions@ == old(actions)@ + restarts_of(before, who, now, i as int),
            decreases before.len() - i,
        {
            assert(self.threads@[i as int] == before[i as int]);
            assert(before[i as int].wf());
            if who.picks(&self.threads[i]) {
                self.restart_wait(i, actions);
                assert(actions@ =~= old(actions)@ + restarts_of(before, who, now, i + 1));
            }
            i += 1;
        }
        proof {
            assert(self.threads@ =~= after_restarts(before, who));
            assert(by_tid(self.threads@)) by {
                assert forall|a: int, b: int| 0 <= a < b < before.len() implies
                    self.threads@[a].tid < self.threads@[b].tid by {
                    assert(before[a].tid < before[b].tid);
                }
            }
            assert forall|k: int| 0 <= k < before.len() implies (#[trigger] self.threads@[k]).wf() by {
                assert(before[k].wf());
            }
        }
    }

    /// Finish every wait whose deadline has passed.
    fn complete_timeouts(&mut self, actions: &mut Vec<Action>)
        requires
            old(self).wf(),
        ensures
            final(self).wf(),
            *final(self) == (Run { threads: final(self).threads, ..*old(self) }),
            final(self).threads@ == after_timeouts(old(self).threads@, old(self).clock.vnow),
            final(actions)@ == old(actions)@ + timeouts_of(
                old(self).threads@,
                old(self).clock.vnow,
                old(self).threads@.len() as int,
            ),
    {
        let ghost before = self.threads@;
        let now = self.clock.now();
        let mut i: usize = 0;
        assert(actions@ =~= old(actions)@ + timeouts_of(before, now, 0));
        while i < self.threads.len()
            invariant
                before == old(self).threads@,
                now == old(self).clock.vnow,
                i <= self.threads@.len() == before.len(),
                *self == (Run { threads: self.threads, ..*old(self) }),
                forall|k: int|
                    0 <= k < i ==> #[trigger] self.threads@[k] == if before[k].is_due(now) {
                        before[k].timed_out()
                    } else {
                        before[k]
                    },
                forall|k: int| i <= k < before.len() ==> #[trigger] self.threads@[k] == before[k],
                actions@ == old(actions)@ + timeouts_of(before, now, i as int),
            decreases before.len() - i,
        {
            let ghost t = before[i as int];
            assert(self.threads@[i as int] == t);
            let due = match &self.threads[i].wait {
                Some(w) => match w.deadline {
                    Some(d) => d <= now,
                    None => false,
                },
                None => false,
            };
            if due {
                let tid = self.threads[i].tid;
                let index = self.threads[i].index;
                let wait = self.threads[i].wait.take();
                self.threads[i].probe = None;
                if let Some(wait) = wait {
                    actions.push(Action::Log { index, now, event: Event::Timeout(wait.kind) });
                    if wait.kind == WaitKind::Sleep {
                        actions.push(Action::FinishSleep { tid });
                    } else {
                        actions.push(Action::Resume { tid, signal: 0 });
                    }
                    assert(actions@ =~= old(actions)@ + timeouts_of(before, now, i + 1));
                }
            }
            i += 1;
        }
        proof {
            assert(self.threads@ =~= after_timeouts(before, now));
            assert(by_tid(self.threads@)) by {
                assert forall|a: int, b: int| 0 <= a < b < before.len() implies
                    self.threads@[a].tid < self.threads@[b].tid by {
                    assert(before[a].tid < before[b].tid);
                }
            }
            assert forall|k: int| 0 <= k < before.len() implies (#[trigger] self.threads@[k]).wf() by {
                assert(before[k].wf());
            }
        }
    }
}

/// What a pass over the parked threads found when every thread was parked.
#[derive(Debug, Clone, Copy, PartialEq, Eq, Structural)]
pub enum Quiescence {
    /// No wait has a deadline: only outside readiness can end one.
    Untimed,
    /// Virtual time moved on and every due wait was finished.
    Advanced,
    /// Virtual time moved past its limit.
    LimitReached,
}

/// `d` is the deadline of some parked thread.
pub open spec fn is_deadline(threads: Seq<Thread>, d: u64) -> bool {
    exists|i: int| 0 <= i < threads.len() && (#[trigger] threads[i]).waits_until() == Some(d)
}

pub open spec fn is_earliest(threads: Seq<Thread>, d: u64) -> bool {
    is_deadline(threads, d) && forall|i: int|
        0 <= i < threads.len() ==> ((#[trigger] threads[i]).waits_until() matches Some(o) ==> d <= o)
}

pub open spec fn is_latest(threads: Seq<Thread>, d: u64) -> bool {
    is_deadline(threads, d) && forall|i: int|
        0 <= i < threads.len() ==> ((#[trigger] threads[i]).waits_until() matches Some(o) ==> o <= d)
}

/// The jump that the next quiescence takes: natural once the drawn jumps are used up.
pub open spec fn next_jump(decisions: Decisions) -> Jump {
    if decisions.jumps_used < decisions.jumps@.len() {
        decisions.jumps@[decisions.jumps_used as int]
    } else {
        Jump { kind: 0, magnitude: 0 }
    }
}

/// Where a jump takes virtual time.
pub open spec fn jump_target(jump: Jump, earliest: u64, latest: u64) -> u64 {
    if jump.kind == 1 {
        latest
    } else if jump.kind == 2 {
        super::clock::clamp_u64(earliest + magnitude_spec(jump.magnitude as int)) as u64
    } else {
        earliest
    }
}

/// The decisions after one jump.
pub open spec fn after_jump(decisions: Decisions) -> Decisions {
    if decisions.jumps_used < decisions.jumps@.len() {
        Decisions {
            jumps_used: (decisions.jumps_used + 1) as usize,
            non_natural_jumps: (decisions.non_natural_jumps + if next_jump(decisions).kind != 0 {
                1int
            } else {
                0
            }) as usize,
            ..decisions
        }
    } else {
        decisions
    }
}

/// How far the wall clock is stepped at a quiescence: once by the drawn variant, and by the
/// magnitude of a jump of kind 3.
pub open spec fn wall_step(run: Run) -> int {
    let drawn = if run.realtime_applied {
        0
    } else if run.decisions.realtime_variant == 1 {
        REALTIME_STEP_NS as int
    } else if run.decisions.realtime_variant == 2 {
        -REALTIME_STEP_NS
    } else {
        0
    };
    let jump = next_jump(run.decisions);
    drawn + if jump.kind == 3 {
        magnitude_spec(jump.magnitude as int) as int
    } else {
        0
    }
}

/// The clock after a quiescence that jumps to `target`.
pub open spec fn clock_after(run: Run, target: u64) -> VirtualClock {
    VirtualClock {
        vnow: if target > run.clock.vnow {
            target
        } else {
            run.clock.vnow
        },
        realtime_step_ns: (run.clock.realtime_step_ns + wall_step(run)) as i64,
        ..run.clock
    }
}

/// The threads that wait for file descriptors: their positions among the first `n`.
pub open spec fn polls(t: Thread) -> bool {
    t.wait matches Some(w) && w.kind == WaitKind::Poll && w.readiness@.len() > 0
}

impl Run {
    /// Earliest and latest deadline of the parked threads.
    fn deadlines(&self) -> (range: Option<(u64, u64)>)
        ensures
            match range {
                Some((earliest, latest)) => is_earliest(self.threads@, earliest) && is_latest(
                    self.threads@,
                    latest,
                ),
                None => forall|i: int|
                    0 <= i < self.threads@.len() ==> (
                    #[trigger] self.threads@[i]).waits_until() is None,
            },
    {
        let mut range: Option<(u64, u64)> = None;
        let mut i: usize = 0;
        let ghost threads = self.threads@;
        while i < self.threads.len()
            invariant
                threads == self.threads@,
                i <= threads.len(),
                match range {
                    Some((earliest, latest)) => is_earliest(threads.take(i as int), earliest)
                        && is_latest(threads.take(i as int), latest),
                    None => forall|k: int|
                        0 <= k < i ==> (#[trigger] threads[k]).waits_until() is None,
                },
            decreases threads.len() - i,
        {
            let deadline = match &self.threads[i].wait {
                Some(w) => w.deadline,
                None => None,
            };
            let ghost head = threads.take(i as int);
            let ghost grown = threads.take(i + 1);
            assert(forall|k: int| 0 <= k < i ==> head[k] == #[trigger] grown[k]);
            assert(forall|k: int| 0 <= k < i ==> #[trigger] head[k] == grown[k]);
            assert(grown[i as int] == threads[i as int]);
            if let Some(d) = deadline {
                range = match range {
                    Some((earliest, latest)) => Some(
                        (
                            if d < earliest {
                                d
                            } else {
                                earliest
                            },
                            if d > latest {
                                d
                            } else {
                                latest
                            },
                        ),
                    ),
                    None => Some((d, d)),
                };
            }
            proof {
                if let Some((e, l)) = range {
                    assert(is_deadline(grown, e));
                    assert(is_deadline(grown, l));
                }
            }
            i += 1;
        }
        assert(threads.take(threads.len() as int) =~= threads);
        range
    }

    /// Threads that wait for file descriptors: thread, process, and what is watched.
    pub fn parked_poll_threads(&self) -> (parked: Vec<(i32, i32, Vec<(i32, i16)>)>)
        ensures
            parked@.map_values(|p: (i32, i32, Vec<(i32, i16)>)| (p.0, p.1, p.2@))
                == self.threads@.filter(|t: Thread| polls(t)).map_values(
                |t: Thread| (t.tid, t.tgid, t.wait.unwrap().readiness@),
            ),
    {
        let mut parked: Vec<(i32, i32, Vec<(i32, i16)>)> = Vec::new();
        let ghost shape = |p: (i32, i32, Vec<(i32, i16)>)| (p.0, p.1, p.2@);
        let ghost wanted = |t: Thread| (t.tid, t.tgid, t.wait.unwrap().readiness@);
        let ghost pick = |t: Thread| polls(t);
        let ghost threads = self.threads@;
        let mut i: usize = 0;
        proof {
            assert(threads.take(0) =~= Seq::<Thread>::empty());
            reveal(Seq::filter);
            assert(parked@.map_values(shape) =~= threads.take(0).filter(pick).map_values(wanted));
        }
        while i < self.threads.len()
            invariant
                threads == self.threads@,
                i <= threads.len(),
                shape == (|p: (i32, i32, Vec<(i32, i16)>)| (p.0, p.1, p.2@)),
                wanted == (|t: Thread| (t.tid, t.tgid, t.wait.unwrap().readiness@)),
                pick == (|t: Thread| polls(t)),
                parked@.map_values(shape) == threads.take(i as int).filter(pick).map_values(wanted),
            decreases threads.len() - i,
        {
            let ghost done = parked@;
            proof {
                reveal(Seq::filter);
                assert(threads.take(i + 1).drop_last() =~= threads.take(i as int));
            }
            if let Some(w) = &self.threads[i].wait {
                if w.kind == WaitKind::Poll && w.readiness.len() > 0 {
                    let readiness = copy_readiness(&w.readiness);
                    parked.push((self.threads[i].tid, self.threads[i].tgid, readiness));
                    assert(parked@.map_values(shape) =~= done.map_values(shape).push(
                        wanted(threads[i as int]),
                    ));
                    assert(threads.take(i + 1).filter(pick).map_values(wanted) =~= threads.take(
                        i as int,
                    ).filter(pick).map_values(wanted).push(wanted(threads[i as int])));
                }
            }
            i += 1;
        }
        assert(threads.take(threads.len() as int) =~= threads);
        parked
    }

    /// A descriptor of a polling thread is ready: issue its wait again.
    pub fn on_ready(&mut self, tid: i32, actions: &mut Vec<Action>)
        requires
            old(self).wf(),
            old(self).has_room(),
            registered(old(self).threads@, tid),
            polls(old(self).threads@[position(old(self).threads@, tid)]),
        ensures
            final(self).wf(),
            ({
                let at = position(old(self).threads@, tid);
                let t = old(self).threads@[at];
                &&& *final(self) == (Run {
                    threads: final(self).threads,
                    stats: StopStats {
                        restarts: (old(self).stats.restarts + 1) as usize,
                        ..old(self).stats
                    },
                    ..*old(self)
                })
                &&& final(self).threads@ == old(self).threads@.update(at, t.restarted())
                &&& final(actions)@ == old(actions)@.push(
                    Action::Log {
                        index: t.index,
                        now: old(self).clock.vnow,
                        event: Event::Ready(t.wait.unwrap().readiness@.len() as usize),
                    },
                ) + restart_actions(t, old(self).clock.vnow)
            }),
    {
        if let Some(i) = self.find(tid) {
            let watched: usize = match &self.threads[i].wait {
                Some(w) => w.readiness.len(),
                None => 0,
            };
            let index = self.threads[i].index;
            let now = self.clock.now();
            actions.push(Action::Log { index, now, event: Event::Ready(watched) });
            self.restart_wait(i, actions);
            proof {
                assert(self.threads@[i as int].wf());
            }
        }
    }

    /// Nothing is timed and nothing is ready: the run ends here.
    pub fn declare_deadlock(&mut self, actions: &mut Vec<Action>)
        requires
            old(self).wf(),
        ensures
            *final(self) == (Run { forced: Some(Outcome::Deadlock), ..*old(self) }),
            final(self).wf(),
            final(actions)@ == old(actions)@.push(
                Action::Log {
                    index: label(old(self).threads@, old(self).main_pid),
                    now: old(self).clock.vnow,
                    event: Event::Deadlock(old(self).threads@.len() as usize),
                },
            ),
    {
        let index = self.label(self.main_pid);
        let now = self.clock.now();
        let parked: usize = self.threads.len();
        actions.push(Action::Log { index, now, event: Event::Deadlock(parked) });
        self.forced = Some(Outcome::Deadlock);
    }

    /// Every supervised thread is parked and nothing is ready: move virtual time on and finish the
    /// waits that are due.
    pub fn quiesce(&mut self, actions: &mut Vec<Action>) -> (found: Quiescence)
        requires
            old(self).wf(),
            old(self).has_room(),
        ensures
            final(self).wf(),
            found is Untimed <==> forall|i: int|
                0 <= i < old(self).threads@.len() ==> (
                #[trigger] old(self).threads@[i]).waits_until() is None,
            found is Untimed ==> *final(self) == *old(self) && final(actions)@ == old(actions)@,
            found !is Untimed ==> exists|earliest: u64, latest: u64|
                {
                    let jump = next_jump(old(self).decisions);
                    let target = jump_target(jump, earliest, latest);
                    let clock = clock_after(*old(self), target);
                    let limited = old(self).virtual_limit_ns matches Some(limit) && clock.vnow
                        > limit;
                    let logged = old(actions)@.push(
                        Action::Log {
                            index: label(old(self).threads@, old(self).main_pid),
                            now: clock.vnow,
                            event: Event::Jump {
                                kind: jump.kind,
                                magnitude: jump.magnitude,
                                target,
                            },
                        },
                    );
                    &&& #[trigger] is_earliest(old(self).threads@, earliest)
                    &&& #[trigger] is_latest(old(self).threads@, latest)
                    &&& *final(self) == (Run {
                        clock,
                        decisions: after_jump(old(self).decisions),
                        realtime_applied: true,
                        stats: StopStats {
                            jumps: (old(self).stats.jumps + 1) as usize,
                            natural_jumps: (old(self).stats.natural_jumps + if jump.kind == 0 {
                                1int
                            } else {
                                0
                            }) as usize,
                            ..old(self).stats
                        },
                        forced: if limited {
                            Some(Outcome::VirtualLimit)
                        } else {
                            old(self).forced
                        },
                        threads: final(self).threads,
                        ..*old(self)
                    })
                    &&& (found is LimitReached) == limited
                    &&& limited ==> final(self).threads@ == old(self).threads@ && final(actions)@
                        == logged
                    &&& !limited ==> final(self).threads@ == after_timeouts(
                        old(self).threads@,
                        clock.vnow,
                    ) && final(actions)@ == logged + timeouts_of(
                        old(self).threads@,
                        clock.vnow,
                        old(self).threads@.len() as int,
                    )
                },
    {
        let (earliest, latest) = match self.deadlines() {
            Some(range) => range,
            None => {
                return Quiescence::Untimed;
            },
        };
        proof {
            let i = choose|i: int|
                0 <= i < self.threads@.len() && (#[trigger] self.threads@[i]).waits_until() == Some(
                    earliest,
                );
            assert(self.threads@[i].waits_until() is Some);
        }
        if !self.realtime_applied {
            self.realtime_applied = true;
            if self.decisions.realtime_variant == 1 {
                self.clock.step_realtime(REALTIME_STEP_NS);
            } else if self.decisions.realtime_variant == 2 {
                self.clock.step_realtime(-REALTIME_STEP_NS);
            }
        }
        let drawn = self.decisions.jumps_used < self.decisions.jumps.len();
        let jump = if drawn {
            self.decisions.jumps[self.decisions.jumps_used]
        } else {
            Jump { kind: 0, magnitude: 0 }
        };
        assert(jump == next_jump(old(self).decisions));
        if drawn {
            assert(jump.magnitude < MAGNITUDE_VARIANTS);
            self.decisions.jumps_used = self.decisions.jumps_used + 1;
            if jump.kind != 0 {
                self.decisions.non_natural_jumps = self.decisions.non_natural_jumps + 1;
            }
        }
        let magnitude = magnitude_ns(jump.magnitude);
        let target = if jump.kind == 1 {
            latest
        } else if jump.kind == 2 {
            earliest.saturating_add(magnitude)
        } else {
            if jump.kind == 3 {
                self.clock.step_realtime(magnitude as i64);
            }
            earliest
        };
        self.stats.jumps = self.stats.jumps + 1;
        if jump.kind == 0 {
            self.stats.natural_jumps = self.stats.natural_jumps + 1;
        }
        self.clock.advance_to(target);
        assert(self.clock == clock_after(*old(self), target));
        assert(self.decisions == after_jump(old(self).decisions));
        let index = self.label(self.main_pid);
        let now = self.clock.now();
        actions.push(
            Action::Log {
                index,
                now,
                event: Event::Jump { kind: jump.kind, magnitude: jump.magnitude, target },
            },
        );
        assert(is_earliest(old(self).threads@, earliest) && is_latest(old(self).threads@, latest));
        if let Some(limit) = self.virtual_limit_ns {
            if now > limit {
                self.forced = Some(Outcome::VirtualLimit);
                return Quiescence::LimitReached;
            }
        }
        self.complete_timeouts(actions);
        Quiescence::Advanced
    }
}

/// A quiescence makes progress: the thread with the earliest deadline is no longer parked, and no
/// wait ends before its deadline.
pub proof fn quiescence_makes_progress(
    threads: Seq<Thread>,
    run: Run,
    jump: Jump,
    earliest: u64,
    latest: u64,
)
    requires
        is_earliest(threads, earliest),
        is_latest(threads, latest),
    ensures
        ({
            let clock = clock_after(run, jump_target(jump, earliest, latest));
            let after = after_timeouts(threads, clock.vnow);
            &&& clock.vnow >= run.clock.vnow
            &&& exists|i: int|
                0 <= i < threads.len() && threads[i].wait is Some && (
                #[trigger] after[i]).wait is None
            &&& forall|i: int|
                0 <= i < threads.len() && (threads[i].waits_until() matches Some(d) && d > clock.vnow)
                    ==> #[trigger] after[i] == threads[i]
            &&& forall|i: int|
                0 <= i < threads.len() && threads[i].waits_until() is None ==> #[trigger] after[i]
                    == threads[i]
        }),
{
    let clock = clock_after(run, jump_target(jump, earliest, latest));
    let after = after_timeouts(threads, clock.vnow);
    let i = choose|i: int|
        0 <= i < threads.len() && (#[trigger] threads[i]).waits_until() == Some(earliest);
    let j = choose|j: int|
        0 <= j < threads.len() && (#[trigger] threads[j]).waits_until() == Some(latest);
    assert(earliest <= latest) by {
        assert(threads[j].waits_until() == Some(latest));
    }
    assert(jump_target(jump, earliest, latest) >= earliest);
    assert(threads[i].is_due(clock.vnow));
    assert(after[i] == threads[i].timed_out());
}

/// What the supervisor does about one traced syscall.
#[derive(Debug, Clone, Copy, PartialEq, Eq)]
pub enum Plan {
    /// Let it run.
    Native,
    /// Let it run: its wait is over already.
    NativeNow,
    /// Let it run against the real clock, and say so in the log.
    TimerNative,
    /// Answer from the virtual clock.
    ReadClock { clockid: i64 },
    ReadTimeOfDay,
    ReadTime,
    /// Park until the deadline.
    Sleep { until: u64 },
    /// Issue it with a zero timeout to learn whether it would block.
    Probe { kind: WaitKind, deadline: Option<u64> },
    /// Let a futex wake run, and restart the waiters it may have woken.
    Wake { second: bool },
    /// Answer with bytes drawn from the case.
    Random { len: usize },
    /// Remember the announced counter range.
    Announce,
}

pub open spec fn nr_of(regs: Regs) -> i64 {
    regs.orig_rax as i64
}

pub open spec fn futex_op(regs: Regs) -> i32 {
    (regs.rsi & FUTEX_CMD_MASK) as i32
}

pub open spec fn is_futex_wait(regs: Regs) -> bool {
    nr_of(regs) == SYS_FUTEX && (futex_op(regs) == FUTEX_WAIT || futex_op(regs)
        == FUTEX_WAIT_BITSET)
}

/// A wake that touches the second futex word too.
pub open spec fn wakes_two(op: i32) -> bool {
    op == FUTEX_REQUEUE || op == FUTEX_CMP_REQUEUE || op == FUTEX_WAKE_OP
}

/// Address of the timeout of a wait, for the calls that keep it in memory.
pub open spec fn timeout_addr(regs: Regs) -> Option<u64> {
    let nr = nr_of(regs);
    if is_futex_wait(regs) || nr == SYS_EPOLL_PWAIT2 {
        Some(regs.r10)
    } else if nr == SYS_PPOLL {
        Some(regs.rdx)
    } else if nr == SYS_SELECT || nr == SYS_PSELECT6 {
        Some(regs.r8)
    } else {
        None
    }
}

/// Timeout in milliseconds, for the calls that pass it in a register.
pub open spec fn timeout_ms(regs: Regs) -> Option<i32> {
    let nr = nr_of(regs);
    if nr == SYS_EPOLL_WAIT || nr == SYS_EPOLL_PWAIT {
        Some(regs.r10 as i32)
    } else if nr == SYS_POLL {
        Some(regs.rdx as i32)
    } else {
        None
    }
}

/// Address of the time that must be read before the syscall can be judged.
pub open spec fn wanted_time_spec(restart: Option<Restart>, regs: Regs) -> Option<u64> {
    let nr = nr_of(regs);
    if nr == SYS_NANOSLEEP {
        Some(regs.rdi)
    } else if nr == SYS_CLOCK_NANOSLEEP {
        Some(regs.rdx)
    } else {
        match timeout_addr(regs) {
            Some(addr) => if addr != 0 && restart is None {
                Some(addr)
            } else {
                None
            },
            None => None,
        }
    }
}

/// Deadline of a wait: the one it was restarted with, or what its timeout stands for.
pub open spec fn wait_deadline(
    clock: VirtualClock,
    restart: Option<Restart>,
    regs: Regs,
    time: (i64, i64),
) -> Option<u64> {
    let nr = nr_of(regs);
    match restart {
        Some(r) => r.deadline,
        None => match timeout_ms(regs) {
            Some(ms) => if ms < 0 {
                None
            } else {
                Some(clock.relative_deadline(0, ms * 1_000_000))
            },
            None => if timeout_addr(regs) == Some(0u64) {
                None
            } else if is_futex_wait(regs) && futex_op(regs) == FUTEX_WAIT_BITSET {
                clock.absolute_deadline(
                    if regs.rsi & FUTEX_CLOCK_REALTIME != 0 {
                        CLOCK_REALTIME
                    } else {
                        CLOCK_MONOTONIC
                    },
                    time.0 as int,
                    time.1 as int,
                )
            } else if nr == SYS_SELECT {
                Some(clock.relative_deadline(time.0 as int, time.1 * 1000))
            } else {
                Some(clock.relative_deadline(time.0 as int, time.1 as int))
            },
        },
    }
}

/// Judgement of one traced syscall. `restart` is what the thread was restarted with, `time` the
/// time that [`wanted_time_spec`] asks for.
pub open spec fn plan_spec(
    clock: VirtualClock,
    restart: Option<Restart>,
    regs: Regs,
    time: (i64, i64),
) -> Plan {
    let nr = nr_of(regs);
    let deadline = wait_deadline(clock, restart, regs, time);
    if nr == SYS_CLOCK_GETTIME {
        Plan::ReadClock { clockid: regs.rdi as i64 }
    } else if nr == SYS_GETTIMEOFDAY {
        Plan::ReadTimeOfDay
    } else if nr == SYS_TIME {
        Plan::ReadTime
    } else if nr == SYS_NANOSLEEP {
        Plan::Sleep { until: clock.relative_deadline(time.0 as int, time.1 as int) }
    } else if nr == SYS_CLOCK_NANOSLEEP {
        if regs.rsi & TIMER_ABSTIME != 0 {
            match clock.absolute_deadline(regs.rdi as i64 as i32, time.0 as int, time.1 as int) {
                Some(until) => Plan::Sleep { until },
                None => Plan::Native,
            }
        } else {
            Plan::Sleep { until: clock.relative_deadline(time.0 as int, time.1 as int) }
        }
    } else if is_futex_wait(regs) {
        Plan::Probe { kind: WaitKind::Futex, deadline }
    } else if nr == SYS_FUTEX {
        let op = futex_op(regs);
        if op == FUTEX_WAKE || op == FUTEX_WAKE_BITSET || wakes_two(op) {
            Plan::Wake { second: wakes_two(op) }
        } else {
            Plan::Native
        }
    } else if timeout_ms(regs) is Some {
        if timeout_ms(regs) == Some(0i32) {
            Plan::Native
        } else {
            Plan::Probe { kind: WaitKind::Poll, deadline }
        }
    } else if timeout_addr(regs) is Some {
        if deadline == Some(clock.vnow) && timeout_addr(regs) != Some(0u64) {
            Plan::NativeNow
        } else {
            Plan::Probe { kind: WaitKind::Poll, deadline }
        }
    } else if nr == SYS_GETRANDOM {
        Plan::Random {
            len: if regs.rsi < MAX_RANDOM_BYTES {
                regs.rsi as usize
            } else {
                MAX_RANDOM_BYTES as usize
            },
        }
    } else if nr == SYS_TIMERFD_SETTIME {
        Plan::TimerNative
    } else if nr == ANNOUNCE_NR {
        Plan::Announce
    } else {
        Plan::Native
    }
}

/// Registers with which a wait is probed: the same call with a zero timeout.
pub open spec fn probe_regs_spec(regs: Regs) -> Regs {
    let nr = nr_of(regs);
    if nr == SYS_EPOLL_WAIT || nr == SYS_EPOLL_PWAIT {
        Regs { r10: 0, ..regs }
    } else if nr == SYS_POLL {
        Regs { rdx: 0, ..regs }
    } else if nr == SYS_PPOLL {
        Regs { rdx: scratch_spec(regs), ..regs }
    } else if nr == SYS_SELECT || nr == SYS_PSELECT6 {
        Regs { r8: scratch_spec(regs), ..regs }
    } else {
        Regs { r10: scratch_spec(regs), ..regs }
    }
}

/// The call keeps its timeout in memory, so a zero one must be put there for a probe.
pub open spec fn probe_needs_scratch(regs: Regs) -> bool {
    timeout_addr(regs) is Some
}

/// Memory to read before a wait can be probed: the descriptors it watches.
#[derive(Debug, Clone, Copy, PartialEq, Eq)]
pub enum Watch {
    /// Nothing in memory.
    Nothing,
    /// A `struct pollfd` array: address and length in bytes.
    PollFds { addr: u64, len: usize },
    /// Three `fd_set`s, each of this length in bytes; a null address is an absent set.
    FdSets { read: u64, write: u64, except: u64, len: usize },
}

/// The descriptor memory that the caller read.
#[derive(Debug)]
pub struct Watched {
    pub pollfds: Vec<u8>,
    pub read: Option<Vec<u8>>,
    pub write: Option<Vec<u8>>,
    pub except: Option<Vec<u8>>,
}

impl Watched {
    /// A buffer of the wanted length for each `fd_set` that is there.
    pub open spec fn covers(self, regs: Regs) -> bool {
        let len = fdset_len(regs.rdi);
        &&& self.read matches Some(b) ==> b@.len() == len
        &&& self.write matches Some(b) ==> b@.len() == len
        &&& self.except matches Some(b) ==> b@.len() == len
    }
}

/// What a probed wait watches.
pub open spec fn readiness_spec(regs: Regs, memory: Watched) -> Seq<(i32, i16)> {
    let nr = nr_of(regs);
    if nr == SYS_FUTEX {
        Seq::empty()
    } else if nr == SYS_POLL || nr == SYS_PPOLL {
        pollfds(memory.pollfds@, memory.pollfds@.len() as int / 8)
    } else if nr == SYS_SELECT || nr == SYS_PSELECT6 {
        select_members(
            regs.rdi,
            view_of(memory.read),
            view_of(memory.write),
            view_of(memory.except),
        )
    } else {
        seq![(regs.rdi as i32, POLLIN)]
    }
}

/// The arithmetic of the syscall's times stays in range: the clock can be read, and a `struct
/// timeval` counts microseconds that fit.
pub open spec fn can_judge(clock: VirtualClock, regs: Regs, time: (i64, i64)) -> bool {
    let nr = nr_of(regs);
    &&& nr == SYS_CLOCK_GETTIME ==> clock.can_read(regs.rdi as i64 as i32)
    &&& nr == SYS_GETTIMEOFDAY || nr == SYS_TIME ==> clock.can_read(CLOCK_REALTIME)
    &&& nr == SYS_SELECT ==> i64::MIN <= time.1 * 1000 <= i64::MAX
}

/// A probe that needs a zero timeout in memory finds room for it below the stack.
pub open spec fn has_scratch(plan: Plan, regs: Regs) -> bool {
    plan is Probe && probe_needs_scratch(regs) ==> regs.rsp >= SCRATCH_BELOW_RSP
}

/// The syscall can be judged, and what it comes to can be carried out.
pub open spec fn can_handle(
    clock: VirtualClock,
    restart: Option<Restart>,
    regs: Regs,
    time: (i64, i64),
) -> bool {
    &&& can_judge(clock, regs, time)
    &&& has_scratch(plan_spec(clock, restart, regs, time), regs)
}

fn judgeable(clock: &VirtualClock, regs: Regs, time: (i64, i64)) -> (judgeable: bool)
    ensures
        judgeable == can_judge(*clock, regs, time),
{
    let nr = regs.orig_rax as i64;
    proof {
        assert(CLOCK_REALTIME as i64 as i32 == CLOCK_REALTIME) by (bit_vector)
            requires CLOCK_REALTIME == 0i32,
        ;
    }
    (nr != SYS_CLOCK_GETTIME || clock.readable(regs.rdi as i64)) && (!(nr == SYS_GETTIMEOFDAY || nr
        == SYS_TIME) || clock.readable(CLOCK_REALTIME as i64)) && (nr != SYS_SELECT || (
    -9_223_372_036_854_775 <= time.1 && time.1 <= 9_223_372_036_854_775))
}

/// Address of the time that must be read before the syscall can be judged.
fn wanted_time_of(restart: &Option<Restart>, regs: Regs) -> (addr: Option<u64>)
    ensures
        addr == wanted_time_spec(*restart, regs),
{
    let nr = regs.orig_rax as i64;
    let fresh = restart.is_none();
    if nr == SYS_NANOSLEEP {
        Some(regs.rdi)
    } else if nr == SYS_CLOCK_NANOSLEEP {
        Some(regs.rdx)
    } else {
        match timeout_address(regs) {
            Some(addr) => if addr != 0 && fresh {
                Some(addr)
            } else {
                None
            },
            None => None,
        }
    }
}

fn timeout_address(regs: Regs) -> (addr: Option<u64>)
    ensures
        addr == timeout_addr(regs),
{
    let nr = regs.orig_rax as i64;
    let op = (regs.rsi & FUTEX_CMD_MASK) as i32;
    if (nr == SYS_FUTEX && (op == FUTEX_WAIT || op == FUTEX_WAIT_BITSET)) || nr
        == SYS_EPOLL_PWAIT2 {
        Some(regs.r10)
    } else if nr == SYS_PPOLL {
        Some(regs.rdx)
    } else if nr == SYS_SELECT || nr == SYS_PSELECT6 {
        Some(regs.r8)
    } else {
        None
    }
}

fn timeout_millis(regs: Regs) -> (ms: Option<i32>)
    ensures
        ms == timeout_ms(regs),
{
    let nr = regs.orig_rax as i64;
    if nr == SYS_EPOLL_WAIT || nr == SYS_EPOLL_PWAIT {
        Some(regs.r10 as i32)
    } else if nr == SYS_POLL {
        Some(regs.rdx as i32)
    } else {
        None
    }
}

fn deadline_of_wait(
    clock: &VirtualClock,
    restart: &Option<Restart>,
    regs: Regs,
    time: (i64, i64),
) -> (deadline: Option<u64>)
    requires
        can_judge(*clock, regs, time),
    ensures
        deadline == wait_deadline(*clock, *restart, regs, time),
{
    if let Some(r) = restart {
        return r.deadline;
    }
    let nr = regs.orig_rax as i64;
    if let Some(ms) = timeout_millis(regs) {
        return if ms < 0 {
            None
        } else {
            Some(clock.deadline_from_relative(0, ms as i64 * 1_000_000))
        };
    }
    let addr = timeout_address(regs);
    if let Some(a) = addr {
        if a == 0 {
            return None;
        }
    }
    let op = (regs.rsi & FUTEX_CMD_MASK) as i32;
    if nr == SYS_FUTEX && op == FUTEX_WAIT_BITSET {
        let clockid: i32 = if regs.rsi & FUTEX_CLOCK_REALTIME != 0 {
            CLOCK_REALTIME
        } else {
            CLOCK_MONOTONIC
        };
        assert((clockid as i64) as i32 == clockid) by (bit_vector);
        clock.deadline_from_absolute(clockid as i64, time.0, time.1)
    } else if nr == SYS_SELECT {
        Some(clock.deadline_from_relative(time.0, time.1 * 1000))
    } else {
        Some(clock.deadline_from_relative(time.0, time.1))
    }
}

/// Judge one traced syscall.
pub fn plan(
    clock: &VirtualClock,
    restart: &Option<Restart>,
    regs: Regs,
    time: (i64, i64),
) -> (plan: Plan)
    requires
        can_judge(*clock, regs, time),
    ensures
        plan == plan_spec(*clock, *restart, regs, time),
{
    let nr = regs.orig_rax as i64;
    if nr == SYS_CLOCK_GETTIME {
        return Plan::ReadClock { clockid: regs.rdi as i64 };
    }
    if nr == SYS_GETTIMEOFDAY {
        return Plan::ReadTimeOfDay;
    }
    if nr == SYS_TIME {
        return Plan::ReadTime;
    }
    if nr == SYS_NANOSLEEP {
        return Plan::Sleep { until: clock.deadline_from_relative(time.0, time.1) };
    }
    if nr == SYS_CLOCK_NANOSLEEP {
        return if regs.rsi & TIMER_ABSTIME != 0 {
            match clock.deadline_from_absolute(regs.rdi as i64, time.0, time.1) {
                Some(until) => Plan::Sleep { until },
                None => Plan::Native,
            }
        } else {
            Plan::Sleep { until: clock.deadline_from_relative(time.0, time.1) }
        };
    }
    let op = (regs.rsi & FUTEX_CMD_MASK) as i32;
    if nr == SYS_FUTEX {
        return if op == FUTEX_WAIT || op == FUTEX_WAIT_BITSET {
            let deadline = deadline_of_wait(clock, restart, regs, time);
            Plan::Probe { kind: WaitKind::Futex, deadline }
        } else if op == FUTEX_REQUEUE || op == FUTEX_CMP_REQUEUE || op == FUTEX_WAKE_OP {
            Plan::Wake { second: true }
        } else if op == FUTEX_WAKE || op == FUTEX_WAKE_BITSET {
            Plan::Wake { second: false }
        } else {
            Plan::Native
        };
    }
    if let Some(ms) = timeout_millis(regs) {
        return if ms == 0 {
            Plan::Native
        } else {
            let deadline = deadline_of_wait(clock, restart, regs, time);
            Plan::Probe { kind: WaitKind::Poll, deadline }
        };
    }
    if let Some(addr) = timeout_address(regs) {
        let deadline = deadline_of_wait(clock, restart, regs, time);
        let now = match deadline {
            Some(d) => d == clock.vnow,
            None => false,
        };
        return if now && addr != 0 {
            Plan::NativeNow
        } else {
            Plan::Probe { kind: WaitKind::Poll, deadline }
        };
    }
    if nr == SYS_GETRANDOM {
        let len: usize = if regs.rsi < MAX_RANDOM_BYTES {
            regs.rsi as usize
        } else {
            MAX_RANDOM_BYTES as usize
        };
        return Plan::Random { len };
    }
    if nr == SYS_TIMERFD_SETTIME {
        Plan::TimerNative
    } else if nr == ANNOUNCE_NR {
        Plan::Announce
    } else {
        Plan::Native
    }
}

/// Registers with which a wait is probed.
fn probe_regs(regs: Regs) -> (next: Regs)
    requires
        timeout_ms(regs) is None ==> regs.rsp >= SCRATCH_BELOW_RSP,
    ensures
        next == probe_regs_spec(regs),
{
    let nr = regs.orig_rax as i64;
    let scratch = regs.rsp.wrapping_sub(SCRATCH_BELOW_RSP) & 0xFFFF_FFFF_FFFF_FFF0;
    let mut next = regs;
    if nr == SYS_EPOLL_WAIT || nr == SYS_EPOLL_PWAIT {
        next.r10 = 0;
    } else if nr == SYS_POLL {
        next.rdx = 0;
    } else if nr == SYS_PPOLL {
        next.rdx = scratch;
    } else if nr == SYS_SELECT || nr == SYS_PSELECT6 {
        next.r8 = scratch;
    } else {
        next.r10 = scratch;
    }
    next
}

/// What a probed wait watches.
fn readiness_of(regs: Regs, memory: &Watched) -> (watched: Vec<(i32, i16)>)
    requires
        memory.covers(regs),
    ensures
        watched@ == readiness_spec(regs, *memory),
{
    let nr = regs.orig_rax as i64;
    if nr == SYS_FUTEX {
        Vec::new()
    } else if nr == SYS_POLL || nr == SYS_PPOLL {
        decode_pollfds(&memory.pollfds)
    } else if nr == SYS_SELECT || nr == SYS_PSELECT6 {
        decode_fdsets(regs.rdi, &memory.read, &memory.write, &memory.except)
    } else {
        let mut watched: Vec<(i32, i16)> = Vec::new();
        watched.push((regs.rdi as i32, POLLIN));
        assert(watched@ =~= readiness_spec(regs, *memory));
        watched
    }
}

impl Run {
    /// Address of the time that the caller must read before it hands over a syscall stop.
    pub fn wanted_time(&self, tid: i32, regs: Regs) -> (addr: Option<u64>)
        requires
            self.wf(),
            registered(self.threads@, tid),
        ensures
            addr == wanted_time_spec(
                self.threads@[position(self.threads@, tid)].restart,
                regs,
            ),
    {
        match self.find(tid) {
            Some(i) => wanted_time_of(&self.threads[i].restart, regs),
            None => None,
        }
    }

    /// Whether a syscall stop can be handled; see [`can_handle`].
    pub fn handleable(&self, tid: i32, regs: Regs, time: (i64, i64)) -> (handleable: bool)
        requires
            self.wf(),
            registered(self.threads@, tid),
        ensures
            handleable == can_handle(
                self.clock,
                self.threads@[position(self.threads@, tid)].restart,
                regs,
                time,
            ),
    {
        if !judgeable(&self.clock, regs, time) {
            return false;
        }
        match self.find(tid) {
            Some(i) => match plan(&self.clock, &self.threads[i].restart, regs, time) {
                Plan::Probe { .. } => timeout_address(regs).is_none() || regs.rsp
                    >= SCRATCH_BELOW_RSP,
                _ => true,
            },
            None => false,
        }
    }

    /// Descriptor memory that the caller must read before it hands over a syscall stop.
    pub fn wanted_watch(&self, tid: i32, regs: Regs, time: (i64, i64)) -> (watch: Watch)
        requires
            self.wf(),
            registered(self.threads@, tid),
            can_judge(self.clock, regs, time),
        ensures
            watch == match plan_spec(
                self.clock,
                self.threads@[position(self.threads@, tid)].restart,
                regs,
                time,
            ) {
                Plan::Probe { .. } => if nr_of(regs) == SYS_POLL || nr_of(regs) == SYS_PPOLL {
                    Watch::PollFds { addr: regs.rdi, len: (8 * watched(regs.rsi)) as usize }
                } else if nr_of(regs) == SYS_SELECT || nr_of(regs) == SYS_PSELECT6 {
                    Watch::FdSets {
                        read: regs.rsi,
                        write: regs.rdx,
                        except: regs.r10,
                        len: fdset_len(regs.rdi) as usize,
                    }
                } else {
                    Watch::Nothing
                },
                _ => Watch::Nothing,
            },
    {
        let nr = regs.orig_rax as i64;
        match self.find(tid) {
            Some(i) => match plan(&self.clock, &self.threads[i].restart, regs, time) {
                Plan::Probe { .. } => if nr == SYS_POLL || nr == SYS_PPOLL {
                    Watch::PollFds { addr: regs.rdi, len: pollfd_bytes(regs.rsi) }
                } else if nr == SYS_SELECT || nr == SYS_PSELECT6 {
                    Watch::FdSets {
                        read: regs.rsi,
                        write: regs.rdx,
                        except: regs.r10,
                        len: fdset_bytes(regs.rdi),
                    }
                } else {
                    Watch::Nothing
                },
                _ => Watch::Nothing,
            },
            None => Watch::Nothing,
        }
    }
}

/// Skip the syscall with result `ret`.
pub open spec fn skip_actions(tid: i32, regs: Regs, ret: i64) -> Seq<Action> {
    seq![
        Action::SetRegs { tid, regs: skipped_spec(regs, ret) },
        Action::Resume { tid, signal: 0 },
    ]
}

/// What carrying out `plan` on the thread at `at` does.
pub open spec fn carried_out(
    pre: Run,
    post: Run,
    at: int,
    regs: Regs,
    plan: Plan,
    memory: Watched,
    actions: Seq<Action>,
) -> bool {
    let t = pre.threads@[at];
    let tid = t.tid;
    let now = pre.clock.vnow;
    let go = seq![Action::Resume { tid, signal: 0 }];
    match plan {
        Plan::Native => post == pre && actions == go,
        Plan::NativeNow => {
            &&& post == (Run { threads: post.threads, ..pre })
            &&& post.threads@ == pre.threads@.update(at, Thread { restart: None, ..t })
            &&& actions == go
        },
        Plan::TimerNative => post == pre && actions == seq![
            Action::Log { index: t.index, now, event: Event::TimerfdSettimeNative(regs.rdi) },
        ] + go,
        Plan::ReadClock { clockid } => match pre.clock.read_answer(clockid as i32) {
            Some((secs, nanos)) => {
                &&& post == (Run {
                    clock: pre.clock.read_next(clockid as i32),
                    stats: StopStats {
                        clock_reads: (pre.stats.clock_reads + 1) as usize,
                        ..pre.stats
                    },
                    ..pre
                })
                &&& actions == (if regs.rsi != 0 {
                    seq![Action::WriteTimespec { tid, addr: regs.rsi, secs, nanos }]
                } else {
                    Seq::empty()
                }) + skip_actions(tid, regs, 0)
            },
            None => post == pre && actions == go,
        },
        Plan::ReadTimeOfDay => {
            let (secs, nanos) = pre.clock.read_answer(CLOCK_REALTIME).unwrap();
            &&& post == (Run {
                clock: pre.clock.read_next(CLOCK_REALTIME),
                stats: StopStats {
                    clock_reads: (pre.stats.clock_reads + 1) as usize,
                    ..pre.stats
                },
                ..pre
            })
            &&& actions == (if regs.rdi != 0 {
                seq![
                    Action::WriteTimespec {
                        tid,
                        addr: regs.rdi,
                        secs,
                        nanos: (nanos as int / 1000) as i64,
                    },
                ]
            } else {
                Seq::empty()
            }) + (if regs.rsi != 0 {
                seq![Action::WriteWord { tid, addr: regs.rsi, value: 0 }]
            } else {
                Seq::empty()
            }) + skip_actions(tid, regs, 0)
        },
        Plan::ReadTime => {
            let secs = pre.clock.read_answer(CLOCK_REALTIME).unwrap().0;
            &&& post == (Run {
                clock: pre.clock.read_next(CLOCK_REALTIME),
                stats: StopStats {
                    clock_reads: (pre.stats.clock_reads + 1) as usize,
                    ..pre.stats
                },
                ..pre
            })
            &&& actions == (if regs.rdi != 0 {
                seq![Action::WriteWord { tid, addr: regs.rdi, value: secs as u64 }]
            } else {
                Seq::empty()
            }) + skip_actions(tid, regs, secs)
        },
        Plan::Sleep { until } => {
            let log = Action::Log { index: t.index, now, event: Event::Sleep(until) };
            let stats = StopStats { sleeps: (pre.stats.sleeps + 1) as usize, ..pre.stats };
            if until <= now {
                post == (Run { stats, ..pre }) && actions == seq![log] + skip_actions(tid, regs, 0)
            } else {
                &&& post == (Run { stats, threads: post.threads, ..pre })
                &&& post.threads@.len() == pre.threads@.len()
                &&& post.threads@[at].wait matches Some(w) && w.kind == WaitKind::Sleep
                    && w.deadline == Some(until) && w.futex is None && w.readiness@.len() == 0
                &&& post.threads@ == pre.threads@.update(
                    at,
                    Thread { wait: post.threads@[at].wait, ..t },
                )
                &&& actions == seq![log]
            }
        },
        Plan::Probe { kind, deadline } => {
            &&& post == (Run {
                stats: if kind == WaitKind::Futex {
                    StopStats {
                        futex_probes: (pre.stats.futex_probes + 1) as usize,
                        ..pre.stats
                    }
                } else {
                    StopStats { poll_probes: (pre.stats.poll_probes + 1) as usize, ..pre.stats }
                },
                threads: post.threads,
                ..pre
            })
            &&& post.threads@.len() == pre.threads@.len()
            &&& post.threads@[at].probe matches Some(p) && p.kind == kind && p.deadline == deadline
                && p.futex == (if kind == WaitKind::Futex {
                Some((t.tgid, regs.rdi))
            } else {
                None
            }) && p.readiness@ == readiness_spec(regs, memory) && p.nr == nr_of(regs)
                && p.entry_regs == regs && !p.seen_entry
            &&& post.threads@ == pre.threads@.update(
                at,
                Thread { restart: None, probe: post.threads@[at].probe, ..t },
            )
            &&& actions == (if probe_needs_scratch(regs) {
                seq![Action::WriteTimespec { tid, addr: scratch_spec(regs), secs: 0, nanos: 0 }]
            } else {
                Seq::empty()
            }) + seq![
                Action::SetRegs { tid, regs: probe_regs_spec(regs) },
                Action::ResumeToSyscall { tid },
            ]
        },
        Plan::Wake { second } => {
            let who = Waiters::OnWords(
                t.tgid,
                regs.rdi,
                if second {
                    Some(regs.r8)
                } else {
                    None
                },
            );
            let n = pre.threads@.len() as int;
            &&& post == (Run {
                stats: StopStats {
                    wakes: (pre.stats.wakes + 1) as usize,
                    restarts: (pre.stats.restarts + count_of(pre.threads@, who, n)) as usize,
                    ..pre.stats
                },
                threads: post.threads,
                ..pre
            })
            &&& post.threads@ == after_restarts(pre.threads@, who)
            &&& actions == seq![
                Action::Log {
                    index: t.index,
                    now,
                    event: Event::FutexWake(regs.rsi & FUTEX_CMD_MASK),
                },
            ] + go + restarts_of(pre.threads@, who, now, n)
        },
        Plan::Random { len } => {
            &&& post == (Run {
                decisions: Decisions {
                    random_bytes: (pre.decisions.random_bytes + len) as usize,
                    ..pre.decisions
                },
                stats: StopStats {
                    getrandom: (pre.stats.getrandom + 1) as usize,
                    ..pre.stats
                },
                ..pre
            })
            &&& actions == seq![
                Action::WriteRandom { tid, addr: regs.rdi, len },
                Action::Log { index: t.index, now, event: Event::GetRandom(len) },
            ] + skip_actions(tid, regs, len as i64)
        },
        Plan::Announce => {
            &&& post == (Run { announced: post.announced, ..pre })
            &&& post.announced@ == pre.announced@.push((t.tgid, regs.rdi, regs.rsi))
            &&& actions == seq![
                Action::Log {
                    index: t.index,
                    now,
                    event: Event::Announce(
                        if regs.rsi > regs.rdi {
                            (regs.rsi - regs.rdi) as u64
                        } else {
                            0
                        },
                    ),
                },
            ] + skip_actions(tid, regs, 0)
        },
    }
}

/// The counter range that process `tgid` announced last.
pub open spec fn announced_range(announced: Seq<(i32, u64, u64)>, tgid: i32) -> Option<(u64, u64)>
    decreases announced.len(),
{
    if announced.len() == 0 {
        None
    } else if announced.last().0 == tgid {
        Some((announced.last().1, announced.last().2))
    } else {
        announced_range(announced.drop_last(), tgid)
    }
}

/// Address and length of the counters to copy when a thread of process `tgid` exits.
pub open spec fn counters_spec(announced: Seq<(i32, u64, u64)>, tgid: i32) -> Option<(u64, u64)> {
    match announced_range(announced, tgid) {
        Some((start, end)) => Some(
            (
                start,
                if end <= start {
                    0
                } else if end - start < MAX_COUNTER_BYTES {
                    (end - start) as u64
                } else {
                    MAX_COUNTER_BYTES
                },
            ),
        ),
        None => None,
    }
}

fn push_skip(actions: &mut Vec<Action>, tid: i32, regs: Regs, ret: i64)
    ensures
        final(actions)@ == old(actions)@ + skip_actions(tid, regs, ret),
{
    actions.push(Action::SetRegs { tid, regs: skipped(regs, ret) });
    actions.push(Action::Resume { tid, signal: 0 });
    assert(actions@ =~= old(actions)@ + skip_actions(tid, regs, ret));
}

impl Run {
    fn read_clock(&mut self, i: usize, regs: Regs, clockid: i64, actions: &mut Vec<Action>)
        requires
            old(self).wf(),
            i < old(self).threads@.len(),
            old(self).clock.can_read(clockid as i32),
            old(self).stats.clock_reads < usize::MAX,
            old(actions)@.len() == 0,
        ensures
            final(self).wf(),
            forall|memory: Watched| #[trigger]
                carried_out(
                    *old(self),
                    *final(self),
                    i as int,
                    regs,
                    Plan::ReadClock { clockid },
                    memory,
                    final(actions)@,
                ),
    {
        let tid = self.threads[i].tid;
        match self.clock.read(clockid) {
            Some((secs, nanos)) => {
                self.stats.clock_reads = self.stats.clock_reads + 1;
                if regs.rsi != 0 {
                    actions.push(Action::WriteTimespec { tid, addr: regs.rsi, secs, nanos });
                }
                push_skip(actions, tid, regs, 0);
                assert(actions@ =~= (if regs.rsi != 0 {
                    seq![Action::WriteTimespec { tid, addr: regs.rsi, secs, nanos }]
                } else {
                    Seq::empty()
                }) + skip_actions(tid, regs, 0));
            },
            None => {
                actions.push(Action::Resume { tid, signal: 0 });
                assert(actions@ =~= seq![Action::Resume { tid, signal: 0 }]);
            },
        }
    }

    fn read_time_of_day(&mut self, i: usize, regs: Regs, actions: &mut Vec<Action>)
        requires
            old(self).wf(),
            i < old(self).threads@.len(),
            old(self).clock.can_read(CLOCK_REALTIME),
            old(self).stats.clock_reads < usize::MAX,
            old(actions)@.len() == 0,
        ensures
            final(self).wf(),
            forall|memory: Watched| #[trigger]
                carried_out(
                    *old(self),
                    *final(self),
                    i as int,
                    regs,
                    Plan::ReadTimeOfDay,
                    memory,
                    final(actions)@,
                ),
    {
        let tid = self.threads[i].tid;
        assert((CLOCK_REALTIME as i64) as i32 == CLOCK_REALTIME) by (bit_vector)
            requires CLOCK_REALTIME == 0i32,
        ;
        if let Some((secs, nanos)) = self.clock.read(CLOCK_REALTIME as i64) {
            self.stats.clock_reads = self.stats.clock_reads + 1;
            assert(0 <= nanos);
            let micros: i64 = nanos / 1000;
            if regs.rdi != 0 {
                actions.push(Action::WriteTimespec { tid, addr: regs.rdi, secs, nanos: micros });
            }
            if regs.rsi != 0 {
                actions.push(Action::WriteWord { tid, addr: regs.rsi, value: 0 });
            }
            push_skip(actions, tid, regs, 0);
            assert(actions@ =~= (if regs.rdi != 0 {
                seq![
                    Action::WriteTimespec {
                        tid,
                        addr: regs.rdi,
                        secs,
                        nanos: (nanos as int / 1000) as i64,
                    },
                ]
            } else {
                Seq::empty()
            }) + (if regs.rsi != 0 {
                seq![Action::WriteWord { tid, addr: regs.rsi, value: 0 }]
            } else {
                Seq::empty()
            }) + skip_actions(tid, regs, 0));
        }
    }

    fn read_time(&mut self, i: usize, regs: Regs, actions: &mut Vec<Action>)
        requires
            old(self).wf(),
            i < old(self).threads@.len(),
            old(self).clock.can_read(CLOCK_REALTIME),
            old(self).stats.clock_reads < usize::MAX,
            old(actions)@.len() == 0,
        ensures
            final(self).wf(),
            forall|memory: Watched| #[trigger]
                carried_out(
                    *old(self),
                    *final(self),
                    i as int,
                    regs,
                    Plan::ReadTime,
                    memory,
                    final(actions)@,
                ),
    {
        let tid = self.threads[i].tid;
        assert((CLOCK_REALTIME as i64) as i32 == CLOCK_REALTIME) by (bit_vector)
            requires CLOCK_REALTIME == 0i32,
        ;
        if let Some((secs, nanos)) = self.clock.read(CLOCK_REALTIME as i64) {
            self.stats.clock_reads = self.stats.clock_reads + 1;
            if regs.rdi != 0 {
                actions.push(Action::WriteWord { tid, addr: regs.rdi, value: secs as u64 });
            }
            push_skip(actions, tid, regs, secs);
            assert(actions@ =~= (if regs.rdi != 0 {
                seq![Action::WriteWord { tid, addr: regs.rdi, value: secs as u64 }]
            } else {
                Seq::empty()
            }) + skip_actions(tid, regs, secs));
        }
    }

    fn park_sleep(&mut self, i: usize, regs: Regs, deadline: u64, actions: &mut Vec<Action>)
        requires
            old(self).wf(),
            i < old(self).threads@.len(),
            old(self).stats.sleeps < usize::MAX,
            old(actions)@.len() == 0,
        ensures
            final(self).wf(),
            forall|memory: Watched| #[trigger]
                carried_out(
                    *old(self),
                    *final(self),
                    i as int,
                    regs,
                    Plan::Sleep { until: deadline },
                    memory,
                    final(actions)@,
                ),
    {
        let tid = self.threads[i].tid;
        let index = self.threads[i].index;
        let now = self.clock.now();
        self.stats.sleeps = self.stats.sleeps + 1;
        let log = Action::Log { index, now, event: Event::Sleep(deadline) };
        actions.push(log);
        assert(actions@ =~= seq![log]);
        if deadline <= now {
            push_skip(actions, tid, regs, 0);
            return;
        }
        self.threads[i].wait = Some(
            Wait {
                kind: WaitKind::Sleep,
                deadline: Some(deadline),
                futex: None,
                readiness: Vec::new(),
            },
        );
        proof {
            let t = old(self).threads@[i as int];
            assert(t.wf());
            assert(self.threads@ =~= old(self).threads@.update(
                i as int,
                Thread { wait: self.threads@[i as int].wait, ..t },
            ));
            assert(self.threads@[i as int].wf());
        }
    }

    fn start_probe(
        &mut self,
        i: usize,
        regs: Regs,
        kind: WaitKind,
        deadline: Option<u64>,
        memory: &Watched,
        actions: &mut Vec<Action>,
    )
        requires
            old(self).wf(),
            i < old(self).threads@.len(),
            old(self).stats.futex_probes < usize::MAX,
            old(self).stats.poll_probes < usize::MAX,
            kind != WaitKind::Sleep,
            memory.covers(regs),
            timeout_ms(regs) is None ==> regs.rsp >= SCRATCH_BELOW_RSP,
            old(actions)@.len() == 0,
        ensures
            final(self).wf(),
            carried_out(
                *old(self),
                *final(self),
                i as int,
                regs,
                Plan::Probe { kind, deadline },
                *memory,
                final(actions)@,
            ),
    {
        let tid = self.threads[i].tid;
        let tgid = self.threads[i].tgid;
        let readiness = readiness_of(regs, memory);
        if timeout_address(regs).is_some() {
            let scratch = (regs.rsp - SCRATCH_BELOW_RSP) & 0xFFFF_FFFF_FFFF_FFF0;
            actions.push(Action::WriteTimespec { tid, addr: scratch, secs: 0, nanos: 0 });
        }
        actions.push(Action::SetRegs { tid, regs: probe_regs(regs) });
        actions.push(Action::ResumeToSyscall { tid });
        let futex = if kind == WaitKind::Futex {
            self.stats.futex_probes = self.stats.futex_probes + 1;
            Some((tgid, regs.rdi))
        } else {
            self.stats.poll_probes = self.stats.poll_probes + 1;
            None
        };
        self.threads[i].restart = None;
        self.threads[i].probe = Some(
            Probe {
                kind,
                deadline,
                futex,
                readiness,
                nr: regs.orig_rax as i64,
                entry_regs: regs,
                seen_entry: false,
            },
        );
        proof {
            let t = old(self).threads@[i as int];
            assert(t.wf());
            assert(self.threads@ =~= old(self).threads@.update(
                i as int,
                Thread { restart: None, probe: self.threads@[i as int].probe, ..t },
            ));
            assert(self.threads@[i as int].wf());
            assert(actions@ =~= (if probe_needs_scratch(regs) {
                seq![Action::WriteTimespec { tid, addr: scratch_spec(regs), secs: 0, nanos: 0 }]
            } else {
                Seq::empty()
            }) + seq![
                Action::SetRegs { tid, regs: probe_regs_spec(regs) },
                Action::ResumeToSyscall { tid },
            ]);
        }
    }

    /// A thread stopped at a traced syscall: judge it and carry the judgement out.
    pub fn on_seccomp(
        &mut self,
        tid: i32,
        regs: Regs,
        time: (i64, i64),
        memory: &Watched,
    ) -> (actions: Vec<Action>)
        requires
            old(self).wf(),
            old(self).has_room(),
            registered(old(self).threads@, tid),
            can_handle(
                old(self).clock,
                old(self).threads@[position(old(self).threads@, tid)].restart,
                regs,
                time,
            ),
            memory.covers(regs),
        ensures
            final(self).wf(),
            ({
                let at = position(old(self).threads@, tid);
                carried_out(
                    *old(self),
                    *final(self),
                    at,
                    regs,
                    plan_spec(old(self).clock, old(self).threads@[at].restart, regs, time),
                    *memory,
                    actions@,
                )
            }),
    {
        let mut actions: Vec<Action> = Vec::new();
        let i: usize = match self.find(tid) {
            Some(i) => i,
            None => {
                return actions;
            },
        };
        let ghost t = self.threads@[i as int];
        let index = self.threads[i].index;
        let tgid = self.threads[i].tgid;
        let now = self.clock.now();
        let go = Action::Resume { tid, signal: 0 };
        let plan = plan(&self.clock, &self.threads[i].restart, regs, time);
        match plan {
            Plan::Native => {
                actions.push(go);
                assert(actions@ =~= seq![go]);
            },
            Plan::NativeNow => {
                self.threads[i].restart = None;
                actions.push(go);
                proof {
                    assert(t.wf());
                    assert(actions@ =~= seq![go]);
                    assert(self.threads@ =~= old(self).threads@.update(
                        i as int,
                        Thread { restart: None, ..t },
                    ));
                    assert(self.threads@[i as int].wf());
                }
            },
            Plan::TimerNative => {
                let log = Action::Log {
                    index,
                    now,
                    event: Event::TimerfdSettimeNative(regs.rdi),
                };
                actions.push(log);
                actions.push(go);
                assert(actions@ =~= seq![log] + seq![go]);
            },
            Plan::ReadClock { clockid } => {
                self.read_clock(i, regs, clockid, &mut actions);
            },
            Plan::ReadTimeOfDay => {
                self.read_time_of_day(i, regs, &mut actions);
            },
            Plan::ReadTime => {
                self.read_time(i, regs, &mut actions);
            },
            Plan::Sleep { until } => {
                self.park_sleep(i, regs, until, &mut actions);
            },
            Plan::Probe { kind, deadline } => {
                self.start_probe(i, regs, kind, deadline, memory, &mut actions);
            },
            Plan::Wake { second } => {
                self.stats.wakes = self.stats.wakes + 1;
                let log = Action::Log {
                    index,
                    now,
                    event: Event::FutexWake(regs.rsi & FUTEX_CMD_MASK),
                };
                actions.push(log);
                actions.push(go);
                assert(actions@ =~= seq![log] + seq![go]);
                let who = Waiters::OnWords(
                    tgid,
                    regs.rdi,
                    if second {
                        Some(regs.r8)
                    } else {
                        None
                    },
                );
                self.restart_all(who, &mut actions);
            },
            Plan::Random { len } => {
                self.decisions.random_bytes = self.decisions.random_bytes + len;
                self.stats.getrandom = self.stats.getrandom + 1;
                let write = Action::WriteRandom { tid, addr: regs.rdi, len };
                let log = Action::Log { index, now, event: Event::GetRandom(len) };
                actions.push(write);
                actions.push(log);
                assert(actions@ =~= seq![write, log]);
                push_skip(&mut actions, tid, regs, len as i64);
            },
            Plan::Announce => {
                self.announced.push((tgid, regs.rdi, regs.rsi));
                let log = Action::Log {
                    index,
                    now,
                    event: Event::Announce(regs.rsi.saturating_sub(regs.rdi)),
                };
                actions.push(log);
                assert(actions@ =~= seq![log]);
                push_skip(&mut actions, tid, regs, 0);
            },
        }
        actions
    }
}

/// A probe's result says that the call would have blocked.
pub open spec fn would_block(kind: WaitKind, result: i64) -> bool {
    match kind {
        WaitKind::Futex => result == -ETIMEDOUT,
        WaitKind::Poll => result == 0,
        WaitKind::Sleep => false,
    }
}

/// What a syscall-entry or -exit stop of a thread does.
pub open spec fn syscall_stopped(
    pre: Run,
    post: Run,
    at: int,
    regs: Regs,
    actions: Seq<Action>,
) -> bool {
    let t = pre.threads@[at];
    let tid = t.tid;
    let now = pre.clock.vnow;
    let result = regs.rax as i64;
    match t.probe {
        None => post == pre && actions == seq![Action::Resume { tid, signal: 0 }],
        Some(p) => if !p.seen_entry && result == -ENOSYS {
            // The entry stop: go on to the exit stop.
            &&& post == (Run { threads: post.threads, ..pre })
            &&& post.threads@ == pre.threads@.update(
                at,
                Thread { probe: Some(Probe { seen_entry: true, ..p }), ..t },
            )
            &&& actions == seq![Action::ResumeToSyscall { tid }]
        } else {
            let block = would_block(p.kind, result);
            let log = Action::Log {
                index: t.index,
                now,
                event: Event::Probe { nr: p.nr, result, block },
            };
            if !block || (p.deadline matches Some(d) && d <= now) {
                // The probe's result is the right answer.
                &&& post == (Run { threads: post.threads, ..pre })
                &&& post.threads@ == pre.threads@.update(at, Thread { probe: None, ..t })
                &&& actions == seq![log, Action::Resume { tid, signal: 0 }]
            } else {
                // Park the thread; the probe keeps what it takes to issue the call again.
                &&& post == (Run {
                    stats: if p.kind == WaitKind::Futex {
                        StopStats {
                            futex_parked: (pre.stats.futex_parked + 1) as usize,
                            ..pre.stats
                        }
                    } else {
                        StopStats {
                            poll_parked: (pre.stats.poll_parked + 1) as usize,
                            ..pre.stats
                        }
                    },
                    threads: post.threads,
                    ..pre
                })
                &&& post.threads@.len() == pre.threads@.len()
                &&& post.threads@[at].wait matches Some(w) && w.kind == p.kind && w.deadline
                    == p.deadline && w.futex == p.futex && w.readiness@ == p.readiness@
                &&& post.threads@ == pre.threads@.update(
                    at,
                    Thread { wait: post.threads@[at].wait, ..t },
                )
                &&& actions == seq![log]
            }
        },
    }
}

/// What the caller does next.
#[derive(Debug, PartialEq, Eq)]
pub enum Turn {
    /// Kill the program, reap its threads, and report this.
    Stop(Outcome),
    /// No thread is left.
    Finished,
    /// Look for threads that are ready, and move the clock ([`Run::quiesce`]) if there is none.
    Quiesce,
    /// Wait for a stop and hand it to [`Run::handle_stop`].
    Await,
}

/// A program that was told to be traced stops with a trap once it executes.
pub fn is_first_stop(pid: i32, tid: i32, status: i32) -> (first: bool)
    ensures
        first == (tid == pid && (status_spec(status) matches Status::Stopped { signal, .. }
            && signal == SIGTRAP)),
{
    match decode_status(status) {
        Status::Stopped { signal, .. } => tid == pid && signal == SIGTRAP,
        _ => false,
    }
}

/// What the caller does next about a stop.
#[derive(Debug, Clone, Copy, PartialEq, Eq, Structural)]
pub enum Next {
    /// Nothing but the actions.
    Done,
    /// Read the registers and hand them to [`Run::on_seccomp`].
    Seccomp,
    /// Read the registers and hand them to [`Run::on_syscall_stop`].
    Syscall,
    /// Hide the vDSO if asked to, report it to [`Run::on_exec`], and resume.
    Exec,
    /// Ask which thread is new and report it to [`Run::on_clone`].
    NewThread,
    /// Copy the counters that [`Run::counters`] names, and resume.
    Exiting,
}

/// What a stop of `tid` with this signal and event calls for.
pub open spec fn next_spec(signal: i32, event: i32) -> Next {
    if signal == SIGTRAP && event == PTRACE_EVENT_SECCOMP {
        Next::Seccomp
    } else if signal == SIGTRAP && event == PTRACE_EVENT_EXEC {
        Next::Exec
    } else if signal == SIGTRAP && (event == PTRACE_EVENT_CLONE || event == PTRACE_EVENT_FORK
        || event == PTRACE_EVENT_VFORK) {
        Next::NewThread
    } else if signal == SIGTRAP && event == PTRACE_EVENT_EXIT {
        Next::Exiting
    } else if signal == SIGTRAP | 0x80i32 && event == 0 {
        Next::Syscall
    } else {
        Next::Done
    }
}

/// Signal with which a stop that needs nothing else is resumed. The first stop signal of a new
/// thread comes from its birth and is not delivered.
pub open spec fn delivered(signal: i32, event: i32, fresh: bool) -> i32 {
    if event != 0 {
        0
    } else if signal == SIGSTOP && fresh {
        0
    } else {
        signal
    }
}

impl Run {
    /// A thread stopped at the entry or exit of a probed syscall.
    pub fn on_syscall_stop(&mut self, tid: i32, regs: Regs) -> (actions: Vec<Action>)
        requires
            old(self).wf(),
            old(self).has_room(),
            registered(old(self).threads@, tid),
            old(self).threads@[position(old(self).threads@, tid)].wait is None,
        ensures
            final(self).wf(),
            syscall_stopped(
                *old(self),
                *final(self),
                position(old(self).threads@, tid),
                regs,
                actions@,
            ),
    {
        let mut actions: Vec<Action> = Vec::new();
        let i: usize = match self.find(tid) {
            Some(i) => i,
            None => {
                return actions;
            },
        };
        let ghost t = self.threads@[i as int];
        assert(t.wf());
        let result = regs.rax as i64;
        let (seen_entry, kind, deadline, nr) = match &self.threads[i].probe {
            Some(p) => (p.seen_entry, p.kind, p.deadline, p.nr),
            None => {
                actions.push(Action::Resume { tid, signal: 0 });
                assert(actions@ =~= seq![Action::Resume { tid, signal: 0 }]);
                return actions;
            },
        };
        if !seen_entry && result == -(ENOSYS as i64) {
            if let Some(mut p) = self.threads[i].probe.take() {
                p.seen_entry = true;
                self.threads[i].probe = Some(p);
            }
            actions.push(Action::ResumeToSyscall { tid });
            proof {
                assert(actions@ =~= seq![Action::ResumeToSyscall { tid }]);
                assert(self.threads@ =~= old(self).threads@.update(
                    i as int,
                    Thread {
                        probe: Some(Probe { seen_entry: true, ..t.probe.unwrap() }),
                        ..t
                    },
                ));
                assert(self.threads@[i as int].wf());
            }
            return actions;
        }
        let block = match kind {
            WaitKind::Futex => result == -(ETIMEDOUT as i64),
            WaitKind::Poll => result == 0,
            WaitKind::Sleep => false,
        };
        let now = self.clock.now();
        let index = self.threads[i].index;
        let log = Action::Log { index, now, event: Event::Probe { nr, result, block } };
        actions.push(log);
        let late = match deadline {
            Some(d) => d <= now,
            None => false,
        };
        if !block || late {
            self.threads[i].probe = None;
            actions.push(Action::Resume { tid, signal: 0 });
            proof {
                assert(actions@ =~= seq![log, Action::Resume { tid, signal: 0 }]);
                assert(self.threads@ =~= old(self).threads@.update(
                    i as int,
                    Thread { probe: None, ..t },
                ));
                assert(self.threads@[i as int].wf());
            }
            return actions;
        }
        if kind == WaitKind::Futex {
            self.stats.futex_parked = self.stats.futex_parked + 1;
        } else {
            self.stats.poll_parked = self.stats.poll_parked + 1;
        }
        let (futex, readiness) = match &self.threads[i].probe {
            Some(p) => (p.futex, copy_readiness(&p.readiness)),
            None => (None, Vec::new()),
        };
        self.threads[i].wait = Some(Wait { kind, deadline, futex, readiness });
        proof {
            assert(actions@ =~= seq![log]);
            assert(self.threads@ =~= old(self).threads@.update(
                i as int,
                Thread { wait: self.threads@[i as int].wait, ..t },
            ));
            assert(self.threads@[i as int].wf());
        }
        actions
    }

    /// A thread is gone: note how the main thread ended, and have every futex waiter of its
    /// process look again. (The kernel clears the thread's id word and wakes joiners itself,
    /// without a wake that could be observed.)
    fn on_gone(&mut self, tid: i32, status: i32) -> (actions: Vec<Action>)
        requires
            old(self).wf(),
            old(self).stats.restarts + old(self).threads@.len() <= usize::MAX,
            status_spec(status) is Exited || status_spec(status) is Signaled,
        ensures
            final(self).wf(),
            gone(*old(self), *final(self), tid, status, actions@),
    {
        let mut actions: Vec<Action> = Vec::new();
        let index = self.label(tid);
        let now = self.clock.now();
        let ghost before = self.threads@;
        match decode_status(status) {
            Status::Exited(code) => {
                actions.push(Action::Log { index, now, event: Event::Exited(code) });
                if tid == self.main_pid {
                    self.main_status = Some(Outcome::Exited(code));
                }
            },
            Status::Signaled(signal) => {
                actions.push(Action::Log { index, now, event: Event::Signaled(signal) });
                if tid == self.main_pid {
                    self.main_status = Some(Outcome::Signaled(signal));
                }
            },
            _ => {},
        }
        assert(actions@ =~= seq![
            Action::Log { index, now, event: exit_event(status) },
        ]);
        if let Some(i) = self.find(tid) {
            let exited = self.threads.remove(i);
            proof {
                let rest = before.remove(i as int);
                assert(self.threads@ == rest);
                assert forall|k: int| 0 <= k < rest.len() implies rest[k] == before[if k < i {
                    k
                } else {
                    k + 1
                }] by {}
                assert(by_tid(rest)) by {
                    assert forall|a: int, b: int| 0 <= a < b < rest.len() implies rest[a].tid
                        < rest[b].tid by {
                        let a0 = if a < i {
                            a
                        } else {
                            a + 1
                        };
                        let b0 = if b < i {
                            b
                        } else {
                            b + 1
                        };
                        assert(before[a0].tid < before[b0].tid);
                    }
                }
                assert forall|k: int| 0 <= k < rest.len() implies (#[trigger] rest[k]).wf() by {
                    assert(before[if k < i {
                        k
                    } else {
                        k + 1
                    }].wf());
                }
            }
            self.restart_all(Waiters::OfProcess(exited.tgid), &mut actions);
        }
        actions
    }

    /// A thread reported `status`. `tgid` is its thread group, which matters only for a thread not
    /// seen before.
    pub fn handle_stop(&mut self, tid: i32, tgid: i32, status: i32) -> (result: (
        Next,
        Vec<Action>,
    ))
        requires
            old(self).wf(),
            old(self).has_room(),
        ensures
            final(self).wf(),
            ({
                let counted = Run {
                    stats: StopStats {
                        stops: (old(self).stats.stops + 1) as usize,
                        ..old(self).stats
                    },
                    ..*old(self)
                };
                match status_spec(status) {
                    Status::Other => result.0 == Next::Done && result.1@.len() == 0 && *final(self)
                        == counted,
                    Status::Stopped { signal, event } => {
                        &&& result.0 == next_spec(signal, event)
                        &&& registered(final(self).threads@, tid)
                        &&& stopped(counted, *final(self), tid, tgid, signal, event, result.1@)
                    },
                    _ => result.0 == Next::Done && gone(
                        counted,
                        *final(self),
                        tid,
                        status,
                        result.1@,
                    ),
                }
            }),
    {
        self.stats.stops = self.stats.stops + 1;
        let ghost counted = *self;
        let (signal, event) = match decode_status(status) {
            Status::Exited(_) | Status::Signaled(_) => {
                let actions = self.on_gone(tid, status);
                return (Next::Done, actions);
            },
            Status::Other => {
                return (Next::Done, Vec::new());
            },
            Status::Stopped { signal, event } => (signal, event),
        };
        self.register(tid, tgid, true);
        let ghost taken = *self;
        assert(taken_up(counted, taken, tid, tgid, true));
        let mut actions: Vec<Action> = Vec::new();
        if signal == SIGTRAP && event == PTRACE_EVENT_SECCOMP {
            return (Next::Seccomp, actions);
        }
        if signal == SIGTRAP && event == PTRACE_EVENT_EXEC {
            return (Next::Exec, actions);
        }
        if signal == SIGTRAP && (event == PTRACE_EVENT_CLONE || event == PTRACE_EVENT_FORK || event
            == PTRACE_EVENT_VFORK) {
            return (Next::NewThread, actions);
        }
        if signal == SIGTRAP && event == PTRACE_EVENT_EXIT {
            return (Next::Exiting, actions);
        }
        if signal == SIGTRAP | 0x80i32 && event == 0 {
            return (Next::Syscall, actions);
        }
        if event != 0 {
            actions.push(Action::Resume { tid, signal: 0 });
            assert(actions@ =~= seq![Action::Resume { tid, signal: 0 }]);
            return (Next::Done, actions);
        }
        if signal == SIGSTOP {
            if let Some(i) = self.find(tid) {
                let suppress = self.threads[i].fresh;
                if suppress {
                    self.threads[i].fresh = false;
                }
                let deliver: i32 = if suppress {
                    0
                } else {
                    SIGSTOP
                };
                actions.push(Action::Resume { tid, signal: deliver });
                proof {
                    let t = taken.threads@[i as int];
                    assert(t.wf());
                    assert(actions@ =~= seq![Action::Resume { tid, signal: deliver }]);
                    if suppress {
                        assert(self.threads@ =~= taken.threads@.update(
                            i as int,
                            Thread { fresh: false, ..t },
                        ));
                        lemma_position(self.threads@, i as int);
                    } else {
                        assert(taken.threads@ =~= taken.threads@.update(
                            i as int,
                            Thread { fresh: false, ..t },
                        ));
                    }
                }
            }
            return (Next::Done, actions);
        }
        let index = self.label(tid);
        let now = self.clock.now();
        let log = Action::Log { index, now, event: Event::Signal(signal) };
        actions.push(log);
        actions.push(Action::Resume { tid, signal });
        assert(actions@ =~= seq![log, Action::Resume { tid, signal }]);
        (Next::Done, actions)
    }

    /// A thread's program was replaced.
    pub fn on_exec(&self, tid: i32, vdso_hidden: bool) -> (log: Action)
        requires
            self.wf(),
        ensures
            log == (Action::Log {
                index: label(self.threads@, tid),
                now: self.clock.vnow,
                event: Event::Exec { vdso_hidden },
            }),
    {
        Action::Log {
            index: self.label(tid),
            now: self.clock.now(),
            event: Event::Exec { vdso_hidden },
        }
    }

    /// Thread `tid` started thread `child` of group `tgid`.
    pub fn on_clone(&mut self, tid: i32, child: i32, tgid: i32) -> (actions: Vec<Action>)
        requires
            old(self).wf(),
            old(self).has_room(),
        ensures
            final(self).wf(),
            taken_up(*old(self), *final(self), child, tgid, true),
            actions@ == seq![
                Action::Log {
                    index: label(final(self).threads@, tid),
                    now: old(self).clock.vnow,
                    event: Event::Clone { index: label(final(self).threads@, child) },
                },
                Action::Resume { tid, signal: 0 },
            ],
    {
        self.register(child, tgid, true);
        let mut actions: Vec<Action> = Vec::new();
        let event = Event::Clone { index: self.label(child) };
        actions.push(Action::Log { index: self.label(tid), now: self.clock.now(), event });
        actions.push(Action::Resume { tid, signal: 0 });
        assert(actions@ =~= seq![
            Action::Log {
                index: label(self.threads@, tid),
                now: old(self).clock.vnow,
                event: Event::Clone { index: label(self.threads@, child) },
            },
            Action::Resume { tid, signal: 0 },
        ]);
        actions
    }

    /// Address and length of the counters to copy when thread `tid` exits.
    pub fn counters(&self, tid: i32) -> (range: Option<(u64, u64)>)
        requires
            self.wf(),
        ensures
            range == if registered(self.threads@, tid) {
                counters_spec(self.announced@, self.threads@[position(self.threads@, tid)].tgid)
            } else {
                None
            },
    {
        let tgid = match self.find(tid) {
            Some(i) => self.threads[i].tgid,
            None => {
                return None;
            },
        };
        let mut i: usize = self.announced.len();
        assert(self.announced@.take(i as int) =~= self.announced@);
        while i > 0
            invariant
                i <= self.announced@.len(),
                announced_range(self.announced@, tgid) == announced_range(
                    self.announced@.take(i as int),
                    tgid,
                ),
                registered(self.threads@, tid),
                tgid == self.threads@[position(self.threads@, tid)].tgid,
            decreases i,
        {
            i -= 1;
            let (process, start, end) = self.announced[i];
            assert(self.announced@.take(i + 1).drop_last() =~= self.announced@.take(i as int));
            assert(self.announced@.take(i + 1).last() == self.announced@[i as int]);
            if process == tgid {
                let len = end.saturating_sub(start);
                return Some(
                    (
                        start,
                        if len < MAX_COUNTER_BYTES {
                            len
                        } else {
                            MAX_COUNTER_BYTES
                        },
                    ),
                );
            }
        }
        None
    }

    /// After a forced end: the thread is reaped. Says whether it was the last.
    pub fn reap(&mut self, tid: i32) -> (last: bool)
        requires
            old(self).wf(),
        ensures
            !registered(final(self).threads@, tid),
            last == (final(self).threads@.len() == 0),
            registered(old(self).threads@, tid) ==> final(self).threads@ == old(
                self,
            ).threads@.remove(position(old(self).threads@, tid)),
            !registered(old(self).threads@, tid) ==> *final(self) == *old(self),
            *final(self) == (Run { threads: final(self).threads, ..*old(self) }),
            by_tid(final(self).threads@),
            final(self).wf(),
    {
        let ghost before = self.threads@;
        if let Some(i) = self.find(tid) {
            let _gone = self.threads.remove(i);
            proof {
                let rest = before.remove(i as int);
                assert forall|k: int| 0 <= k < rest.len() implies rest[k] == before[if k < i {
                    k
                } else {
                    k + 1
                }] && (#[trigger] rest[k]).wf() && rest[k].tid != tid by {
                    let k0 = if k < i {
                        k
                    } else {
                        k + 1
                    };
                    assert(before[k0].wf());
                    if k0 < i {
                        assert(before[k0].tid < before[i as int].tid);
                    } else {
                        assert(before[i as int].tid < before[k0].tid);
                    }
                }
                assert forall|a: int, b: int| 0 <= a < b < rest.len() implies rest[a].tid
                    < rest[b].tid by {
                    let a0 = if a < i {
                        a
                    } else {
                        a + 1
                    };
                    let b0 = if b < i {
                        b
                    } else {
                        b + 1
                    };
                    assert(before[a0].tid < before[b0].tid);
                }
            }
        }
        self.threads.len() == 0
    }

    /// How the run ended, once no thread is left: the watchdog counts first.
    pub fn outcome(&mut self, hung: bool) -> (outcome: Outcome)
        ensures
            hung ==> outcome == Outcome::Hang,
            !hung && old(self).main_status is Some ==> outcome == old(self).main_status.unwrap(),
            !hung && old(self).main_status is None ==> (outcome matches Outcome::Error(message)
                && message@ == "main thread never reported exit"@),
            hung ==> *final(self) == *old(self),
            !hung ==> *final(self) == (Run { main_status: None, ..*old(self) }),
    {
        if hung {
            return Outcome::Hang;
        }
        match self.main_status.take() {
            Some(outcome) => outcome,
            None => Outcome::Error("main thread never reported exit".to_owned()),
        }
    }
}

pub open spec fn exit_event(status: i32) -> Event {
    match status_spec(status) {
        Status::Exited(code) => Event::Exited(code),
        Status::Signaled(signal) => Event::Signaled(signal),
        _ => arbitrary(),
    }
}

pub open spec fn exit_outcome(status: i32) -> Outcome {
    match status_spec(status) {
        Status::Exited(code) => Outcome::Exited(code),
        Status::Signaled(signal) => Outcome::Signaled(signal),
        _ => arbitrary(),
    }
}

/// What the end of a thread does.
pub open spec fn gone(pre: Run, post: Run, tid: i32, status: i32, actions: Seq<Action>) -> bool {
    let now = pre.clock.vnow;
    let log = Action::Log { index: label(pre.threads@, tid), now, event: exit_event(status) };
    let main_status = if tid == pre.main_pid {
        Some(exit_outcome(status))
    } else {
        pre.main_status
    };
    if registered(pre.threads@, tid) {
        let at = position(pre.threads@, tid);
        let rest = pre.threads@.remove(at);
        let who = Waiters::OfProcess(pre.threads@[at].tgid);
        &&& post == (Run {
            main_status,
            threads: post.threads,
            stats: StopStats {
                restarts: (pre.stats.restarts + count_of(rest, who, rest.len() as int)) as usize,
                ..pre.stats
            },
            ..pre
        })
        &&& post.threads@ == after_restarts(rest, who)
        &&& actions == seq![log] + restarts_of(rest, who, now, rest.len() as int)
    } else {
        post == (Run { main_status, ..pre }) && actions == seq![log]
    }
}

/// The thread is known afterwards, and was taken up as the next one if it was not.
pub open spec fn taken_up(pre: Run, post: Run, tid: i32, tgid: i32, fresh: bool) -> bool {
    if registered(pre.threads@, tid) {
        post == pre
    } else {
        let at = position(post.threads@, tid);
        &&& post == (Run {
            threads: post.threads,
            next_index: (pre.next_index + 1) as usize,
            stats: StopStats { threads: (pre.stats.threads + 1) as usize, ..pre.stats },
            ..pre
        })
        &&& 0 <= at <= pre.threads@.len()
        &&& post.threads@ == pre.threads@.insert(
            at,
            Thread {
                tid,
                index: pre.next_index,
                tgid,
                fresh,
                wait: None,
                restart: None,
                probe: None,
            },
        )
    }
}

/// What a stop does before the caller does what it calls for.
pub open spec fn stopped(
    pre: Run,
    post: Run,
    tid: i32,
    tgid: i32,
    signal: i32,
    event: i32,
    actions: Seq<Action>,
) -> bool {
    exists|taken: Run|
        {
            let at = position(taken.threads@, tid);
            let t = taken.threads@[at];
            &&& #[trigger] taken_up(pre, taken, tid, tgid, true)
            &&& if next_spec(signal, event) != Next::Done {
                post == taken && actions.len() == 0
            } else if event == 0 && signal == SIGSTOP {
                &&& post == (Run { threads: post.threads, ..taken })
                &&& post.threads@ == taken.threads@.update(at, Thread { fresh: false, ..t })
                &&& actions == seq![
                    Action::Resume { tid, signal: delivered(signal, event, t.fresh) },
                ]
            } else if event == 0 {
                post == taken && actions == seq![
                    Action::Log { index: t.index, now: pre.clock.vnow, event: Event::Signal(signal) },
                    Action::Resume { tid, signal },
                ]
            } else {
                post == taken && actions == seq![Action::Resume { tid, signal: 0 }]
            }
        }
}

/// However often a wait is restarted, it keeps the deadline that it first had: time spent before
/// a wake that did not concern it is not waited for again.
pub proof fn restarts_keep_the_deadline(
    t: Thread,
    clock: VirtualClock,
    regs: Regs,
    time: (i64, i64),
)
    requires
        t.wait is Some,
    ensures
        wait_deadline(clock, t.restarted().restart, regs, time) == t.waits_until(),
        wanted_time_spec(t.restarted().restart, regs) is Some ==> nr_of(regs) == SYS_NANOSLEEP || nr_of(
            regs,
        ) == SYS_CLOCK_NANOSLEEP,
{
}

} // verus!
