//! The virtual clock. `vnow` is nanoseconds since the sandbox started; every clock the target can
//! read is derived from it.

use vstd::prelude::*;

use crate::linux::{
    CLOCK_BOOTTIME, CLOCK_MONOTONIC, CLOCK_MONOTONIC_COARSE, CLOCK_MONOTONIC_RAW, CLOCK_REALTIME,
    CLOCK_REALTIME_COARSE, CLOCK_TAI,
};

verus! {

pub const NANOS: u64 = 1_000_000_000;

/// Virtual monotonic clocks start here so `Instant` arithmetic in the target can never
/// underflow.
pub const MONOTONIC_EPOCH_NS: u64 = 1_000_000_000_000_000;

/// Virtual `CLOCK_REALTIME` base: 2026-01-01T00:00:00Z. Fixed so replays are identical no matter
/// when they run.
pub const REALTIME_BASE_NS: u64 = 1_767_225_600_000_000_000;

#[derive(Debug, Clone, Copy, PartialEq, Eq, Structural)]
pub struct VirtualClock {
    /// Nanoseconds since the sandbox started.
    pub vnow: u64,
    /// Added to every clock read so busy loops that spin on the clock terminate.
    pub quantum_ns: u64,
    /// Offset applied to `CLOCK_REALTIME`: wall-clock steps.
    pub realtime_step_ns: i64,
}

/// `value`, held within the range of `u64`.
pub open spec fn clamp_u64(value: int) -> int {
    if value < 0 {
        0
    } else if value > u64::MAX {
        u64::MAX as int
    } else {
        value
    }
}

/// Clocks that count from [`MONOTONIC_EPOCH_NS`].
pub open spec fn is_monotonic(clockid: i32) -> bool {
    clockid == CLOCK_MONOTONIC || clockid == CLOCK_MONOTONIC_RAW || clockid
        == CLOCK_MONOTONIC_COARSE || clockid == CLOCK_BOOTTIME
}

/// Clocks that follow the virtual wall clock.
pub open spec fn is_wall(clockid: i32) -> bool {
    clockid == CLOCK_REALTIME || clockid == CLOCK_REALTIME_COARSE || clockid == CLOCK_TAI
}

/// Nanoseconds of a timespec; a negative second or nanosecond field counts as zero.
pub open spec fn ns_of(secs: int, nanos: int) -> int {
    if secs < 0 {
        0
    } else {
        clamp_u64(clamp_u64(secs * NANOS) + if nanos < 0 { 0 } else { nanos })
    }
}

/// Seconds and nanoseconds of a nanosecond count.
pub open spec fn split_spec(ns: int) -> (i64, i64) {
    ((ns / NANOS as int) as i64, (ns % NANOS as int) as i64)
}

impl VirtualClock {
    /// Time after one more clock read.
    pub open spec fn after_read(self) -> int {
        clamp_u64(self.vnow + self.quantum_ns)
    }

    /// Wall-clock nanoseconds at virtual time `vnow`.
    pub open spec fn wall_at(self, vnow: int) -> int {
        clamp_u64(REALTIME_BASE_NS + vnow + self.realtime_step_ns)
    }

    /// A read of `clockid` stays within 64-bit nanoseconds.
    pub open spec fn can_read(self, clockid: i32) -> bool {
        &&& is_monotonic(clockid) ==> MONOTONIC_EPOCH_NS + self.after_read() <= u64::MAX
        &&& is_wall(clockid) ==> REALTIME_BASE_NS + self.after_read() <= u64::MAX
    }

    /// What a read of `clockid` answers.
    pub open spec fn read_answer(self, clockid: i32) -> Option<(i64, i64)> {
        if is_monotonic(clockid) {
            Some(split_spec(MONOTONIC_EPOCH_NS + self.after_read()))
        } else if is_wall(clockid) {
            Some(split_spec(self.wall_at(self.after_read())))
        } else {
            None
        }
    }

    /// The clock after a read of `clockid`: only a virtualised clock moves time.
    pub open spec fn read_next(self, clockid: i32) -> VirtualClock {
        if is_monotonic(clockid) || is_wall(clockid) {
            VirtualClock { vnow: self.after_read() as u64, ..self }
        } else {
            self
        }
    }

    /// The deadline that an absolute timespec on `clockid` stands for.
    pub open spec fn absolute_deadline(self, clockid: i32, secs: int, nanos: int) -> Option<u64> {
        if clockid == CLOCK_MONOTONIC || clockid == CLOCK_MONOTONIC_RAW || clockid
            == CLOCK_BOOTTIME {
            Some(clamp_u64(ns_of(secs, nanos) - MONOTONIC_EPOCH_NS) as u64)
        } else if clockid == CLOCK_REALTIME {
            Some(
                clamp_u64(
                    ns_of(secs, nanos) - clamp_u64(REALTIME_BASE_NS + self.realtime_step_ns),
                ) as u64,
            )
        } else {
            None
        }
    }

    /// The deadline that a relative timespec stands for.
    pub open spec fn relative_deadline(self, secs: int, nanos: int) -> u64 {
        clamp_u64(self.vnow + ns_of(secs, nanos)) as u64
    }

    pub fn new(quantum_ns: u64) -> (clock: Self)
        ensures
            clock == (VirtualClock { vnow: 0, quantum_ns, realtime_step_ns: 0 }),
    {
        Self { vnow: 0, quantum_ns, realtime_step_ns: 0 }
    }

    pub fn now(&self) -> (vnow: u64)
        ensures
            vnow == self.vnow,
    {
        self.vnow
    }

    /// Move forward to `vnow`; a time already passed changes nothing.
    pub fn advance_to(&mut self, vnow: u64)
        ensures
            *final(self) == (VirtualClock {
                vnow: if vnow > old(self).vnow {
                    vnow
                } else {
                    old(self).vnow
                },
                ..*old(self)
            }),
    {
        if vnow > self.vnow {
            self.vnow = vnow;
        }
    }

    /// Whether a read of `clockid` stays within 64-bit nanoseconds.
    pub fn readable(&self, clockid: i64) -> (readable: bool)
        ensures
            readable == self.can_read(clockid as i32),
    {
        let id = clockid as i32;
        let next = self.vnow.saturating_add(self.quantum_ns);
        if id == CLOCK_MONOTONIC || id == CLOCK_MONOTONIC_RAW || id == CLOCK_MONOTONIC_COARSE || id
            == CLOCK_BOOTTIME {
            next <= u64::MAX - MONOTONIC_EPOCH_NS
        } else if id == CLOCK_REALTIME || id == CLOCK_REALTIME_COARSE || id == CLOCK_TAI {
            next <= u64::MAX - REALTIME_BASE_NS
        } else {
            true
        }
    }

    /// Answer a clock read; `None` means the clock is not virtualised (CPU-time clocks, ...).
    pub fn read(&mut self, clockid: i64) -> (answer: Option<(i64, i64)>)
        requires
            old(self).can_read(clockid as i32),
        ensures
            *final(self) == old(self).read_next(clockid as i32),
            answer == old(self).read_answer(clockid as i32),
    {
        let id = clockid as i32;
        if id == CLOCK_MONOTONIC || id == CLOCK_MONOTONIC_RAW || id == CLOCK_MONOTONIC_COARSE || id
            == CLOCK_BOOTTIME {
            self.vnow = self.vnow.saturating_add(self.quantum_ns);
            Some(split(MONOTONIC_EPOCH_NS + self.vnow))
        } else if id == CLOCK_REALTIME || id == CLOCK_REALTIME_COARSE || id == CLOCK_TAI {
            self.vnow = self.vnow.saturating_add(self.quantum_ns);
            Some(split(self.realtime_ns()))
        } else {
            None
        }
    }

    pub fn realtime_ns(&self) -> (ns: u64)
        requires
            REALTIME_BASE_NS + self.vnow <= u64::MAX,
        ensures
            ns == self.wall_at(self.vnow as int),
    {
        offset(REALTIME_BASE_NS + self.vnow, self.realtime_step_ns)
    }

    /// Convert an absolute timespec on `clockid` into a `vnow` deadline.
    pub fn deadline_from_absolute(&self, clockid: i64, secs: i64, nanos: i64) -> (deadline: Option<
        u64,
    >)
        ensures
            deadline == self.absolute_deadline(clockid as i32, secs as int, nanos as int),
    {
        let abs = to_ns(secs, nanos);
        let id = clockid as i32;
        if id == CLOCK_MONOTONIC || id == CLOCK_MONOTONIC_RAW || id == CLOCK_BOOTTIME {
            Some(abs.saturating_sub(MONOTONIC_EPOCH_NS))
        } else if id == CLOCK_REALTIME {
            let base = offset(REALTIME_BASE_NS, self.realtime_step_ns);
            Some(abs.saturating_sub(base))
        } else {
            None
        }
    }

    /// Convert a relative timespec into a `vnow` deadline.
    pub fn deadline_from_relative(&self, secs: i64, nanos: i64) -> (deadline: u64)
        ensures
            deadline == self.relative_deadline(secs as int, nanos as int),
    {
        self.vnow.saturating_add(to_ns(secs, nanos))
    }

    /// Step the wall clock by `step`, holding the offset within 64 bits.
    pub fn step_realtime(&mut self, step: i64)
        requires
            i64::MIN <= old(self).realtime_step_ns + step <= i64::MAX,
        ensures
            *final(self) == (VirtualClock {
                realtime_step_ns: (old(self).realtime_step_ns + step) as i64,
                ..*old(self)
            }),
    {
        self.realtime_step_ns = self.realtime_step_ns + step;
    }
}

/// `base` moved by `step`, held within the range of `u64`.
fn offset(base: u64, step: i64) -> (moved: u64)
    ensures
        moved == clamp_u64(base + step),
{
    let sum: i128 = base as i128 + step as i128;
    if sum < 0 {
        0
    } else if sum > u64::MAX as i128 {
        u64::MAX
    } else {
        sum as u64
    }
}

/// Nanoseconds of a timespec, saturating; a negative field counts as zero.
pub fn to_ns(secs: i64, nanos: i64) -> (ns: u64)
    ensures
        ns == ns_of(secs as int, nanos as int),
{
    if secs < 0 {
        return 0;
    }
    let whole: u128 = secs as u128 * 1_000_000_000u128;
    let whole: u64 = if whole > u64::MAX as u128 {
        u64::MAX
    } else {
        whole as u64
    };
    let rest: u64 = if nanos < 0 {
        0
    } else {
        nanos as u64
    };
    whole.saturating_add(rest)
}

/// Seconds and nanoseconds of a nanosecond count.
pub fn split(ns: u64) -> (parts: (i64, i64))
    ensures
        parts == split_spec(ns as int),
        0 <= parts.1 < NANOS,
{
    ((ns / NANOS) as i64, (ns % NANOS) as i64)
}

/// Splitting nanoseconds into a timespec loses nothing.
pub proof fn split_round_trips(ns: u64)
    ensures
        ns_of(split_spec(ns as int).0 as int, split_spec(ns as int).1 as int) == ns,
{
}

/// A normalised timespec that fits 64-bit nanoseconds comes back from its nanoseconds.
pub proof fn to_ns_round_trips(secs: i64, nanos: i64)
    requires
        0 <= secs,
        0 <= nanos < NANOS,
        secs * NANOS + nanos <= u64::MAX,
    ensures
        split_spec(ns_of(secs as int, nanos as int)) == (secs, nanos),
{
}

/// Time never runs backwards, whatever clock is read.
pub proof fn reads_never_go_back(clock: VirtualClock, clockid: i32)
    ensures
        clock.read_next(clockid).vnow >= clock.vnow,
        clock.read_next(clockid).quantum_ns == clock.quantum_ns,
        clock.read_next(clockid).realtime_step_ns == clock.realtime_step_ns,
{
}

/// Two reads of one monotonic clock answer in order, and strictly so while the quantum is not
/// zero: a loop that spins on the clock makes progress.
pub proof fn monotonic_reads_ascend(clock: VirtualClock, clockid: i32)
    requires
        is_monotonic(clockid),
        clock.can_read(clockid),
        clock.read_next(clockid).can_read(clockid),
    ensures
        ({
            let first = clock.read_answer(clockid).unwrap();
            let second = clock.read_next(clockid).read_answer(clockid).unwrap();
            let a = ns_of(first.0 as int, first.1 as int);
            let b = ns_of(second.0 as int, second.1 as int);
            a <= b && (clock.quantum_ns > 0 ==> a < b)
        }),
{
    let next = clock.read_next(clockid);
    split_round_trips((MONOTONIC_EPOCH_NS + clock.after_read()) as u64);
    split_round_trips((MONOTONIC_EPOCH_NS + next.after_read()) as u64);
}

/// An absolute wait on the monotonic clock and a relative wait that aim at the same instant have
/// the same deadline.
pub proof fn absolute_and_relative_agree(clock: VirtualClock, delay: u64)
    requires
        MONOTONIC_EPOCH_NS + clock.vnow + delay <= u64::MAX,
    ensures
        ({
            let target = split_spec(MONOTONIC_EPOCH_NS + clock.vnow + delay);
            let span = split_spec(delay as int);
            clock.absolute_deadline(CLOCK_MONOTONIC, target.0 as int, target.1 as int) == Some(
                clock.relative_deadline(span.0 as int, span.1 as int),
            )
        }),
{
    split_round_trips((MONOTONIC_EPOCH_NS + clock.vnow + delay) as u64);
    split_round_trips(delay);
}

/// The same holds of the wall clock, wherever its steps have taken it, while neither the stepped
/// base nor the target leaves 64-bit nanoseconds.
pub proof fn wall_and_relative_agree(clock: VirtualClock, delay: u64)
    requires
        0 <= REALTIME_BASE_NS + clock.realtime_step_ns,
        REALTIME_BASE_NS + clock.realtime_step_ns + clock.vnow + delay <= u64::MAX,
        clock.vnow + delay <= u64::MAX,
    ensures
        ({
            let target = split_spec(clock.wall_at(clock.vnow as int) + delay);
            let span = split_spec(delay as int);
            clock.absolute_deadline(CLOCK_REALTIME, target.0 as int, target.1 as int) == Some(
                clock.relative_deadline(span.0 as int, span.1 as int),
            )
        }),
{
    split_round_trips((clock.wall_at(clock.vnow as int) + delay) as u64);
    split_round_trips(delay);
}

/// A read of a wall clock tells the time: its answer, as nanoseconds, is the base, the steps so
/// far and the virtual time after the read, which is one quantum on.
pub proof fn wall_reads_tell_the_time(clock: VirtualClock, clockid: i32)
    requires
        clockid == CLOCK_REALTIME || clockid == CLOCK_REALTIME_COARSE || clockid == CLOCK_TAI,
        clock.vnow + clock.quantum_ns <= u64::MAX,
        0 <= REALTIME_BASE_NS + clock.vnow + clock.quantum_ns + clock.realtime_step_ns <= u64::MAX,
    ensures
        clock.read_answer(clockid) matches Some((secs, nanos)) && secs * 1_000_000_000 + nanos
            == REALTIME_BASE_NS + clock.vnow + clock.quantum_ns + clock.realtime_step_ns && 0
            <= nanos < 1_000_000_000,
        clock.read_next(clockid) == (VirtualClock {
            vnow: (clock.vnow + clock.quantum_ns) as u64,
            ..clock
        }),
{
}

/// A wall clock that was stepped to before 1970 reads zero.
pub proof fn wall_reads_stop_at_zero(clock: VirtualClock, clockid: i32)
    requires
        clockid == CLOCK_REALTIME || clockid == CLOCK_REALTIME_COARSE || clockid == CLOCK_TAI,
        REALTIME_BASE_NS + clock.vnow + clock.quantum_ns + clock.realtime_step_ns < 0,
    ensures
        clock.read_answer(clockid) == Some((0i64, 0i64)),
{
}

/// A read of a wall clock and an absolute wait agree: a wait until the instant that a read told
/// ends at the time after the read, wherever the steps have taken the wall clock.
pub proof fn wall_reads_and_waits_agree(clock: VirtualClock, clockid: i32)
    requires
        clockid == CLOCK_REALTIME || clockid == CLOCK_REALTIME_COARSE || clockid == CLOCK_TAI,
        clock.vnow + clock.quantum_ns <= u64::MAX,
        0 <= REALTIME_BASE_NS + clock.realtime_step_ns,
        REALTIME_BASE_NS + clock.vnow + clock.quantum_ns + clock.realtime_step_ns <= u64::MAX,
    ensures
        clock.read_answer(clockid) matches Some((secs, nanos)) && clock.read_next(
            clockid,
        ).absolute_deadline(CLOCK_REALTIME, secs as int, nanos as int) == Some(
            clock.read_next(clockid).vnow,
        ),
{
    wall_reads_tell_the_time(clock, clockid);
}

/// A step of the wall clock moves what a read answers by as much, and moves nothing else: the
/// virtual time and the monotonic clocks read as before.
pub proof fn steps_move_wall_reads(clock: VirtualClock, stepped: VirtualClock, clockid: i32)
    requires
        stepped == (VirtualClock { realtime_step_ns: stepped.realtime_step_ns, ..clock }),
        clock.vnow + clock.quantum_ns <= u64::MAX,
        0 <= REALTIME_BASE_NS + clock.vnow + clock.quantum_ns + clock.realtime_step_ns <= u64::MAX,
        0 <= REALTIME_BASE_NS + clock.vnow + clock.quantum_ns + stepped.realtime_step_ns
            <= u64::MAX,
    ensures
        stepped.read_next(clockid).vnow == clock.read_next(clockid).vnow,
        clockid == CLOCK_REALTIME || clockid == CLOCK_REALTIME_COARSE || clockid == CLOCK_TAI ==> ({
            let before = clock.read_answer(clockid).unwrap();
            let after = stepped.read_answer(clockid).unwrap();
            (after.0 - before.0) * 1_000_000_000 + after.1 - before.1 == stepped.realtime_step_ns
                - clock.realtime_step_ns
        }),
        clockid != CLOCK_REALTIME && clockid != CLOCK_REALTIME_COARSE && clockid != CLOCK_TAI
            ==> stepped.read_answer(clockid) == clock.read_answer(clockid),
{
}

/// A read of a monotonic clock tells the time since the epoch of those clocks, one quantum on,
/// and a wait until the instant that it told ends at the time after the read. The coarse clock
/// can be read and not waited on.
pub proof fn monotonic_reads_tell_the_time(clock: VirtualClock, clockid: i32)
    requires
        clockid == CLOCK_MONOTONIC || clockid == CLOCK_MONOTONIC_RAW || clockid == CLOCK_BOOTTIME
            || clockid == CLOCK_MONOTONIC_COARSE,
        MONOTONIC_EPOCH_NS + clock.vnow + clock.quantum_ns <= u64::MAX,
    ensures
        clock.read_answer(clockid) matches Some((secs, nanos)) && secs * 1_000_000_000 + nanos
            == MONOTONIC_EPOCH_NS + clock.vnow + clock.quantum_ns && 0 <= nanos < 1_000_000_000 && (
        clockid != CLOCK_MONOTONIC_COARSE ==> clock.read_next(clockid).absolute_deadline(
            clockid,
            secs as int,
            nanos as int,
        ) == Some(clock.read_next(clockid).vnow)) && (clockid == CLOCK_MONOTONIC_COARSE
            ==> clock.absolute_deadline(clockid, secs as int, nanos as int) is None),
        clock.read_next(clockid) == (VirtualClock {
            vnow: (clock.vnow + clock.quantum_ns) as u64,
            ..clock
        }),
{
}

/// Every other clock is left alone: no answer, and no time passes.
pub proof fn other_clocks_are_left_alone(clock: VirtualClock, clockid: i32)
    requires
        clockid != CLOCK_MONOTONIC,
        clockid != CLOCK_MONOTONIC_RAW,
        clockid != CLOCK_MONOTONIC_COARSE,
        clockid != CLOCK_BOOTTIME,
        clockid != CLOCK_REALTIME,
        clockid != CLOCK_REALTIME_COARSE,
        clockid != CLOCK_TAI,
    ensures
        clock.read_answer(clockid) is None,
        clock.read_next(clockid) == clock,
        clock.can_read(clockid),
        forall|secs: int, nanos: int|
            clock.absolute_deadline(clockid, secs, nanos) is None,
{
}

/// A relative wait ends as many nanoseconds from now as its timespec says, and never later than
/// the last instant; a negative field counts for nothing, and negative seconds silence the
/// nanoseconds.
pub proof fn relative_waits_end_on_time(clock: VirtualClock, secs: int, nanos: int)
    ensures
        secs < 0 ==> clock.relative_deadline(secs, nanos) == clock.vnow,
        secs >= 0 && nanos < 0 ==> clock.relative_deadline(secs, nanos) == clock.relative_deadline(
            secs,
            0,
        ),
        secs >= 0 && nanos >= 0 && clock.vnow + secs * 1_000_000_000 + nanos <= u64::MAX
            ==> clock.relative_deadline(secs, nanos) == clock.vnow + secs * 1_000_000_000 + nanos,
        secs >= 0 && nanos >= 0 && clock.vnow + secs * 1_000_000_000 + nanos > u64::MAX
            ==> clock.relative_deadline(secs, nanos) == u64::MAX,
{
}

/// An absolute wait for an instant that has not come ends at that instant, and one for an
/// instant before the sandbox started ends at its start.
pub proof fn absolute_waits_end_on_time(clock: VirtualClock, clockid: i32, secs: int, nanos: int)
    requires
        secs >= 0,
        nanos >= 0,
        secs * 1_000_000_000 + nanos <= u64::MAX,
        0 <= REALTIME_BASE_NS + clock.realtime_step_ns <= u64::MAX,
    ensures
        ({
            let instant = secs * 1_000_000_000 + nanos;
            let wall = REALTIME_BASE_NS + clock.realtime_step_ns;
            &&& clockid == CLOCK_MONOTONIC || clockid == CLOCK_MONOTONIC_RAW || clockid
                == CLOCK_BOOTTIME ==> (clock.absolute_deadline(clockid, secs, nanos) matches Some(
                deadline,
            ) && if instant >= MONOTONIC_EPOCH_NS {
                deadline + MONOTONIC_EPOCH_NS == instant
            } else {
                deadline == 0
            })
            &&& clockid == CLOCK_REALTIME ==> (clock.absolute_deadline(
                clockid,
                secs,
                nanos,
            ) matches Some(deadline) && if instant >= wall {
                deadline + wall == instant
            } else {
                deadline == 0
            })
        }),
{
}

} // verus!
