//! Numbers and status words of the x86-64 Linux ABI.

use vstd::prelude::*;

verus! {

pub const SYS_POLL: i64 = 7;

pub const SYS_SELECT: i64 = 23;

pub const SYS_SCHED_YIELD: i64 = 24;

pub const SYS_NANOSLEEP: i64 = 35;

pub const SYS_CLONE: i64 = 56;

pub const SYS_EXIT: i64 = 60;

pub const SYS_GETTIMEOFDAY: i64 = 96;

pub const SYS_GETPPID: i64 = 110;

pub const SYS_TIME: i64 = 201;

pub const SYS_FUTEX: i64 = 202;

pub const SYS_CLOCK_GETTIME: i64 = 228;

pub const SYS_CLOCK_NANOSLEEP: i64 = 230;

pub const SYS_EXIT_GROUP: i64 = 231;

pub const SYS_EPOLL_WAIT: i64 = 232;

pub const SYS_PSELECT6: i64 = 270;

pub const SYS_PPOLL: i64 = 271;

pub const SYS_EPOLL_PWAIT: i64 = 281;

pub const SYS_TIMERFD_SETTIME: i64 = 286;

pub const SYS_TIMERFD_GETTIME: i64 = 287;

pub const SYS_GETRANDOM: i64 = 318;

pub const SYS_CLONE3: i64 = 435;

pub const SYS_EPOLL_PWAIT2: i64 = 441;

pub const CLOCK_REALTIME: i32 = 0;

pub const CLOCK_MONOTONIC: i32 = 1;

pub const CLOCK_MONOTONIC_RAW: i32 = 4;

pub const CLOCK_REALTIME_COARSE: i32 = 5;

pub const CLOCK_MONOTONIC_COARSE: i32 = 6;

pub const CLOCK_BOOTTIME: i32 = 7;

pub const CLOCK_TAI: i32 = 11;

/// Flag of `clock_nanosleep`: the time is absolute.
pub const TIMER_ABSTIME: u64 = 1;

pub const FUTEX_WAIT: i32 = 0;

pub const FUTEX_WAKE: i32 = 1;

pub const FUTEX_REQUEUE: i32 = 3;

pub const FUTEX_CMP_REQUEUE: i32 = 4;

pub const FUTEX_WAKE_OP: i32 = 5;

pub const FUTEX_WAIT_BITSET: i32 = 9;

pub const FUTEX_WAKE_BITSET: i32 = 10;

pub const FUTEX_PRIVATE_FLAG: u64 = 128;

pub const FUTEX_CLOCK_REALTIME: u64 = 256;

pub const POLLIN: i16 = 1;

pub const POLLPRI: i16 = 2;

pub const POLLOUT: i16 = 4;

pub const EINTR: i32 = 4;

pub const ECHILD: i32 = 10;

pub const EAGAIN: i32 = 11;

pub const EINVAL: i32 = 22;

pub const ENOSYS: i32 = 38;

pub const ETIMEDOUT: i32 = 110;

pub const SIGTRAP: i32 = 5;

pub const SIGKILL: i32 = 9;

pub const SIGSTOP: i32 = 19;

pub const PTRACE_EVENT_FORK: i32 = 1;

pub const PTRACE_EVENT_VFORK: i32 = 2;

pub const PTRACE_EVENT_CLONE: i32 = 3;

pub const PTRACE_EVENT_EXEC: i32 = 4;

pub const PTRACE_EVENT_EXIT: i32 = 6;

pub const PTRACE_EVENT_SECCOMP: i32 = 7;

pub const PTRACE_EVENT_STOP: i32 = 128;

/// General-purpose registers of a stopped thread.
#[derive(Debug, Clone, Copy, PartialEq, Eq, Structural)]
pub struct Regs {
    pub r15: u64,
    pub r14: u64,
    pub r13: u64,
    pub r12: u64,
    pub rbp: u64,
    pub rbx: u64,
    pub r11: u64,
    pub r10: u64,
    pub r9: u64,
    pub r8: u64,
    pub rax: u64,
    pub rcx: u64,
    pub rdx: u64,
    pub rsi: u64,
    pub rdi: u64,
    pub orig_rax: u64,
    pub rip: u64,
    pub cs: u64,
    pub eflags: u64,
    pub rsp: u64,
    pub ss: u64,
    pub fs_base: u64,
    pub gs_base: u64,
    pub ds: u64,
    pub es: u64,
    pub fs: u64,
    pub gs: u64,
}

/// Exit code carried by a `waitpid` status word.
pub open spec fn exit_status(status: i32) -> i32 {
    (status >> 8i32) & 0xff
}

/// What a `waitpid` status word says in its low byte.
pub open spec fn has_exited(status: i32) -> bool {
    status & 0x7f == 0
}

/// The low seven bits hold a signal number: neither zero (exited) nor all ones (stopped).
pub open spec fn was_signaled(status: i32) -> bool {
    status & 0x7f != 0 && status & 0x7f != 0x7f
}

pub open spec fn is_stopped(status: i32) -> bool {
    status & 0xff == 0x7f
}

/// One `waitpid` status word, taken apart.
#[derive(Debug, Clone, Copy, PartialEq, Eq, Structural)]
pub enum Status {
    /// The thread exited with this code.
    Exited(i32),
    /// This signal killed the thread.
    Signaled(i32),
    /// The thread stopped with this signal; the upper half of the word is the event number.
    Stopped { signal: i32, event: i32 },
    /// Neither: the thread was continued.
    Other,
}

/// Reading of a `waitpid` status word.
pub open spec fn status_spec(status: i32) -> Status {
    if has_exited(status) {
        Status::Exited(exit_status(status))
    } else if was_signaled(status) {
        Status::Signaled(status & 0x7f)
    } else if is_stopped(status) {
        Status::Stopped { signal: exit_status(status), event: status >> 16i32 }
    } else {
        Status::Other
    }
}

/// Take a `waitpid` status word apart.
pub fn decode_status(status: i32) -> (decoded: Status)
    ensures
        decoded == status_spec(status),
{
    let low = status & 0x7f;
    if low == 0 {
        Status::Exited((status >> 8i32) & 0xff)
    } else if low != 0x7f {
        Status::Signaled(low)
    } else if status & 0xff == 0x7f {
        Status::Stopped { signal: (status >> 8i32) & 0xff, event: status >> 16i32 }
    } else {
        Status::Other
    }
}

/// The status words that the kernel makes are read back: the code of an exit, the signal that
/// killed a thread, and the signal and the event of a stop.
pub proof fn status_words_are_read_back(code: i32, signal: i32, event: i32, core: bool)
    requires
        0 <= code < 256,
        0 < signal < 127,
        0 <= event < 0x8000,
    ensures
        status_spec(code << 8i32) == Status::Exited(code),
        status_spec(if core {
            signal | 0x80
        } else {
            signal
        }) == Status::Signaled(signal),
        status_spec((event << 16i32) | (code << 8i32) | 0x7f) == (Status::Stopped {
            signal: code,
            event,
        }),
{
    assert((code << 8i32) & 0x7f == 0 && ((code << 8i32) >> 8i32) & 0xff == code) by (bit_vector)
        requires
            0 <= code < 256,
    ;
    assert(signal & 0x7f == signal && (signal | 0x80) & 0x7f == signal) by (bit_vector)
        requires
            0 < signal < 127,
    ;
    let word: i32 = (event << 16i32) | (code << 8i32) | 0x7f;
    assert(word & 0x7f == 0x7f && word & 0xff == 0x7f && (word >> 8i32) & 0xff == code && word
        >> 16i32 == event) by (bit_vector)
        requires
            word == (event << 16i32) | (code << 8i32) | 0x7f,
            0 <= code < 256,
            0 <= event < 0x8000,
    ;
}

} // verus!
