//! Decoded wait results.

use vstd::prelude::*;

use crate::linux::{
    exit_status, has_exited, was_signaled, PTRACE_EVENT_STOP, SIGTRAP,
};

verus! {

/// One decoded wait result.
#[derive(Debug, Clone, Copy, PartialEq, Eq, Structural)]
pub enum WaitEvent {
    /// A ptrace event stop.
    Event { pid: i32, event: i32 },
    /// Syscall entry or exit stop.
    Syscall { pid: i32 },
    /// Signal-delivery stop.
    Signal { pid: i32, sig: i32 },
    /// Group-stop: the stop event with a stop signal.
    GroupStop { pid: i32, sig: i32 },
    Exited { pid: i32, code: i32 },
    Killed { pid: i32, sig: i32 },
}

/// Reading of the status word that `waitpid` reported for `pid`.
pub open spec fn wait_event(pid: i32, status: i32) -> WaitEvent {
    let sig = exit_status(status);
    let event = (status >> 16i32) & 0xff;
    if has_exited(status) {
        WaitEvent::Exited { pid, code: exit_status(status) }
    } else if was_signaled(status) {
        WaitEvent::Killed { pid, sig: status & 0x7f }
    } else if event != 0 {
        if event == PTRACE_EVENT_STOP && sig != SIGTRAP {
            WaitEvent::GroupStop { pid, sig }
        } else {
            WaitEvent::Event { pid, event }
        }
    } else if sig == SIGTRAP | 0x80i32 {
        WaitEvent::Syscall { pid }
    } else {
        WaitEvent::Signal { pid, sig }
    }
}

/// Take apart the status word that `waitpid` reported for `pid`.
pub fn decode(pid: i32, status: i32) -> (event: WaitEvent)
    ensures
        event == wait_event(pid, status),
{
    let low = status & 0x7f;
    let sig = (status >> 8i32) & 0xff;
    if low == 0 {
        return WaitEvent::Exited { pid, code: sig };
    }
    if low != 0x7f {
        return WaitEvent::Killed { pid, sig: low };
    }
    let event = (status >> 16i32) & 0xff;
    if event != 0 {
        if event == PTRACE_EVENT_STOP && sig != SIGTRAP {
            return WaitEvent::GroupStop { pid, sig };
        }
        return WaitEvent::Event { pid, event };
    }
    if sig == SIGTRAP | 0x80i32 {
        return WaitEvent::Syscall { pid };
    }
    WaitEvent::Signal { pid, sig }
}

/// The status words that the kernel makes are read back: exits, deaths, stops at an event, stops
/// of a group, stops at a syscall, and stops by a signal.
pub proof fn status_words_are_told_apart(pid: i32, code: i32, signal: i32, event: i32)
    requires
        0 <= code < 256,
        0 < signal < 127,
        0 < event < 256,
    ensures
        wait_event(pid, code << 8i32) == (WaitEvent::Exited { pid, code }),
        wait_event(pid, signal) == (WaitEvent::Killed { pid, sig: signal }),
        event != PTRACE_EVENT_STOP || signal == SIGTRAP ==> wait_event(
            pid,
            (event << 16i32) | (signal << 8i32) | 0x7f,
        ) == (WaitEvent::Event { pid, event }),
        event == PTRACE_EVENT_STOP && signal != SIGTRAP ==> wait_event(
            pid,
            (event << 16i32) | (signal << 8i32) | 0x7f,
        ) == (WaitEvent::GroupStop { pid, sig: signal }),
        wait_event(pid, ((SIGTRAP | 0x80i32) << 8i32) | 0x7f) == (WaitEvent::Syscall { pid }),
        wait_event(pid, (signal << 8i32) | 0x7f) == (WaitEvent::Signal { pid, sig: signal }),
{
    assert((code << 8i32) & 0x7f == 0 && ((code << 8i32) >> 8i32) & 0xff == code) by (bit_vector)
        requires
            0 <= code < 256,
    ;
    assert(signal & 0x7f == signal) by (bit_vector)
        requires
            0 < signal < 127,
    ;
    let word: i32 = (event << 16i32) | (signal << 8i32) | 0x7f;
    assert(word & 0x7f == 0x7f && (word >> 8i32) & 0xff == signal && (word >> 16i32) & 0xff
        == event) by (bit_vector)
        requires
            word == (event << 16i32) | (signal << 8i32) | 0x7f,
            0 < signal < 127,
            0 < event < 256,
    ;
    let plain: i32 = (signal << 8i32) | 0x7f;
    assert(plain & 0x7f == 0x7f && (plain >> 8i32) & 0xff == signal && (plain >> 16i32) & 0xff == 0)
        by (bit_vector)
        requires
            plain == (signal << 8i32) | 0x7f,
            0 < signal < 127,
    ;
    assert(5i32 | 0x80i32 == 0x85i32) by (bit_vector);
    let call: i32 = ((5i32 | 0x80i32) << 8i32) | 0x7f;
    assert(call & 0x7f == 0x7f && (call >> 8i32) & 0xff == 0x85 && (call >> 16i32) & 0xff == 0)
        by (bit_vector)
        requires
            call == ((5i32 | 0x80i32) << 8i32) | 0x7f,
    ;
}

} // verus!
