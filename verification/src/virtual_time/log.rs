//! The log of a supervised run, one line for each event.

use crate::text::{decimal_text, push_decimal, push_signed, signed_text};
use crate::virtual_time::sandbox::Event;
use crate::virtual_time::waits::WaitKind;
use vstd::prelude::*;
use vstd::string::StringExecFns;

verus! {

/// The name of a truth value.
pub open spec fn flag_text(flag: bool) -> Seq<char> {
    if flag {
        "true"@
    } else {
        "false"@
    }
}

fn push_flag(out: &mut String, flag: bool)
    ensures
        final(out)@ == old(out)@ + flag_text(flag),
{
    if flag {
        out.append("true");
    } else {
        out.append("false");
    }
}

/// The name of a kind of wait.
pub open spec fn wait_text(kind: WaitKind) -> Seq<char> {
    match kind {
        WaitKind::Sleep => "Sleep"@,
        WaitKind::Futex => "Futex"@,
        WaitKind::Poll => "Poll"@,
    }
}

/// What happened, and its details.
pub open spec fn event_text(event: Event) -> Seq<char> {
    match event {
        Event::Exited(code) => "exit Exited("@ + signed_text(code as int) + ")"@,
        Event::Signaled(signal) => "exit Signaled("@ + signed_text(signal as int) + ")"@,
        Event::Exec { vdso_hidden } => "exec vdso_hidden="@ + flag_text(vdso_hidden),
        Event::Clone { index } => "clone "@ + decimal_text(index as nat),
        Event::Signal(signal) => "signal "@ + signed_text(signal as int),
        Event::FutexWake(command) => "futex_wake "@ + decimal_text(command as nat),
        Event::GetRandom(len) => "getrandom "@ + decimal_text(len as nat),
        Event::TimerfdSettimeNative(fd) => "timerfd_settime_native "@ + decimal_text(fd as nat),
        Event::Announce(len) => "announce "@ + decimal_text(len as nat),
        Event::Sleep(deadline) => "sleep "@ + decimal_text(deadline as nat),
        Event::Probe { nr, result, block } => "probe nr="@ + signed_text(nr as int) + " result="@
            + signed_text(result as int) + " block="@ + flag_text(block),
        Event::Restart(nr) => "restart "@ + signed_text(nr as int),
        Event::Timeout(kind) => "timeout "@ + wait_text(kind),
        Event::Ready(count) => "ready "@ + decimal_text(count as nat),
        Event::Deadlock(count) => "deadlock "@ + decimal_text(count as nat),
        Event::Jump { kind, magnitude, target } => "jump kind="@ + decimal_text(kind as nat)
            + " mag="@ + decimal_text(magnitude as nat) + " -> "@ + decimal_text(target as nat),
    }
}

/// A line of the log: the thread, the virtual time, what happened.
pub open spec fn event_line_text(index: usize, now: u64, event: Event) -> Seq<char> {
    "t"@ + decimal_text(index as nat) + " @"@ + decimal_text(now as nat) + " "@ + event_text(event)
}

fn push_counted(out: &mut String, name: &str, count: u64)
    ensures
        final(out)@ == old(out)@ + (name@ + decimal_text(count as nat)),
{
    out.append(name);
    push_decimal(out, count);
    assert(out@ =~= old(out)@ + (name@ + decimal_text(count as nat)));
}

fn push_named(out: &mut String, name: &str, number: i64, end: &str)
    ensures
        final(out)@ == old(out)@ + (name@ + signed_text(number as int) + end@),
{
    out.append(name);
    push_signed(out, number);
    out.append(end);
    assert(out@ =~= old(out)@ + (name@ + signed_text(number as int) + end@));
}

fn push_event(out: &mut String, event: Event)
    ensures
        final(out)@ == old(out)@ + event_text(event),
{
    proof {
        reveal_strlit("");
    }
    match event {
        Event::Exited(code) => push_named(out, "exit Exited(", code as i64, ")"),
        Event::Signaled(signal) => push_named(out, "exit Signaled(", signal as i64, ")"),
        Event::Exec { vdso_hidden } => {
            out.append("exec vdso_hidden=");
            push_flag(out, vdso_hidden);
        },
        Event::Clone { index } => push_counted(out, "clone ", index as u64),
        Event::Signal(signal) => push_named(out, "signal ", signal as i64, ""),
        Event::FutexWake(command) => push_counted(out, "futex_wake ", command),
        Event::GetRandom(len) => push_counted(out, "getrandom ", len as u64),
        Event::TimerfdSettimeNative(fd) => push_counted(out, "timerfd_settime_native ", fd),
        Event::Announce(len) => push_counted(out, "announce ", len),
        Event::Sleep(deadline) => push_counted(out, "sleep ", deadline),
        Event::Probe { nr, result, block } => {
            push_named(out, "probe nr=", nr, " result=");
            push_named(out, "", result, " block=");
            push_flag(out, block);
        },
        Event::Restart(nr) => push_named(out, "restart ", nr, ""),
        Event::Timeout(kind) => {
            out.append("timeout ");
            match kind {
                WaitKind::Sleep => out.append("Sleep"),
                WaitKind::Futex => out.append("Futex"),
                WaitKind::Poll => out.append("Poll"),
            }
        },
        Event::Ready(count) => push_counted(out, "ready ", count as u64),
        Event::Deadlock(count) => push_counted(out, "deadlock ", count as u64),
        Event::Jump { kind, magnitude, target } => {
            push_counted(out, "jump kind=", kind as u64);
            push_counted(out, " mag=", magnitude as u64);
            push_counted(out, " -> ", target);
        },
    }
    assert(out@ =~= old(out)@ + event_text(event));
}

/// The line that an event adds to the log.
pub fn event_line(index: usize, now: u64, event: Event) -> (line: String)
    ensures
        line@ == event_line_text(index, now, event),
{
    let mut line = "t".to_owned();
    push_decimal(&mut line, index as u64);
    line.append(" @");
    push_decimal(&mut line, now);
    line.append(" ");
    push_event(&mut line, event);
    assert(line@ =~= event_line_text(index, now, event));
    line
}

} // verus!
