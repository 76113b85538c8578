//! From the start of a program to the first stop of its own code.

use crate::linux::{PTRACE_EVENT_EXEC, PTRACE_EVENT_SECCOMP, PTRACE_EVENT_STOP};
use crate::scheduler::ptrace::WaitEvent;
use crate::scheduler::supervisor::SIGCONT;
use vstd::prelude::*;

verus! {

/// What a child that was told to go on has reported so far.
///
/// It reports the signal that told it so, and that it executes the program, in whatever order.
#[derive(Debug, Clone, Copy, PartialEq, Eq, Structural)]
pub struct Handshake {
    pub seen_exec: bool,
    pub seen_cont: bool,
}

/// Why a program did not start.
#[derive(Debug, Clone, Copy, PartialEq, Eq, Structural)]
pub enum SpawnError {
    /// The child exited with this code before it executed the program.
    ExitedEarly(i32),
    /// The program could not be executed. The child is to be killed.
    ExecFailed,
    /// The child reported something else.
    Unexpected(WaitEvent),
}

/// What is to be done with the child.
#[derive(Debug, Clone, Copy, PartialEq, Eq, Structural)]
pub enum Progress {
    /// Let it run to its next report.
    Resume,
    /// It stands at the first instruction of the program.
    Ready,
    /// Give up.
    Failed(SpawnError),
}

/// A report after which the child is attached.
pub open spec fn is_attached(event: WaitEvent) -> bool {
    event is GroupStop || event is Event
}

/// A child that was seized while it was stopped reports a stop.
pub fn attached(event: WaitEvent) -> (done: Result<(), SpawnError>)
    ensures
        done == if is_attached(event) {
            Ok::<(), SpawnError>(())
        } else {
            Err::<(), SpawnError>(SpawnError::Unexpected(event))
        },
{
    match event {
        WaitEvent::GroupStop { .. } => Ok(()),
        WaitEvent::Event { .. } => Ok(()),
        _ => Err(SpawnError::Unexpected(event)),
    }
}

/// The child was told to go on.
pub open spec fn is_continue(event: WaitEvent) -> bool {
    event matches WaitEvent::Signal { sig, .. } && sig == SIGCONT
}

/// The child executes the program.
pub open spec fn is_exec(event: WaitEvent) -> bool {
    event matches WaitEvent::Event { event: number, .. } && number == PTRACE_EVENT_EXEC
}

/// A stop that means nothing: a stopped child that goes on traps once more.
pub open spec fn is_idle_stop(event: WaitEvent) -> bool {
    event is GroupStop || (event matches WaitEvent::Event { event: number, .. } && number
        == PTRACE_EVENT_STOP)
}

/// The only traced call before the program is the exit of a child that could not execute it.
pub open spec fn is_early_call(event: WaitEvent) -> bool {
    event matches WaitEvent::Event { event: number, .. } && number == PTRACE_EVENT_SECCOMP
}

impl Handshake {
    /// Both reports have come.
    pub open spec fn is_done(self) -> bool {
        self.seen_exec && self.seen_cont
    }

    /// The reports after one more.
    pub open spec fn after(self, event: WaitEvent) -> Handshake {
        Handshake {
            seen_exec: self.seen_exec || is_exec(event),
            seen_cont: self.seen_cont || is_continue(event),
        }
    }

    /// What is to be done after one more report.
    pub open spec fn progress(self, event: WaitEvent) -> Progress {
        if is_continue(event) || is_exec(event) {
            if self.after(event).is_done() {
                Progress::Ready
            } else {
                Progress::Resume
            }
        } else if is_idle_stop(event) {
            Progress::Resume
        } else if event is Exited {
            Progress::Failed(SpawnError::ExitedEarly(event->Exited_code))
        } else if is_early_call(event) {
            Progress::Failed(SpawnError::ExecFailed)
        } else {
            Progress::Failed(SpawnError::Unexpected(event))
        }
    }

    /// A child that has reported nothing.
    pub fn new() -> (handshake: Handshake)
        ensures
            handshake == (Handshake { seen_exec: false, seen_cont: false }),
    {
        Handshake { seen_exec: false, seen_cont: false }
    }

    /// The child reports.
    pub fn on_event(&mut self, event: WaitEvent) -> (progress: Progress)
        ensures
            *final(self) == old(self).after(event),
            progress == old(self).progress(event),
    {
        match event {
            WaitEvent::Signal { sig, .. } => if sig == SIGCONT {
                self.seen_cont = true;
                if self.seen_exec {
                    Progress::Ready
                } else {
                    Progress::Resume
                }
            } else {
                Progress::Failed(SpawnError::Unexpected(event))
            },
            WaitEvent::Event { event: number, .. } => if number == PTRACE_EVENT_EXEC {
                self.seen_exec = true;
                if self.seen_cont {
                    Progress::Ready
                } else {
                    Progress::Resume
                }
            } else if number == PTRACE_EVENT_STOP {
                Progress::Resume
            } else if number == PTRACE_EVENT_SECCOMP {
                Progress::Failed(SpawnError::ExecFailed)
            } else {
                Progress::Failed(SpawnError::Unexpected(event))
            },
            WaitEvent::GroupStop { .. } => Progress::Resume,
            WaitEvent::Exited { code, .. } => Progress::Failed(SpawnError::ExitedEarly(code)),
            _ => Progress::Failed(SpawnError::Unexpected(event)),
        }
    }
}

/// A program is ready as soon as both reports have come, in whatever order, and not before.
pub proof fn both_reports_make_ready(cont: WaitEvent, exec: WaitEvent)
    requires
        is_continue(cont),
        is_exec(exec),
    ensures
        ({
            let fresh = Handshake { seen_exec: false, seen_cont: false };
            &&& fresh.progress(cont) == Progress::Resume
            &&& fresh.after(cont).progress(exec) == Progress::Ready
            &&& fresh.progress(exec) == Progress::Resume
            &&& fresh.after(exec).progress(cont) == Progress::Ready
            &&& fresh.after(cont).after(exec) == fresh.after(exec).after(cont)
        }),
{
}

/// Whatever comes in between, the child is ready exactly when the second of the two reports comes,
/// and a report never takes back another. An exit is a failure at any time.
pub proof fn reports_are_never_taken_back(handshake: Handshake, event: WaitEvent)
    ensures
        handshake.seen_exec ==> handshake.after(event).seen_exec,
        handshake.seen_cont ==> handshake.after(event).seen_cont,
        handshake.progress(event) == Progress::Ready ==> handshake.after(event).seen_exec
            && handshake.after(event).seen_cont,
        handshake.progress(event) == Progress::Ready ==> event is Signal || event is Event,
        event matches WaitEvent::Exited { code, .. } ==> handshake.progress(event)
            == Progress::Failed(SpawnError::ExitedEarly(code)),
        event is GroupStop ==> handshake.progress(event) == Progress::Resume && handshake.after(
            event,
        ) == handshake,
        event is Killed ==> handshake.progress(event) == Progress::Failed(
            SpawnError::Unexpected(event),
        ),
{
}

} // verus!
