//! Which thread runs next, and what its stops do to the others.
//!
//! [`Run`] holds the schedule; the caller resumes and stops threads, reads their registers and
//! memory, and hands over what it saw.

use vstd::prelude::*;

use super::ptrace::WaitEvent;
use super::shm::MARKER_MAGIC;
use crate::linux::{
    Regs, EAGAIN, PTRACE_EVENT_CLONE, PTRACE_EVENT_EXEC, PTRACE_EVENT_EXIT, PTRACE_EVENT_SECCOMP,
    PTRACE_EVENT_STOP, SIGSTOP, SYS_CLOCK_NANOSLEEP, SYS_CLONE, SYS_CLONE3, SYS_EXIT, SYS_EXIT_GROUP,
    SYS_FUTEX, SYS_GETPPID, SYS_GETRANDOM, SYS_NANOSLEEP, SYS_POLL, SYS_SCHED_YIELD,
};

verus! {

/// Number of edge budgets to choose from.
pub const BUDGET_COUNT: usize = 22;

/// Edge budgets selectable at a scheduling point; index 0 = no preemption.
pub open spec fn budget_spec(index: int) -> u32 {
    let table: Seq<u32> = seq![
        0, 1, 2, 3, 4, 6, 8, 12, 16, 24, 32, 48, 64, 96, 128, 192, 256, 384, 512, 1024, 2048, 4096,
    ];
    table[index]
}

pub fn budget(index: usize) -> (edges: u32)
    requires
        index < BUDGET_COUNT,
    ensures
        edges == budget_spec(index as int),
{
    let table: Vec<u32> = vec![
        0, 1, 2, 3, 4, 6, 8, 12, 16, 24, 32, 48, 64, 96, 128, 192, 256, 384, 512, 1024, 2048, 4096,
    ];
    table[index]
}

/// No more random bytes than this are answered at once.
pub const MAX_RANDOM_BYTES: u64 = 4096;

pub const FUTEX_WAIT: u64 = 0;

pub const FUTEX_WAKE: u64 = 1;

pub const FUTEX_WAIT_BITSET: u64 = 9;

pub const FUTEX_WAKE_BITSET: u64 = 10;

/// Futex command bits: everything but the private and the clock flag.
pub const FUTEX_CMD_MASK: u64 = 0xFFFF_FFFF_FFFF_FE7F;

pub const SIGCONT: i32 = 18;

#[derive(Debug, Clone, Copy, PartialEq, Eq, Hash, Structural)]
pub enum PointKind {
    Start,
    Clone,
    ThreadStart,
    FutexWait,
    FutexNoWait,
    FutexWake,
    FutexWoken,
    FutexTimeout,
    Yield,
    Sleep,
    Getrandom,
    Preempt,
    Exit,
    Signal(i32),
}

/// One entry of the schedule trace: thread `thread` ran `edges` instrumented edges and then
/// stopped at `kind`.
#[derive(Debug, Clone, Copy, PartialEq, Eq, Hash, Structural)]
pub struct TraceEvent {
    pub thread: usize,
    pub kind: PointKind,
    pub edges: u64,
}

#[derive(Debug, Clone, Copy, PartialEq, Eq, Structural)]
pub struct Decision {
    /// Index into the candidate list (`0` = keep running the current / lowest-index thread).
    pub pick: usize,
    /// Index into the budget table (`0` = run to the next syscall).
    pub budget: usize,
}

/// Source of scheduling decisions.
pub trait Scheduler {
    /// What may be decided: anything, unless a scheduler says what.
    open spec fn may_decide(&self, candidates: usize, decision: Decision) -> bool {
        true
    }

    /// `candidates` is the number of runnable threads (>= 2); the current thread, if runnable, is
    /// candidate 0, the rest follow in creation order.
    fn decide(&mut self, candidates: usize) -> (decision: Decision)
        ensures
            old(self).may_decide(candidates, decision),
    ;

    /// Bytes to answer a `getrandom(len)` with.
    fn random_bytes(&mut self, len: usize) -> Vec<u8>;
}

/// Always run the current/lowest-index thread to its next syscall.
pub struct FifoScheduler;

impl Scheduler for FifoScheduler {
    open spec fn may_decide(&self, candidates: usize, decision: Decision) -> bool {
        decision == (Decision { pick: 0, budget: 0 })
    }

    fn decide(&mut self, _candidates: usize) -> (decision: Decision) {
        Decision { pick: 0, budget: 0 }
    }

    fn random_bytes(&mut self, len: usize) -> (bytes: Vec<u8>)
        ensures
            bytes@ == Seq::new(len as nat, |i: int| 0x42u8),
    {
        let mut bytes: Vec<u8> = Vec::new();
        let mut i: usize = 0;
        while i < len
            invariant
                i <= len,
                bytes@ == Seq::new(i as nat, |k: int| 0x42u8),
            decreases len - i,
        {
            bytes.push(0x42);
            i += 1;
            assert(bytes@ =~= Seq::new(i as nat, |k: int| 0x42u8));
        }
        bytes
    }
}

#[derive(Debug, PartialEq, Eq)]
pub enum Outcome {
    Exited(i32),
    Signaled(i32),
    /// No thread runnable, no running thread, emulated futex waiters remain.
    Deadlock { waiting_threads: Vec<usize> },
    /// The running thread did not stop within the watchdog timeout.
    Timeout,
}

impl Outcome {
    pub fn is_ok(&self) -> (ok: bool)
        ensures
            ok == (*self == Outcome::Exited(0)),
    {
        match self {
            Outcome::Exited(code) => *code == 0,
            _ => false,
        }
    }
}

#[derive(Debug, Clone, Copy, PartialEq, Eq, Structural)]
pub enum State {
    /// Created by the parent's clone but its initial stop has not been seen yet.
    Starting,
    /// In a stop, ready to be resumed.
    Stopped,
    Running,
    /// Emulated futex wait (syscall skipped, result already set to 0).
    FutexWait { addr: u64, val: u32, bitset: u32, timed: bool, seq: u64 },
    /// Passed its exit event, waiting for the kernel to reap it.
    Exiting,
    Exited,
}

#[derive(Debug, Clone, Copy, PartialEq, Eq, Structural)]
pub struct Thread {
    pub tid: i32,
    pub state: State,
    /// Signal to deliver on the next resume.
    pub pending_signal: i32,
}

/// Something the schedule does not control.
#[derive(Debug, Clone, Copy, PartialEq, Eq, Structural)]
pub enum Uncontrolled {
    /// An event of no known kind on a thread.
    Event { event: i32, pid: i32 },
    /// A syscall that was passed through.
    Syscall { nr: i64, thread: usize },
    /// A futex operation that was passed through.
    Futex { op: u64, thread: usize },
}

/// The schedule of one run.
#[derive(Debug)]
pub struct Run {
    pub leader: i32,
    /// Every thread seen, in creation order.
    pub threads: Vec<Thread>,
    pub current: Option<usize>,
    pub last_ran: Option<usize>,
    pub trace: Vec<TraceEvent>,
    pub decisions: Vec<Decision>,
    pub stops: usize,
    pub edges_at_last_event: u64,
    pub futex_seq: u64,
    pub uncontrolled: Vec<Uncontrolled>,
    /// Initial stops of threads whose clone event has not been processed yet.
    pub orphan_stops: Vec<i32>,
    pub outcome: Option<Outcome>,
}

pub open spec fn seq_of(state: State) -> Option<u64> {
    match state {
        State::FutexWait { seq, .. } => Some(seq),
        _ => None,
    }
}

/// Place of a thread in the order of waits; `None` where it does not wait.
pub open spec fn wait_seq(t: Thread) -> Option<u64> {
    seq_of(t.state)
}

/// Position of the first thread with this id.
pub open spec fn index_of(threads: Seq<Thread>, tid: i32) -> Option<usize>
    decreases threads.len(),
{
    if threads.len() == 0 {
        None
    } else {
        match index_of(threads.drop_last(), tid) {
            Some(i) => Some(i),
            None => if threads.last().tid == tid {
                Some((threads.len() - 1) as usize)
            } else {
                None
            },
        }
    }
}

/// Positions below `n` of the threads that can be resumed, in creation order.
pub open spec fn stopped_below(threads: Seq<Thread>, n: int) -> Seq<usize>
    decreases n,
{
    if n <= 0 {
        Seq::empty()
    } else if threads[n - 1].state == State::Stopped {
        stopped_below(threads, n - 1).push((n - 1) as usize)
    } else {
        stopped_below(threads, n - 1)
    }
}

/// Positions below `n` of the runnable threads other than `last`.
pub open spec fn others_below(threads: Seq<Thread>, last: Option<usize>, n: int) -> Seq<usize>
    decreases n,
{
    if n <= 0 {
        Seq::empty()
    } else if threads[n - 1].state == State::Stopped && last != Some((n - 1) as usize) {
        others_below(threads, last, n - 1).push((n - 1) as usize)
    } else {
        others_below(threads, last, n - 1)
    }
}

pub open spec fn is_runnable(threads: Seq<Thread>, i: int) -> bool {
    0 <= i < threads.len() && threads[i].state == State::Stopped
}

/// The threads to choose from: the one that ran last, if it can run, then the rest in creation
/// order.
pub open spec fn candidates_spec(threads: Seq<Thread>, last: Option<usize>) -> Seq<usize> {
    let head = match last {
        Some(l) => if is_runnable(threads, l as int) {
            seq![l]
        } else {
            Seq::empty()
        },
        None => Seq::empty(),
    };
    head + others_below(threads, last, threads.len() as int)
}

/// Positions below `n` of the threads in an emulated futex wait.
pub open spec fn waiters_below(threads: Seq<Thread>, n: int) -> Seq<usize>
    decreases n,
{
    if n <= 0 {
        Seq::empty()
    } else if threads[n - 1].state is FutexWait {
        waiters_below(threads, n - 1).push((n - 1) as usize)
    } else {
        waiters_below(threads, n - 1)
    }
}

/// A decision, held within its two tables.
pub open spec fn clamped(d: Decision, candidates: int) -> Decision {
    Decision {
        pick: if d.pick < candidates {
            d.pick
        } else {
            (candidates - 1) as usize
        },
        budget: if d.budget < BUDGET_COUNT {
            d.budget
        } else {
            (BUDGET_COUNT - 1) as usize
        },
    }
}

/// What the caller does to let a thread run.
#[derive(Debug, Clone, Copy, PartialEq, Eq, Structural)]
pub struct Grant {
    pub tid: i32,
    /// Signal to deliver, zero for none.
    pub signal: i32,
    /// Edges until the thread is preempted, zero for no limit.
    pub budget: u32,
}

/// The schedule after thread `index` has been resumed.
pub open spec fn resumed(pre: Run, post: Run, index: int) -> bool {
    &&& post == (Run {
        threads: post.threads,
        current: Some(index as usize),
        last_ran: Some(index as usize),
        ..pre
    })
    &&& post.threads@ == pre.threads@.update(
        index,
        Thread { state: State::Running, pending_signal: 0, ..pre.threads@[index] },
    )
}

/// The schedule after decision `d` on `candidates`; where there is no choice, none is recorded.
pub open spec fn decided(pre: Run, post: Run, candidates: Seq<usize>, d: Decision, grant: Grant) ->
    bool {
    let held = if candidates.len() >= 2 {
        clamped(d, candidates.len() as int)
    } else {
        Decision { pick: 0, budget: 0 }
    };
    let index = candidates[held.pick as int] as int;
    &&& resumed(Run { decisions: post.decisions, ..pre }, post, index)
    &&& post.decisions@ == if candidates.len() >= 2 {
        pre.decisions@.push(held)
    } else {
        pre.decisions@
    }
    &&& grant == (Grant {
        tid: pre.threads@[index].tid,
        signal: pre.threads@[index].pending_signal,
        budget: budget_spec(held.budget as int),
    })
}

/// The schedule after a decision on its candidates. The scheduler is asked only if there are two of
/// them.
pub open spec fn decided_somehow<S: Scheduler>(
    pre: Run,
    post: Run,
    sched: S,
    grant: Grant,
) -> bool {
    let candidates = candidates_spec(pre.threads@, pre.last_ran);
    exists|d: Decision|
        {
            &&& #[trigger] decided(pre, post, candidates, d, grant)
            &&& if candidates.len() >= 2 {
                sched.may_decide(candidates.len() as usize, d)
            } else {
                d == (Decision { pick: 0, budget: 0 })
            }
        }
}

/// One more entry of the trace.
pub open spec fn entry(pre: Run, thread: usize, kind: PointKind, edges_now: u64) -> TraceEvent {
    TraceEvent { thread, kind, edges: (edges_now - pre.edges_at_last_event) as u64 }
}

impl Run {
    /// At most one thread runs, and it is the current one. Every emulated wait has its own place
    /// in the order of waits.
    pub open spec fn wf(self) -> bool {
        &&& forall|i: int|
            0 <= i < self.threads@.len() && (#[trigger] self.threads@[i]).state == State::Running
                ==> self.current == Some(i as usize)
        &&& forall|i: int|
            0 <= i < self.threads@.len() ==> (wait_seq(#[trigger] self.threads@[i]) matches Some(s)
                ==> 1 <= s <= self.futex_seq)
        &&& forall|i: int, j: int|
            0 <= i < j < self.threads@.len() && wait_seq(#[trigger] self.threads@[i]) is Some
                ==> wait_seq(self.threads@[i]) != wait_seq(#[trigger] self.threads@[j])
    }

    /// No counter overflows while one event is handled, and the edge counter has not gone back.
    pub open spec fn ready(self, edges_now: u64) -> bool {
        &&& self.edges_at_last_event <= edges_now
        &&& self.futex_seq < u64::MAX
        &&& self.stops < usize::MAX
    }

    /// A run whose only thread, the leader, is stopped before its first instruction.
    pub fn new(leader: i32) -> (run: Self)
        ensures
            run.wf(),
            run.leader == leader,
            run.threads@ == seq![Thread { tid: leader, state: State::Stopped, pending_signal: 0 }],
            run.current is None,
            run.last_ran is None,
            run.trace@.len() == 0,
            run.decisions@.len() == 0,
            run.stops == 0,
            run.edges_at_last_event == 0,
            run.futex_seq == 0,
            run.uncontrolled@.len() == 0,
            run.orphan_stops@.len() == 0,
            run.outcome is None,
    {
        let mut threads: Vec<Thread> = Vec::new();
        threads.push(Thread { tid: leader, state: State::Stopped, pending_signal: 0 });
        assert(threads@ =~= seq![
            Thread { tid: leader, state: State::Stopped, pending_signal: 0 },
        ]);
        Self {
            leader,
            threads,
            current: None,
            last_ran: None,
            trace: Vec::new(),
            decisions: Vec::new(),
            stops: 0,
            edges_at_last_event: 0,
            futex_seq: 0,
            uncontrolled: Vec::new(),
            orphan_stops: Vec::new(),
            outcome: None,
        }
    }

    /// Position of the first thread with this id.
    pub fn thread_index(&self, tid: i32) -> (index: Option<usize>)
        ensures
            index == index_of(self.threads@, tid),
            index matches Some(i) ==> i < self.threads@.len() && self.threads@[i as int].tid == tid,
    {
        let mut i: usize = 0;
        assert(self.threads@.take(0) =~= Seq::<Thread>::empty());
        while i < self.threads.len()
            invariant
                i <= self.threads@.len(),
                index_of(self.threads@.take(i as int), tid) is None,
            decreases self.threads@.len() - i,
        {
            assert(self.threads@.take(i + 1).drop_last() =~= self.threads@.take(i as int));
            if self.threads[i].tid == tid {
                proof {
                    lemma_index_stays(self.threads@, tid, i + 1);
                }
                return Some(i);
            }
            i += 1;
        }
        assert(self.threads@.take(self.threads@.len() as int) =~= self.threads@);
        None
    }

    /// Append one entry to the trace.
    fn record(&mut self, thread: usize, kind: PointKind, edges_now: u64)
        requires
            old(self).edges_at_last_event <= edges_now,
        ensures
            *final(self) == (Run {
                trace: final(self).trace,
                edges_at_last_event: edges_now,
                ..*old(self)
            }),
            final(self).trace@ == old(self).trace@.push(
                entry(*old(self), thread, kind, edges_now),
            ),
    {
        let edges = edges_now - self.edges_at_last_event;
        self.edges_at_last_event = edges_now;
        self.trace.push(TraceEvent { thread, kind, edges });
    }

    /// Positions of the threads that can be resumed, in creation order.
    pub fn runnable(&self) -> (runnable: Vec<usize>)
        ensures
            runnable@ == stopped_below(self.threads@, self.threads@.len() as int),
    {
        let mut out: Vec<usize> = Vec::new();
        let mut i: usize = 0;
        while i < self.threads.len()
            invariant
                i <= self.threads@.len(),
                out@ == stopped_below(self.threads@, i as int),
            decreases self.threads@.len() - i,
        {
            if self.threads[i].state == State::Stopped {
                out.push(i);
            }
            i += 1;
        }
        out
    }

    /// The threads to choose from at this scheduling point.
    pub fn candidates(&self) -> (candidates: Vec<usize>)
        ensures
            candidates@ == candidates_spec(self.threads@, self.last_ran),
            forall|k: int|
                0 <= k < candidates@.len() ==> is_runnable(
                    self.threads@,
                    #[trigger] candidates@[k] as int,
                ),
    {
        let mut out: Vec<usize> = Vec::new();
        if let Some(last) = self.last_ran {
            if last < self.threads.len() && self.threads[last].state == State::Stopped {
                out.push(last);
            }
        }
        let ghost head = out@;
        let mut i: usize = 0;
        assert(out@ =~= head + others_below(self.threads@, self.last_ran, 0));
        while i < self.threads.len()
            invariant
                i <= self.threads@.len(),
                out@ == head + others_below(self.threads@, self.last_ran, i as int),
                forall|k: int|
                    0 <= k < out@.len() ==> is_runnable(self.threads@, #[trigger] out@[k] as int),
            decreases self.threads@.len() - i,
        {
            let last = match self.last_ran {
                Some(l) => l == i,
                None => false,
            };
            if self.threads[i].state == State::Stopped && !last {
                out.push(i);
                assert(out@ =~= head + others_below(self.threads@, self.last_ran, i + 1));
            }
            i += 1;
        }
        assert(out@ =~= candidates_spec(self.threads@, self.last_ran));
        out
    }

    /// Whether a thread is still on its way to a stop or to its end.
    pub fn busy(&self) -> (busy: bool)
        ensures
            busy == self.is_busy(),
    {
        let mut i: usize = 0;
        while i < self.threads.len()
            invariant
                i <= self.threads@.len(),
                forall|k: int|
                    0 <= k < i ==> {
                        let state = (#[trigger] self.threads@[k]).state;
                        !(state is Running || state is Exiting || state is Starting)
                    },
            decreases self.threads@.len() - i,
        {
            match self.threads[i].state {
                State::Running | State::Exiting | State::Starting => {
                    assert(self.threads@[i as int].state is Running
                        || self.threads@[i as int].state is Exiting
                        || self.threads@[i as int].state is Starting);
                    return true;
                },
                _ => {},
            }
            i += 1;
        }
        false
    }

    /// Carry out decision `drawn` on `candidates`: resume the chosen thread.
    pub fn grant(&mut self, candidates: &Vec<usize>, drawn: Decision) -> (grant: Grant)
        requires
            old(self).wf(),
            old(self).current is None,
            candidates@.len() > 0,
            candidates@ == candidates_spec(old(self).threads@, old(self).last_ran),
        ensures
            final(self).wf(),
            decided(*old(self), *final(self), candidates@, drawn, grant),
    {
        let count: usize = self.threads.len();
        proof {
            assert(count == self.threads@.len());
            lemma_candidates_runnable(self.threads@, self.last_ran);
        }
        let n: usize = candidates.len();
        let held = if n >= 2 {
            let held = Decision {
                pick: if drawn.pick < n {
                    drawn.pick
                } else {
                    n - 1
                },
                budget: if drawn.budget < BUDGET_COUNT {
                    drawn.budget
                } else {
                    BUDGET_COUNT - 1
                },
            };
            self.decisions.push(held);
            held
        } else {
            Decision { pick: 0, budget: 0 }
        };
        let index: usize = candidates[held.pick];
        assert(is_runnable(self.threads@, index as int));
        let edges = budget(held.budget);
        let thread = self.threads[index];
        self.threads.set(
            index,
            Thread { tid: thread.tid, state: State::Running, pending_signal: 0 },
        );
        self.current = Some(index);
        self.last_ran = Some(index);
        Grant { tid: thread.tid, signal: thread.pending_signal, budget: edges }
    }

    /// Choose and resume the next thread. `None` when no thread can run.
    pub fn schedule<S: Scheduler>(&mut self, sched: &mut S) -> (grant: Option<Grant>)
        requires
            old(self).wf(),
            old(self).current is None,
        ensures
            final(self).wf(),
            grant is None <==> candidates_spec(old(self).threads@, old(self).last_ran).len() == 0,
            grant is None ==> *final(self) == *old(self),
            grant is Some ==> decided_somehow(
                *old(self),
                *final(self),
                *old(sched),
                grant.unwrap(),
            ),
    {
        let candidates = self.candidates();
        if candidates.len() == 0 {
            return None;
        }
        let drawn = if candidates.len() >= 2 {
            sched.decide(candidates.len())
        } else {
            Decision { pick: 0, budget: 0 }
        };
        let ghost pre = *self;
        let granted = self.grant(&candidates, drawn);
        assert(decided(pre, *self, candidates@, drawn, granted));
        assert(decided_somehow(*old(self), *self, *old(sched), granted));
        Some(granted)
    }
}

proof fn lemma_index_stays(threads: Seq<Thread>, tid: i32, n: int)
    requires
        0 <= n <= threads.len(),
        index_of(threads.take(n), tid) is Some,
    ensures
        index_of(threads, tid) == index_of(threads.take(n), tid),
    decreases threads.len() - n,
{
    if n == threads.len() {
        assert(threads.take(n) =~= threads);
    } else {
        assert(threads.take(n + 1).drop_last() =~= threads.take(n));
        lemma_index_stays(threads, tid, n + 1);
    }
}

proof fn lemma_others(threads: Seq<Thread>, last: Option<usize>, n: int)
    requires
        0 <= n <= threads.len() <= usize::MAX,
    ensures
        forall|k: int|
            0 <= k < others_below(threads, last, n).len() ==> {
                let i = #[trigger] others_below(threads, last, n)[k];
                i < n && is_runnable(threads, i as int) && last != Some(i)
            },
        forall|a: int, b: int|
            0 <= a < b < others_below(threads, last, n).len() ==> others_below(threads, last, n)[a]
                < others_below(threads, last, n)[b],
        forall|i: usize|
            #![trigger others_below(threads, last, n).contains(i)]
            i < n && is_runnable(threads, i as int) && last != Some(i) ==> others_below(
                threads,
                last,
                n,
            ).contains(i),
    decreases n,
{
    if n > 0 {
        lemma_others(threads, last, n - 1);
        let shorter = others_below(threads, last, n - 1);
        let all = others_below(threads, last, n);
        assert forall|i: usize|
            i < n && is_runnable(threads, i as int) && last != Some(i) implies all.contains(i) by {
            if i < n - 1 {
                assert(shorter.contains(i));
                let k = choose|k: int| 0 <= k < shorter.len() && shorter[k] == i;
                assert(all[k] == i);
            } else {
                assert(all[shorter.len() as int] == i);
            }
        }
    }
}

proof fn lemma_candidates_runnable(threads: Seq<Thread>, last: Option<usize>)
    requires
        threads.len() <= usize::MAX,
    ensures
        forall|k: int|
            0 <= k < candidates_spec(threads, last).len() ==> is_runnable(
                threads,
                #[trigger] candidates_spec(threads, last)[k] as int,
            ),
{
    lemma_others(threads, last, threads.len() as int);
}

/// The candidates are exactly the threads that can run, each of them once.
pub proof fn candidates_are_the_runnable_threads(threads: Seq<Thread>, last: Option<usize>)
    requires
        threads.len() <= usize::MAX,
    ensures
        forall|i: usize| #[trigger]
            candidates_spec(threads, last).contains(i) == is_runnable(threads, i as int),
        candidates_spec(threads, last).no_duplicates(),
{
    lemma_others(threads, last, threads.len() as int);
    let all = candidates_spec(threads, last);
    let others = others_below(threads, last, threads.len() as int);
    assert forall|i: usize| is_runnable(threads, i as int) implies #[trigger] all.contains(i) by {
        if last == Some(i) {
            assert(all[0] == i);
        } else {
            assert(others.contains(i));
            let k = choose|k: int| 0 <= k < others.len() && others[k] == i;
            assert(all[all.len() - others.len() + k] == i);
        }
    }
    assert forall|i: usize| #[trigger] all.contains(i) implies is_runnable(threads, i as int) by {
        let k = choose|k: int| 0 <= k < all.len() && all[k] == i;
        if k >= all.len() - others.len() {
            assert(all[k] == others[k - (all.len() - others.len())]);
        }
    }
}

/// Decision zero keeps the thread that ran last if it can run, and otherwise takes the one that was
/// created first.
pub proof fn zero_keeps_running(threads: Seq<Thread>, last: Option<usize>)
    requires
        threads.len() <= usize::MAX,
        candidates_spec(threads, last).len() > 0,
    ensures
        ({
            let first = candidates_spec(threads, last)[0];
            if last is Some && is_runnable(threads, last.unwrap() as int) {
                last == Some(first)
            } else {
                forall|i: usize| is_runnable(threads, i as int) ==> first <= i
            }
        }),
{
    lemma_others(threads, last, threads.len() as int);
    let others = others_below(threads, last, threads.len() as int);
    if !(last is Some && is_runnable(threads, last.unwrap() as int)) {
        assert forall|i: usize| is_runnable(threads, i as int) implies candidates_spec(
            threads,
            last,
        )[0] <= i by {
            assert(others.contains(i));
            let k = choose|k: int| 0 <= k < others.len() && others[k] == i;
            assert(candidates_spec(threads, last)[0] == others[0]);
            if k > 0 {
                assert(others[0] < others[k]);
            }
        }
    }
}

/// A waiter whose futex word no longer holds the value it waited on. `words` holds, for each
/// thread, the word it waits on.
pub open spec fn word_changed(t: Thread, word: u32) -> bool {
    match t.state {
        State::FutexWait { val, .. } => word != val,
        _ => false,
    }
}

/// The threads after every waiter whose word changed has been woken.
pub open spec fn after_recheck(threads: Seq<Thread>, words: Seq<u32>) -> Seq<Thread> {
    threads.map(
        |i: int, t: Thread|
            if word_changed(t, words[i]) {
                Thread { state: State::Stopped, ..t }
            } else {
                t
            },
    )
}

/// Trace entries of waking the first `n` threads whose word changed; `edges` ran since the last
/// entry, and none between these.
pub open spec fn recheck_trace(threads: Seq<Thread>, words: Seq<u32>, edges: u64, n: int) -> Seq<
    TraceEvent,
>
    decreases n,
{
    if n <= 0 {
        Seq::empty()
    } else {
        let before = recheck_trace(threads, words, edges, n - 1);
        if word_changed(threads[n - 1], words[n - 1]) {
            before.push(
                TraceEvent {
                    thread: (n - 1) as usize,
                    kind: PointKind::FutexWoken,
                    edges: if before.len() == 0 {
                        edges
                    } else {
                        0
                    },
                },
            )
        } else {
            before
        }
    }
}

/// What looking again at every futex word does.
pub open spec fn rechecked(pre: Run, post: Run, words: Seq<u32>, edges_now: u64) -> bool {
    let woken = recheck_trace(
        pre.threads@,
        words,
        (edges_now - pre.edges_at_last_event) as u64,
        pre.threads@.len() as int,
    );
    &&& post == (Run {
        threads: post.threads,
        trace: post.trace,
        edges_at_last_event: if woken.len() == 0 {
            pre.edges_at_last_event
        } else {
            edges_now
        },
        ..pre
    })
    &&& post.threads@ == after_recheck(pre.threads@, words)
    &&& post.trace@ == pre.trace@ + woken
}

/// The timed waiter that has waited longest.
pub open spec fn is_first_timed(threads: Seq<Thread>, i: int) -> bool {
    &&& 0 <= i < threads.len()
    &&& threads[i].state matches State::FutexWait { timed, .. } && timed
    &&& forall|j: int|
        0 <= j < threads.len() && (#[trigger] threads[j].state matches State::FutexWait {
            timed,
            ..
        } && timed) ==> wait_seq(threads[i]).unwrap() <= wait_seq(threads[j]).unwrap()
}

pub open spec fn none_timed(threads: Seq<Thread>) -> bool {
    forall|j: int|
        0 <= j < threads.len() ==> !((#[trigger] threads[j]).state matches State::FutexWait {
            timed,
            ..
        } && timed)
}

/// What comes of a moment when no thread can run and none is running.
#[derive(Debug, PartialEq, Eq)]
pub enum Idle {
    /// No thread waits either: the leader's end has not been seen yet.
    AwaitEvent,
    /// A futex word had changed: its waiters can run.
    Woken,
    /// This timed wait expired; its result is a timeout.
    TimedOut { thread: usize, tid: i32 },
    /// Nothing can ever run again.
    Deadlock { waiting_threads: Vec<usize> },
}

/// What is done when no thread can run and none is running.
pub open spec fn idled(pre: Run, post: Run, words: Seq<u32>, edges_now: u64, idle: Idle) -> bool {
    let threads = pre.threads@;
    let waiting = waiters_below(threads, threads.len() as int);
    let changed = exists|i: int|
        0 <= i < words.len() && word_changed(#[trigger] threads[i], words[i]);
    match idle {
        Idle::AwaitEvent => waiting.len() == 0 && post == pre,
        Idle::Woken => waiting.len() > 0 && changed && rechecked(pre, post, words, edges_now),
        Idle::TimedOut { thread, tid } => {
            &&& waiting.len() > 0 && !changed
            &&& is_first_timed(threads, thread as int)
            &&& tid == threads[thread as int].tid
            &&& post == (Run {
                threads: post.threads,
                trace: post.trace,
                edges_at_last_event: edges_now,
                ..pre
            })
            &&& post.threads@ == threads.update(
                thread as int,
                Thread { state: State::Stopped, ..threads[thread as int] },
            )
            &&& post.trace@ == pre.trace@.push(
                entry(pre, thread, PointKind::FutexTimeout, edges_now),
            )
        },
        Idle::Deadlock { waiting_threads } => {
            &&& waiting.len() > 0 && !changed
            &&& none_timed(threads)
            &&& waiting_threads@ == waiting
            &&& post == pre
        },
    }
}

impl Run {
    /// The kernel clears the id word of an exiting thread (and a wake that was passed through may
    /// change others) without a wake that could be seen: wake every waiter whose word no longer
    /// matches. Says whether any was.
    pub fn recheck_futex_words(&mut self, words: &Vec<u32>, edges_now: u64) -> (woke: bool)
        requires
            old(self).wf(),
            old(self).edges_at_last_event <= edges_now,
            words@.len() == old(self).threads@.len(),
        ensures
            final(self).wf(),
            rechecked(*old(self), *final(self), words@, edges_now),
            woke == exists|i: int|
                0 <= i < words@.len() && word_changed(#[trigger] old(self).threads@[i], words@[i]),
            !woke ==> *final(self) == *old(self),
    {
        let ghost before = self.threads@;
        let ghost edges = (edges_now - self.edges_at_last_event) as u64;
        let mut woke = false;
        let mut i: usize = 0;
        assert(self.trace@ =~= old(self).trace@ + recheck_trace(before, words@, edges, 0));
        while i < self.threads.len()
            invariant
                before == old(self).threads@,
                i <= self.threads@.len() == before.len() == words@.len(),
                old(self).wf(),
                old(self).edges_at_last_event <= edges_now,
                edges == edges_now - old(self).edges_at_last_event,
                *self == (Run {
                    threads: self.threads,
                    trace: self.trace,
                    edges_at_last_event: if woke {
                        edges_now
                    } else {
                        old(self).edges_at_last_event
                    },
                    ..*old(self)
                }),
                !woke ==> *self == *old(self),
                woke == (recheck_trace(before, words@, edges, i as int).len() > 0),
                woke == exists|k: int|
                    0 <= k < i && word_changed(#[trigger] before[k], words@[k]),
                forall|k: int|
                    0 <= k < i ==> #[trigger] self.threads@[k] == if word_changed(
                        before[k],
                        words@[k],
                    ) {
                        Thread { state: State::Stopped, ..before[k] }
                    } else {
                        before[k]
                    },
                forall|k: int| i <= k < before.len() ==> #[trigger] self.threads@[k] == before[k],
                self.trace@ == old(self).trace@ + recheck_trace(before, words@, edges, i as int),
            decreases before.len() - i,
        {
            assert(self.threads@[i as int] == before[i as int]);
            if let State::FutexWait { val, .. } = self.threads[i].state {
                if words[i] != val {
                    let t = self.threads[i];
                    self.threads.set(
                        i,
                        Thread {
                            tid: t.tid,
                            state: State::Stopped,
                            pending_signal: t.pending_signal,
                        },
                    );
                    self.record(i, PointKind::FutexWoken, edges_now);
                    woke = true;
                    assert(word_changed(before[i as int], words@[i as int]));
                    assert(self.trace@ =~= old(self).trace@ + recheck_trace(
                        before,
                        words@,
                        edges,
                        i + 1,
                    ));
                }
            }
            i += 1;
        }
        assert(self.threads@ =~= after_recheck(before, words@));
        woke
    }

    /// Positions of the threads in an emulated wait, in creation order.
    pub fn waiters(&self) -> (waiters: Vec<usize>)
        ensures
            waiters@ == waiters_below(self.threads@, self.threads@.len() as int),
    {
        let mut out: Vec<usize> = Vec::new();
        let mut i: usize = 0;
        while i < self.threads.len()
            invariant
                i <= self.threads@.len(),
                out@ == waiters_below(self.threads@, i as int),
            decreases self.threads@.len() - i,
        {
            if let State::FutexWait { .. } = self.threads[i].state {
                out.push(i);
            }
            i += 1;
        }
        out
    }

    fn first_timed(&self) -> (first: Option<usize>)
        ensures
            match first {
                Some(i) => is_first_timed(self.threads@, i as int),
                None => none_timed(self.threads@),
            },
    {
        let mut best: Option<(u64, usize)> = None;
        let mut i: usize = 0;
        while i < self.threads.len()
            invariant
                i <= self.threads@.len(),
                match best {
                    Some((seq, b)) => b < i && is_first_timed(self.threads@.take(i as int), b as int)
                        && wait_seq(self.threads@[b as int]) == Some(seq),
                    None => none_timed(self.threads@.take(i as int)),
                },
            decreases self.threads@.len() - i,
        {
            let ghost head = self.threads@.take(i as int);
            let ghost grown = self.threads@.take(i + 1);
            assert(forall|k: int| 0 <= k < i ==> #[trigger] grown[k] == head[k]);
            assert(forall|k: int| 0 <= k < i ==> grown[k] == #[trigger] head[k]);
            assert(grown[i as int] == self.threads@[i as int]);
            if let State::FutexWait { timed, seq, .. } = self.threads[i].state {
                if timed {
                    best = match best {
                        Some((s, b)) => if seq < s {
                            Some((seq, i))
                        } else {
                            Some((s, b))
                        },
                        None => Some((seq, i)),
                    };
                }
            }
            i += 1;
        }
        assert(self.threads@.take(self.threads@.len() as int) =~= self.threads@);
        match best {
            Some((_, b)) => Some(b),
            None => None,
        }
    }

    /// Nothing runnable and nothing running: look again at the futex words, let the oldest timed
    /// wait expire, or declare a deadlock. Virtual time passes only here: a timed wait expires only
    /// when nothing else can make progress.
    pub fn handle_idle(&mut self, words: &Vec<u32>, edges_now: u64) -> (idle: Idle)
        requires
            old(self).wf(),
            old(self).edges_at_last_event <= edges_now,
            words@.len() == old(self).threads@.len(),
        ensures
            final(self).wf(),
            idled(*old(self), *final(self), words@, edges_now, idle),
    {
        let waiters = self.waiters();
        if waiters.len() == 0 {
            return Idle::AwaitEvent;
        }
        if self.recheck_futex_words(words, edges_now) {
            return Idle::Woken;
        }
        match self.first_timed() {
            Some(i) => {
                let t = self.threads[i];
                self.threads.set(
                    i,
                    Thread {
                        tid: t.tid,
                        state: State::Stopped,
                        pending_signal: t.pending_signal,
                    },
                );
                self.record(i, PointKind::FutexTimeout, edges_now);
                Idle::TimedOut { thread: i, tid: t.tid }
            },
            None => Idle::Deadlock { waiting_threads: waiters },
        }
    }
}

/// A waiter on futex word `addr` that a wake with this bit mask concerns.
pub open spec fn matches_wake(t: Thread, addr: u64, mask: u32) -> bool {
    match t.state {
        State::FutexWait { addr: a, bitset, .. } => a == addr && bitset & mask != 0,
        _ => false,
    }
}

/// Thread `i` is the longest waiting one that a wake concerns, among those that began to wait after
/// `after`.
pub open spec fn is_next_woken(
    threads: Seq<Thread>,
    addr: u64,
    mask: u32,
    after: u64,
    i: int,
) -> bool {
    &&& 0 <= i < threads.len()
    &&& matches_wake(threads[i], addr, mask)
    &&& wait_seq(threads[i]).unwrap() > after
    &&& forall|j: int|
        0 <= j < threads.len() && matches_wake(#[trigger] threads[j], addr, mask) && wait_seq(
            threads[j],
        ).unwrap() > after ==> wait_seq(threads[i]).unwrap() <= wait_seq(threads[j]).unwrap()
}

/// Seat of thread `i` in the order of waits.
pub open spec fn seat(threads: Seq<Thread>, i: usize) -> u64 {
    wait_seq(threads[i as int]).unwrap()
}

/// The list `woken` is what a wake of up to `max` waiters wakes, first come, first served: they
/// are in the order in which they began to wait, whoever is left out began to wait later than
/// everyone in the list, and someone is left out only when the wake had no more to give.
pub open spec fn is_wake_order(
    threads: Seq<Thread>,
    addr: u64,
    mask: u32,
    max: int,
    woken: Seq<usize>,
) -> bool {
    &&& woken.len() <= max
    &&& forall|k: int|
        0 <= k < woken.len() ==> (#[trigger] woken[k]) < threads.len() && matches_wake(
            threads[woken[k] as int],
            addr,
            mask,
        )
    &&& forall|a: int, b: int|
        0 <= a < b < woken.len() ==> seat(threads, #[trigger] woken[a]) < seat(
            threads,
            #[trigger] woken[b],
        )
    &&& forall|j: usize|
        j < threads.len() && matches_wake(#[trigger] threads[j as int], addr, mask)
            && !woken.contains(j) ==> woken.len() == max && forall|k: int|
            0 <= k < woken.len() ==> seat(threads, #[trigger] woken[k]) < seat(threads, j)
}

/// The threads after those in `woken` have been woken.
pub open spec fn after_wake(threads: Seq<Thread>, woken: Seq<usize>) -> Seq<Thread> {
    threads.map(
        |i: int, t: Thread|
            if woken.contains(i as usize) {
                Thread { state: State::Stopped, ..t }
            } else {
                t
            },
    )
}

/// Trace entries of a wake.
pub open spec fn wake_trace(woken: Seq<usize>) -> Seq<TraceEvent> {
    woken.map_values(
        |i: usize| TraceEvent { thread: i, kind: PointKind::FutexWoken, edges: 0 },
    )
}

/// What the caller does after a traced syscall.
#[derive(Debug)]
pub enum Step {
    /// Let the syscall run.
    Resume,
    /// Leave the thread stopped, its syscall skipped: set these registers.
    Skip { regs: Regs },
    /// Store these bytes at the address, then skip the syscall with these registers.
    Fill { addr: u64, bytes: Vec<u8>, regs: Regs },
}

pub open spec fn skip_regs(regs: Regs, value: i64) -> Regs {
    Regs { orig_rax: u64::MAX, rax: value as u64, ..regs }
}

/// Registers with which a thread skips its syscall and sees `value`.
pub fn skip_syscall(regs: Regs, value: i64) -> (next: Regs)
    ensures
        next == skip_regs(regs, value),
{
    Regs { orig_rax: u64::MAX, rax: value as u64, ..regs }
}

/// The schedule after thread `index` stopped for good at a scheduling point in state `state`.
pub open spec fn stopped_at(
    pre: Run,
    post: Run,
    index: usize,
    state: State,
    kind: PointKind,
    edges_now: u64,
) -> bool {
    &&& post == (Run {
        threads: post.threads,
        current: None,
        trace: post.trace,
        edges_at_last_event: edges_now,
        futex_seq: post.futex_seq,
        ..pre
    })
    &&& post.threads@ == pre.threads@.update(
        index as int,
        Thread { state, ..pre.threads@[index as int] },
    )
    &&& post.trace@ == pre.trace@.push(entry(pre, index, kind, edges_now))
}

pub open spec fn futex_cmd(regs: Regs) -> u64 {
    regs.rsi & FUTEX_CMD_MASK
}

/// Address of the word that must be read before a syscall stop can be handled.
pub open spec fn wanted_word_spec(regs: Regs) -> Option<u64> {
    if regs.orig_rax as i64 == SYS_FUTEX && (futex_cmd(regs) == FUTEX_WAIT || futex_cmd(regs)
        == FUTEX_WAIT_BITSET) {
        Some(regs.rdi)
    } else {
        None
    }
}

pub fn wanted_word(regs: Regs) -> (addr: Option<u64>)
    ensures
        addr == wanted_word_spec(regs),
{
    let cmd = regs.rsi & FUTEX_CMD_MASK;
    if regs.orig_rax as i64 == SYS_FUTEX && (cmd == FUTEX_WAIT || cmd == FUTEX_WAIT_BITSET) {
        Some(regs.rdi)
    } else {
        None
    }
}

/// What an emulated futex wake does.
pub open spec fn woke(
    pre: Run,
    post: Run,
    index: usize,
    regs: Regs,
    mask: u32,
    edges_now: u64,
    step: Step,
) -> bool {
    exists|woken: Seq<usize>|
        {
            &&& #[trigger] is_wake_order(pre.threads@, regs.rdi, mask, regs.rdx as u32 as int, woken)
            &&& post == (Run {
                threads: post.threads,
                current: None,
                trace: post.trace,
                edges_at_last_event: edges_now,
                ..pre
            })
            &&& post.threads@ == after_wake(
                pre.threads@.update(
                    index as int,
                    Thread { state: State::Stopped, ..pre.threads@[index as int] },
                ),
                woken,
            )
            &&& post.trace@ == pre.trace@.push(entry(pre, index, PointKind::FutexWake, edges_now))
                + wake_trace(woken)
            &&& step == (Step::Skip { regs: skip_regs(regs, woken.len() as i64) })
        }
}

/// What an emulated futex wait or wake does. `word` is the futex word's value.
pub open spec fn futex_handled(
    pre: Run,
    post: Run,
    index: usize,
    regs: Regs,
    word: u32,
    edges_now: u64,
    step: Step,
) -> bool {
    let cmd = futex_cmd(regs);
    let val = regs.rdx as u32;
    let val3 = regs.r9 as u32;
    if cmd == FUTEX_WAIT || cmd == FUTEX_WAIT_BITSET {
        if word != val {
            &&& stopped_at(pre, post, index, State::Stopped, PointKind::FutexNoWait, edges_now)
            &&& post.futex_seq == pre.futex_seq
            &&& step == (Step::Skip { regs: skip_regs(regs, -EAGAIN as i64) })
        } else {
            let state = State::FutexWait {
                addr: regs.rdi,
                val,
                bitset: if cmd == FUTEX_WAIT_BITSET {
                    val3
                } else {
                    u32::MAX
                },
                timed: regs.r10 != 0,
                seq: (pre.futex_seq + 1) as u64,
            };
            &&& stopped_at(pre, post, index, state, PointKind::FutexWait, edges_now)
            &&& post.futex_seq == pre.futex_seq + 1
            &&& step == (Step::Skip { regs: skip_regs(regs, 0) })
        }
    } else if cmd == FUTEX_WAKE || cmd == FUTEX_WAKE_BITSET {
        let mask = if cmd == FUTEX_WAKE_BITSET {
            val3
        } else {
            u32::MAX
        };
        woke(pre, post, index, regs, mask, edges_now, step)
    } else {
        &&& post == (Run { uncontrolled: post.uncontrolled, ..pre })
        &&& post.uncontrolled@ == pre.uncontrolled@.push(
            Uncontrolled::Futex { op: cmd, thread: index },
        )
        &&& step == Step::Resume
    }
}

impl Run {
    /// Stop thread `index` at a scheduling point.
    fn stop_at(&mut self, index: usize, state: State, kind: PointKind, edges_now: u64)
        requires
            old(self).wf(),
            index < old(self).threads@.len(),
            old(self).current is None || old(self).current == Some(index),
            old(self).edges_at_last_event <= edges_now,
            state != State::Running,
            seq_of(state) matches Some(s) ==> 1 <= s
                <= old(self).futex_seq && forall|i: int|
                0 <= i < old(self).threads@.len() ==> wait_seq(#[trigger] old(self).threads@[i])
                    != Some(s),
        ensures
            final(self).wf(),
            stopped_at(*old(self), *final(self), index, state, kind, edges_now),
            final(self).futex_seq == old(self).futex_seq,
    {
        let t = self.threads[index];
        let count: usize = self.threads.len();
        self.threads.set(
            index,
            Thread { tid: t.tid, state, pending_signal: t.pending_signal },
        );
        self.current = None;
        self.record(index, kind, edges_now);
        proof {
            let before = old(self).threads@;
            assert forall|i: int| 0 <= i < before.len() implies (
            #[trigger] self.threads@[i]).state != State::Running by {
                if i != index {
                    assert(self.threads@[i] == before[i]);
                    assert(i as usize as int == i) by {
                        assert(i < count);
                    }
                }
            }
            assert forall|i: int, j: int|
                0 <= i < j < self.threads@.len() && wait_seq(#[trigger] self.threads@[i]) is Some
                implies wait_seq(self.threads@[i]) != wait_seq(#[trigger] self.threads@[j]) by {
                if i != index {
                    assert(self.threads@[i] == before[i]);
                }
                if j != index {
                    assert(self.threads@[j] == before[j]);
                }
            }
        }
    }

    /// The next waiter that a wake concerns, of those that began to wait after `after`.
    fn next_woken(&self, addr: u64, mask: u32, after: u64) -> (next: Option<usize>)
        ensures
            match next {
                Some(i) => is_next_woken(self.threads@, addr, mask, after, i as int),
                None => forall|j: int|
                    0 <= j < self.threads@.len() && matches_wake(
                        #[trigger] self.threads@[j],
                        addr,
                        mask,
                    ) ==> wait_seq(self.threads@[j]).unwrap() <= after,
            },
    {
        let mut best: Option<(u64, usize)> = None;
        let mut i: usize = 0;
        while i < self.threads.len()
            invariant
                i <= self.threads@.len(),
                match best {
                    Some((seq, b)) => b < i && is_next_woken(
                        self.threads@.take(i as int),
                        addr,
                        mask,
                        after,
                        b as int,
                    ) && wait_seq(self.threads@[b as int]) == Some(seq),
                    None => forall|j: int|
                        0 <= j < i && matches_wake(#[trigger] self.threads@[j], addr, mask)
                            ==> wait_seq(self.threads@[j]).unwrap() <= after,
                },
            decreases self.threads@.len() - i,
        {
            let ghost head = self.threads@.take(i as int);
            let ghost grown = self.threads@.take(i + 1);
            assert(forall|k: int| 0 <= k < i ==> #[trigger] grown[k] == head[k]);
            assert(forall|k: int| 0 <= k < i ==> grown[k] == #[trigger] head[k]);
            assert(grown[i as int] == self.threads@[i as int]);
            if let State::FutexWait { addr: a, bitset, seq, .. } = self.threads[i].state {
                if a == addr && bitset & mask != 0 && seq > after {
                    best = match best {
                        Some((s, b)) => if seq < s {
                            Some((seq, i))
                        } else {
                            Some((s, b))
                        },
                        None => Some((seq, i)),
                    };
                }
            }
            i += 1;
        }
        assert(self.threads@.take(self.threads@.len() as int) =~= self.threads@);
        match best {
            Some((_, b)) => Some(b),
            None => None,
        }
    }

    /// The waiters that a wake of up to `max` wakes, the longest waiting first.
    fn wake_order(&self, addr: u64, mask: u32, max: u32) -> (woken: Vec<usize>)
        requires
            self.wf(),
        ensures
            is_wake_order(self.threads@, addr, mask, max as int, woken@),
            woken@.len() <= max,
    {
        let mut woken: Vec<usize> = Vec::new();
        let mut after: u64 = 0;
        let mut left: u32 = max;
        let ghost threads = self.threads@;
        let count: usize = self.threads.len();
        while left > 0
            invariant_except_break
                woken@.len() == max - left,
            invariant
                self.wf(),
                threads == self.threads@,
                threads.len() == count,
                left <= max,
                woken@.len() <= max,
                forall|k: int|
                    0 <= k < woken@.len() ==> (#[trigger] woken@[k]) < threads.len()
                        && matches_wake(threads[woken@[k] as int], addr, mask) && seat(
                        threads,
                        woken@[k],
                    ) <= after,
                forall|a: int, b: int|
                    0 <= a < b < woken@.len() ==> seat(threads, #[trigger] woken@[a]) < seat(
                        threads,
                        #[trigger] woken@[b],
                    ),
                forall|j: usize|
                    j < threads.len() && matches_wake(#[trigger] threads[j as int], addr, mask)
                        && seat(threads, j) <= after ==> woken@.contains(j),
            ensures
                woken@.len() == max || forall|j: usize|
                    j < threads.len() && matches_wake(#[trigger] threads[j as int], addr, mask)
                        ==> woken@.contains(j),
            decreases left,
        {
            let ghost before = woken@;
            match self.next_woken(addr, mask, after) {
                Some(i) => {
                    let ghost floor = after;
                    if let State::FutexWait { seq, .. } = self.threads[i].state {
                        after = seq;
                    }
                    woken.push(i);
                    left -= 1;
                    proof {
                        assert(seat(threads, i) == after);
                        assert forall|j: usize|
                            j < threads.len() && matches_wake(
                                #[trigger] threads[j as int],
                                addr,
                                mask,
                            ) && seat(threads, j) <= after implies woken@.contains(j) by {
                            if seat(threads, j) <= floor {
                                assert(before.contains(j));
                                let k = choose|k: int| 0 <= k < before.len() && before[k] == j;
                                assert(woken@[k] == j);
                            } else {
                                if i < j {
                                    assert(wait_seq(threads[i as int]) != wait_seq(
                                        threads[j as int],
                                    ));
                                } else if j < i {
                                    assert(wait_seq(threads[j as int]) != wait_seq(
                                        threads[i as int],
                                    ));
                                }
                                assert(woken@[before.len() as int] == j);
                            }
                        }
                    }
                },
                None => {
                    break;
                },
            }
        }
        woken
    }

    /// Wake the threads in `woken`, in order.
    fn wake_all(&mut self, woken: &Vec<usize>, edges_now: u64)
        requires
            old(self).wf(),
            old(self).edges_at_last_event == edges_now,
            forall|k: int|
                0 <= k < woken@.len() ==> (#[trigger] woken@[k]) < old(self).threads@.len() && old(
                    self,
                ).threads@[woken@[k] as int].state != State::Running,
        ensures
            final(self).wf(),
            *final(self) == (Run {
                threads: final(self).threads,
                trace: final(self).trace,
                ..*old(self)
            }),
            final(self).threads@ == after_wake(old(self).threads@, woken@),
            final(self).trace@ == old(self).trace@ + wake_trace(woken@),
    {
        let ghost before = self.threads@;
        let count: usize = self.threads.len();
        let mut k: usize = 0;
        assert(self.trace@ =~= old(self).trace@ + wake_trace(woken@.take(0)));
        assert(self.threads@ =~= after_wake(before, woken@.take(0)));
        while k < woken.len()
            invariant
                before == old(self).threads@,
                count == before.len(),
                k <= woken@.len(),
                old(self).wf(),
                old(self).edges_at_last_event == edges_now,
                forall|j: int|
                    0 <= j < woken@.len() ==> (#[trigger] woken@[j]) < before.len()
                        && before[woken@[j] as int].state != State::Running,
                *self == (Run { threads: self.threads, trace: self.trace, ..*old(self) }),
                self.threads@ == after_wake(before, woken@.take(k as int)),
                self.trace@ == old(self).trace@ + wake_trace(woken@.take(k as int)),
            decreases woken@.len() - k,
        {
            let i: usize = woken[k];
            assert(woken@[k as int] < before.len());
            let t = self.threads[i];
            self.threads.set(
                i,
                Thread {
                    tid: t.tid,
                    state: State::Stopped,
                    pending_signal: t.pending_signal,
                },
            );
            self.record(i, PointKind::FutexWoken, edges_now);
            proof {
                let now = woken@.take(k as int);
                let next = woken@.take(k + 1);
                assert(next =~= now.push(i));
                assert forall|x: usize| next.contains(x) == (now.contains(x) || x == i) by {
                    if now.contains(x) {
                        let a = choose|a: int| 0 <= a < now.len() && now[a] == x;
                        assert(next[a] == x);
                    }
                    if x == i {
                        assert(next[k as int] == x);
                    }
                }
                assert forall|x: int| 0 <= x < before.len() implies self.threads@[x] == after_wake(
                    before,
                    next,
                )[x] by {
                    assert((x as usize) as int == x);
                }
                assert(self.threads@ =~= after_wake(before, next));
                assert(self.trace@ =~= old(self).trace@ + wake_trace(next));
            }
            k += 1;
        }
        assert(woken@.take(woken@.len() as int) =~= woken@);
        proof {
            assert forall|i: int|
                0 <= i < self.threads@.len() && (#[trigger] self.threads@[i]).state
                    == State::Running implies self.current == Some(i as usize) by {
                assert(before[i].state == State::Running);
            }
        }
    }

    /// Emulate a futex call of thread `index`. `word` is the futex word's value.
    pub fn handle_futex(&mut self, index: usize, regs: Regs, word: u32, edges_now: u64) -> (step:
        Step)
        requires
            old(self).wf(),
            old(self).ready(edges_now),
            index < old(self).threads@.len(),
            old(self).threads@[index as int].state == State::Running,
        ensures
            final(self).wf(),
            futex_handled(*old(self), *final(self), index, regs, word, edges_now, step),
    {
        let cmd = regs.rsi & FUTEX_CMD_MASK;
        let val = regs.rdx as u32;
        let val3 = regs.r9 as u32;
        if cmd == FUTEX_WAIT || cmd == FUTEX_WAIT_BITSET {
            if word != val {
                self.stop_at(index, State::Stopped, PointKind::FutexNoWait, edges_now);
                return Step::Skip { regs: skip_syscall(regs, -(EAGAIN as i64)) };
            }
            let bitset = if cmd == FUTEX_WAIT_BITSET {
                val3
            } else {
                u32::MAX
            };
            self.futex_seq = self.futex_seq + 1;
            let state = State::FutexWait {
                addr: regs.rdi,
                val,
                bitset,
                timed: regs.r10 != 0,
                seq: self.futex_seq,
            };
            self.stop_at(index, state, PointKind::FutexWait, edges_now);
            return Step::Skip { regs: skip_syscall(regs, 0) };
        }
        if cmd == FUTEX_WAKE || cmd == FUTEX_WAKE_BITSET {
            let mask = if cmd == FUTEX_WAKE_BITSET {
                val3
            } else {
                u32::MAX
            };
            let woken = self.wake_order(regs.rdi, mask, val);
            let ghost pre = *self;
            let count = woken.len() as i64;
            self.stop_at(index, State::Stopped, PointKind::FutexWake, edges_now);
            proof {
                assert forall|k: int| 0 <= k < woken@.len() implies (#[trigger] woken@[k])
                    < self.threads@.len() && self.threads@[woken@[k] as int].state
                    != State::Running by {
                    assert(matches_wake(pre.threads@[woken@[k] as int], regs.rdi, mask));
                }
            }
            self.wake_all(&woken, edges_now);
            assert(is_wake_order(pre.threads@, regs.rdi, mask, val as int, woken@));
            return Step::Skip { regs: skip_syscall(regs, count) };
        }
        self.uncontrolled.push(Uncontrolled::Futex { op: cmd, thread: index });
        Step::Resume
    }
}

/// What the caller does next.
#[derive(Debug, PartialEq, Eq)]
pub enum Turn {
    /// The run is over.
    Finished(Outcome),
    /// Schedule a thread ([`Run::schedule`]).
    Schedule,
    /// Wait for an event and hand it to [`Run::handle_event`].
    Await,
}

/// What the caller does about an event.
#[derive(Debug, Clone, Copy, PartialEq, Eq, Structural)]
pub enum Handling {
    /// Nothing.
    Nothing,
    /// Resume the thread, delivering `signal` unless it is zero.
    Resume { pid: i32, signal: i32 },
    /// Read the registers and hand them to [`Run::handle_seccomp`].
    Seccomp { index: usize },
    /// Ask which thread is new and hand it to [`Run::on_clone`].
    Clone { parent: usize },
    /// Resume the exiting thread. If it must be reaped, wait for its end and hand it to
    /// [`Run::on_reaped`].
    Exit { index: usize, pid: i32, reap: bool },
    /// A thread other than the leader is gone: look again at the futex words.
    Recheck,
    /// The leader is gone and the run with it.
    Finished,
    /// An event of a thread that is not known.
    Unknown { pid: i32 },
}

/// Signals that a thread brings on itself; it stops for good.
pub open spec fn is_crash(sig: i32) -> bool {
    sig == 11 || sig == 7 || sig == 4 || sig == 8 || sig == 6 || sig == 5 || sig == 31
}

pub open spec fn with_state(threads: Seq<Thread>, i: int, state: State) -> Seq<Thread> {
    threads.update(i, Thread { state, ..threads[i] })
}

/// No longer current, if it was.
pub open spec fn without_current(current: Option<usize>, index: usize) -> Option<usize> {
    if current == Some(index) {
        None
    } else {
        current
    }
}

/// What an event does to the schedule.
pub open spec fn event_handled(
    pre: Run,
    post: Run,
    event: WaitEvent,
    edges_now: u64,
    handling: Handling,
) -> bool {
    match event {
        WaitEvent::Event { pid, event } => {
            let known = index_of(pre.threads@, pid);
            if event == PTRACE_EVENT_SECCOMP {
                post == pre && handling == match known {
                    Some(index) => Handling::Seccomp { index },
                    None => Handling::Unknown { pid },
                }
            } else if event == PTRACE_EVENT_CLONE {
                post == pre && handling == match known {
                    Some(parent) => Handling::Clone { parent },
                    None => Handling::Unknown { pid },
                }
            } else if event == PTRACE_EVENT_EXIT {
                match known {
                    None => post == pre && handling == (Handling::Resume { pid, signal: 0 }),
                    Some(index) => {
                        let was_current = pre.current == Some(index);
                        &&& handling == (Handling::Exit { index, pid, reap: pid != pre.leader })
                        &&& post == (Run {
                            threads: post.threads,
                            current: without_current(pre.current, index),
                            trace: post.trace,
                            edges_at_last_event: if was_current {
                                edges_now
                            } else {
                                pre.edges_at_last_event
                            },
                            ..pre
                        })
                        &&& post.threads@ == with_state(pre.threads@, index as int, State::Exiting)
                        &&& post.trace@ == if was_current {
                            pre.trace@.push(entry(pre, index, PointKind::Exit, edges_now))
                        } else {
                            pre.trace@
                        }
                    },
                }
            } else if event == PTRACE_EVENT_STOP {
                &&& handling == Handling::Nothing
                &&& match known {
                    Some(index) => {
                        let state = pre.threads@[index as int].state;
                        if state == State::Starting || state == State::Running {
                            &&& post == (Run {
                                threads: post.threads,
                                current: without_current(pre.current, index),
                                ..pre
                            })
                            &&& post.threads@ == with_state(
                                pre.threads@,
                                index as int,
                                State::Stopped,
                            )
                        } else {
                            post == pre
                        }
                    },
                    None => {
                        &&& post == (Run { orphan_stops: post.orphan_stops, ..pre })
                        &&& post.orphan_stops@ == pre.orphan_stops@.push(pid)
                    },
                }
            } else if event == PTRACE_EVENT_EXEC {
                post == pre && handling == (Handling::Resume { pid, signal: 0 })
            } else {
                &&& post == (Run { uncontrolled: post.uncontrolled, ..pre })
                &&& post.uncontrolled@ == pre.uncontrolled@.push(Uncontrolled::Event { event, pid })
                &&& handling == (Handling::Resume { pid, signal: 0 })
            }
        },
        WaitEvent::Syscall { pid } => post == pre && handling == (Handling::Resume {
            pid,
            signal: 0,
        }),
        WaitEvent::GroupStop { pid, .. } => post == pre && handling == (Handling::Resume {
            pid,
            signal: 0,
        }),
        WaitEvent::Signal { pid, sig } => match index_of(pre.threads@, pid) {
            None => post == pre && handling == (Handling::Resume { pid, signal: sig }),
            Some(index) => if is_crash(sig) {
                &&& handling == Handling::Nothing
                &&& post == (Run {
                    threads: post.threads,
                    current: without_current(pre.current, index),
                    trace: post.trace,
                    edges_at_last_event: edges_now,
                    ..pre
                })
                &&& post.threads@ == pre.threads@.update(
                    index as int,
                    Thread {
                        state: State::Stopped,
                        pending_signal: sig,
                        ..pre.threads@[index as int]
                    },
                )
                &&& post.trace@ == pre.trace@.push(
                    entry(pre, index, PointKind::Signal(sig), edges_now),
                )
            } else {
                post == pre && handling == (Handling::Resume {
                    pid,
                    signal: if sig == SIGCONT || sig == SIGSTOP {
                        0
                    } else {
                        sig
                    },
                })
            },
        },
        WaitEvent::Exited { pid, code } => thread_gone(
            pre,
            post,
            pid,
            Outcome::Exited(code),
            handling,
        ),
        WaitEvent::Killed { pid, sig } => thread_gone(
            pre,
            post,
            pid,
            Outcome::Signaled(sig),
            handling,
        ),
    }
}

/// What the end of a thread does: the leader takes the whole run with it.
pub open spec fn thread_gone(pre: Run, post: Run, pid: i32, outcome: Outcome, handling: Handling) ->
    bool {
    if pid == pre.leader {
        &&& post == (Run { threads: post.threads, outcome: Some(outcome), ..pre })
        &&& post.threads@ == pre.threads@.map_values(
            |t: Thread| Thread { state: State::Exited, ..t },
        )
        &&& handling == Handling::Finished
    } else {
        match index_of(pre.threads@, pid) {
            Some(index) => {
                &&& post == (Run {
                    threads: post.threads,
                    current: without_current(pre.current, index),
                    ..pre
                })
                &&& post.threads@ == with_state(pre.threads@, index as int, State::Exited)
                &&& handling == Handling::Recheck
            },
            None => post == pre && handling == Handling::Nothing,
        }
    }
}

/// The schedule after thread `parent` created a thread.
pub open spec fn cloned(pre: Run, post: Run, parent: usize, child: i32, edges_now: u64) -> bool {
    let known = pre.orphan_stops@.contains(child);
    let index = pre.threads@.len() as usize;
    &&& post == (Run {
        threads: post.threads,
        current: None,
        trace: post.trace,
        stops: if known {
            pre.stops
        } else {
            (pre.stops + 1) as usize
        },
        edges_at_last_event: edges_now,
        orphan_stops: post.orphan_stops,
        ..pre
    })
    &&& post.threads@ == with_state(pre.threads@, parent as int, State::Stopped).push(
        Thread { tid: child, state: State::Stopped, pending_signal: 0 },
    )
    &&& post.trace@ == pre.trace@.push(entry(pre, parent, PointKind::Clone, edges_now)).push(
        TraceEvent { thread: index, kind: PointKind::ThreadStart, edges: 0 },
    )
    &&& post.orphan_stops@.to_multiset() == if known {
        pre.orphan_stops@.to_multiset().remove(child)
    } else {
        pre.orphan_stops@.to_multiset()
    }
}

/// What a traced syscall of the running thread does. `answer` is what the scheduler gave for a
/// request for random bytes.
pub open spec fn seccomp_handled(
    pre: Run,
    post: Run,
    index: usize,
    regs: Regs,
    word: u32,
    edges_now: u64,
    answer: Seq<u8>,
    step: Step,
) -> bool {
    let nr = regs.orig_rax as i64;
    if nr == SYS_FUTEX {
        futex_handled(pre, post, index, regs, word, edges_now, step)
    } else if nr == SYS_CLONE || nr == SYS_CLONE3 || nr == SYS_EXIT || nr == SYS_EXIT_GROUP || (nr
        == SYS_POLL && regs.rdx == 0) {
        post == pre && step == Step::Resume
    } else if nr == SYS_SCHED_YIELD || nr == SYS_NANOSLEEP || nr == SYS_CLOCK_NANOSLEEP || (nr
        == SYS_GETPPID && regs.rdi == MARKER_MAGIC) {
        let kind = if nr == SYS_SCHED_YIELD {
            PointKind::Yield
        } else if nr == SYS_GETPPID {
            PointKind::Preempt
        } else {
            PointKind::Sleep
        };
        &&& stopped_at(pre, post, index, State::Stopped, kind, edges_now)
        &&& post.futex_seq == pre.futex_seq
        &&& step == (Step::Skip { regs: skip_regs(regs, 0) })
    } else if nr == SYS_GETRANDOM {
        &&& stopped_at(pre, post, index, State::Stopped, PointKind::Getrandom, edges_now)
        &&& post.futex_seq == pre.futex_seq
        &&& step matches Step::Fill { addr, bytes, regs: next } && addr == regs.rdi && bytes@
            == answer && next == skip_regs(regs, answer.len() as i64)
    } else {
        &&& post == (Run { uncontrolled: post.uncontrolled, ..pre })
        &&& post.uncontrolled@ == pre.uncontrolled@.push(Uncontrolled::Syscall { nr, thread: index })
        &&& step == Step::Resume
    }
}

/// How many random bytes a syscall asks the scheduler for; `None` for another syscall.
pub fn wanted_random(regs: Regs) -> (len: Option<usize>)
    ensures
        len == if regs.orig_rax as i64 == SYS_GETRANDOM {
            Some(
                (if regs.rsi < MAX_RANDOM_BYTES {
                    regs.rsi
                } else {
                    MAX_RANDOM_BYTES
                }) as usize,
            )
        } else {
            None
        },
{
    if regs.orig_rax as i64 == SYS_GETRANDOM {
        Some(
            if regs.rsi < MAX_RANDOM_BYTES {
                regs.rsi as usize
            } else {
                MAX_RANDOM_BYTES as usize
            },
        )
    } else {
        None
    }
}

impl Run {
    /// The running thread stopped at a traced syscall. `word` is the futex word it may wait on,
    /// `answer` the random bytes it is given.
    pub fn handle_seccomp(
        &mut self,
        index: usize,
        regs: Regs,
        word: u32,
        answer: Vec<u8>,
        edges_now: u64,
    ) -> (step: Step)
        requires
            old(self).wf(),
            old(self).ready(edges_now),
            index < old(self).threads@.len(),
            old(self).threads@[index as int].state == State::Running,
        ensures
            final(self).wf(),
            seccomp_handled(
                *old(self),
                *final(self),
                index,
                regs,
                word,
                edges_now,
                answer@,
                step,
            ),
    {
        let nr = regs.orig_rax as i64;
        if nr == SYS_FUTEX {
            return self.handle_futex(index, regs, word, edges_now);
        }
        if nr == SYS_CLONE || nr == SYS_CLONE3 || nr == SYS_EXIT || nr == SYS_EXIT_GROUP || (nr
            == SYS_POLL && regs.rdx == 0) {
            // A non-blocking poll cannot reorder anything; the others lead to an event.
            return Step::Resume;
        }
        if nr == SYS_SCHED_YIELD {
            self.stop_at(index, State::Stopped, PointKind::Yield, edges_now);
            return Step::Skip { regs: skip_syscall(regs, 0) };
        }
        if nr == SYS_NANOSLEEP || nr == SYS_CLOCK_NANOSLEEP {
            self.stop_at(index, State::Stopped, PointKind::Sleep, edges_now);
            return Step::Skip { regs: skip_syscall(regs, 0) };
        }
        if nr == SYS_GETRANDOM {
            self.stop_at(index, State::Stopped, PointKind::Getrandom, edges_now);
            let next = skip_syscall(regs, answer.len() as i64);
            return Step::Fill { addr: regs.rdi, bytes: answer, regs: next };
        }
        if nr == SYS_GETPPID && regs.rdi == MARKER_MAGIC {
            self.stop_at(index, State::Stopped, PointKind::Preempt, edges_now);
            return Step::Skip { regs: skip_syscall(regs, 0) };
        }
        self.uncontrolled.push(Uncontrolled::Syscall { nr, thread: index });
        Step::Resume
    }

    /// Set one thread's state, none to running.
    fn set_state(&mut self, index: usize, state: State)
        requires
            old(self).wf(),
            index < old(self).threads@.len(),
            state != State::Running,
            seq_of(state) is None,
        ensures
            final(self).wf(),
            *final(self) == (Run { threads: final(self).threads, ..*old(self) }),
            final(self).threads@ == with_state(old(self).threads@, index as int, state),
    {
        let t = self.threads[index];
        self.threads.set(index, Thread { tid: t.tid, state, pending_signal: t.pending_signal });
    }

    /// The thread is not running any more, so it is not current either.
    fn drop_current(&mut self, index: usize)
        requires
            old(self).wf(),
            index < old(self).threads@.len(),
            old(self).threads@[index as int].state != State::Running,
        ensures
            final(self).wf(),
            *final(self) == (Run {
                current: without_current(old(self).current, index),
                ..*old(self)
            }),
    {
        let count: usize = self.threads.len();
        if let Some(current) = self.current {
            if current == index {
                proof {
                    assert forall|i: int| 0 <= i < self.threads@.len() implies (
                    #[trigger] self.threads@[i]).state != State::Running by {
                        assert(i < count);
                        assert(i as usize as int == i);
                    }
                }
                self.current = None;
            }
        }
    }

    /// Take in one event.
    pub fn handle_event(&mut self, event: WaitEvent, edges_now: u64) -> (handling: Handling)
        requires
            old(self).wf(),
            old(self).ready(edges_now),
        ensures
            final(self).wf(),
            event_handled(*old(self), *final(self), event, edges_now, handling),
    {
        match event {
            WaitEvent::Event { pid, event } => {
                let known = self.thread_index(pid);
                if event == PTRACE_EVENT_SECCOMP {
                    match known {
                        Some(index) => Handling::Seccomp { index },
                        None => Handling::Unknown { pid },
                    }
                } else if event == PTRACE_EVENT_CLONE {
                    match known {
                        Some(parent) => Handling::Clone { parent },
                        None => Handling::Unknown { pid },
                    }
                } else if event == PTRACE_EVENT_EXIT {
                    let index: usize = match known {
                        Some(index) => index,
                        None => {
                            return Handling::Resume { pid, signal: 0 };
                        },
                    };
                    let was_current = match self.current {
                        Some(current) => current == index,
                        None => false,
                    };
                    self.set_state(index, State::Exiting);
                    self.drop_current(index);
                    if was_current {
                        self.record(index, PointKind::Exit, edges_now);
                    }
                    Handling::Exit { index, pid, reap: pid != self.leader }
                } else if event == PTRACE_EVENT_STOP {
                    match known {
                        Some(index) => {
                            let state = self.threads[index].state;
                            if state == State::Starting || state == State::Running {
                                self.set_state(index, State::Stopped);
                                self.drop_current(index);
                            }
                        },
                        None => {
                            self.orphan_stops.push(pid);
                        },
                    }
                    Handling::Nothing
                } else if event == PTRACE_EVENT_EXEC {
                    Handling::Resume { pid, signal: 0 }
                } else {
                    self.uncontrolled.push(Uncontrolled::Event { event, pid });
                    Handling::Resume { pid, signal: 0 }
                }
            },
            WaitEvent::Syscall { pid } => Handling::Resume { pid, signal: 0 },
            WaitEvent::GroupStop { pid, .. } => Handling::Resume { pid, signal: 0 },
            WaitEvent::Signal { pid, sig } => {
                let index: usize = match self.thread_index(pid) {
                    Some(index) => index,
                    None => {
                        return Handling::Resume { pid, signal: sig };
                    },
                };
                if sig == 11 || sig == 7 || sig == 4 || sig == 8 || sig == 6 || sig == 5 || sig
                    == 31 {
                    let t = self.threads[index];
                    self.threads.set(
                        index,
                        Thread { tid: t.tid, state: State::Stopped, pending_signal: sig },
                    );
                    self.drop_current(index);
                    self.record(index, PointKind::Signal(sig), edges_now);
                    Handling::Nothing
                } else if sig == SIGCONT || sig == SIGSTOP {
                    Handling::Resume { pid, signal: 0 }
                } else {
                    Handling::Resume { pid, signal: sig }
                }
            },
            WaitEvent::Exited { pid, code } => self.thread_gone(pid, Outcome::Exited(code)),
            WaitEvent::Killed { pid, sig } => self.thread_gone(pid, Outcome::Signaled(sig)),
        }
    }

    fn thread_gone(&mut self, pid: i32, outcome: Outcome) -> (handling: Handling)
        requires
            old(self).wf(),
        ensures
            final(self).wf(),
            thread_gone(*old(self), *final(self), pid, outcome, handling),
    {
        if pid == self.leader {
            let ghost before = self.threads@;
            let mut i: usize = 0;
            while i < self.threads.len()
                invariant
                    before == old(self).threads@,
                    i <= self.threads@.len() == before.len(),
                    *self == (Run { threads: self.threads, ..*old(self) }),
                    forall|k: int|
                        0 <= k < i ==> #[trigger] self.threads@[k] == (Thread {
                            state: State::Exited,
                            ..before[k]
                        }),
                    forall|k: int| i <= k < before.len() ==> #[trigger] self.threads@[k] == before[k],
                decreases before.len() - i,
            {
                let t = self.threads[i];
                self.threads.set(
                    i,
                    Thread {
                        tid: t.tid,
                        state: State::Exited,
                        pending_signal: t.pending_signal,
                    },
                );
                i += 1;
            }
            assert(self.threads@ =~= before.map_values(
                |t: Thread| Thread { state: State::Exited, ..t },
            ));
            self.outcome = Some(outcome);
            return Handling::Finished;
        }
        match self.thread_index(pid) {
            Some(index) => {
                self.set_state(index, State::Exited);
                self.drop_current(index);
                Handling::Recheck
            },
            None => Handling::Nothing,
        }
    }

    /// Whether the first stop of thread `child` has been seen before its creation was reported.
    /// If not, the caller waits for it before it hands the thread over.
    pub fn is_orphan(&self, child: i32) -> (orphan: bool)
        ensures
            orphan == self.orphan_stops@.contains(child),
    {
        self.orphan_at(child).is_some()
    }

    fn orphan_at(&self, child: i32) -> (at: Option<usize>)
        ensures
            match at {
                Some(i) => i < self.orphan_stops@.len() && self.orphan_stops@[i as int] == child,
                None => !self.orphan_stops@.contains(child),
            },
    {
        let mut i: usize = 0;
        while i < self.orphan_stops.len()
            invariant
                i <= self.orphan_stops@.len(),
                forall|k: int| 0 <= k < i ==> #[trigger] self.orphan_stops@[k] != child,
            decreases self.orphan_stops@.len() - i,
        {
            if self.orphan_stops[i] == child {
                return Some(i);
            }
            i += 1;
        }
        None
    }

    /// The running thread `parent` created thread `child`, which has stopped.
    pub fn on_clone(&mut self, parent: usize, child: i32, edges_now: u64)
        requires
            old(self).wf(),
            old(self).ready(edges_now),
            parent < old(self).threads@.len(),
            old(self).threads@[parent as int].state == State::Running,
        ensures
            final(self).wf(),
            cloned(*old(self), *final(self), parent, child, edges_now),
    {
        let child_index: usize = self.threads.len();
        match self.orphan_at(child) {
            Some(at) => {
                let ghost before = self.orphan_stops@;
                let _seen = self.orphan_stops.swap_remove(at);
                proof {
                    lemma_swap_remove(before, at as int);
                    assert(before[at as int] == child);
                }
            },
            None => {
                self.stops = self.stops + 1;
            },
        }
        self.stop_at(parent, State::Stopped, PointKind::Clone, edges_now);
        self.threads.push(Thread { tid: child, state: State::Stopped, pending_signal: 0 });
        self.record(child_index, PointKind::ThreadStart, edges_now);
    }

    /// Exiting thread `index` is gone: look again at the futex words, of which the kernel cleared
    /// the one that its joiner waits on.
    pub fn on_reaped(&mut self, index: usize, words: &Vec<u32>, edges_now: u64)
        requires
            old(self).wf(),
            old(self).ready(edges_now),
            index < old(self).threads@.len(),
            old(self).threads@[index as int].state == State::Exiting,
            words@.len() == old(self).threads@.len(),
        ensures
            final(self).wf(),
            reaped(*old(self), *final(self), index, words@, edges_now),
    {
        self.stops = self.stops + 1;
        self.set_state(index, State::Exited);
        let ghost mid = *self;
        self.recheck_futex_words(words, edges_now);
        assert(rechecked(mid, *self, words@, edges_now));
    }

    /// The watchdog fired: the run ends here.
    pub fn on_watchdog(&mut self)
        ensures
            *final(self) == (Run { outcome: Some(Outcome::Timeout), ..*old(self) }),
    {
        self.outcome = Some(Outcome::Timeout);
    }

    /// Some thread is on its way.
    pub open spec fn is_busy(self) -> bool {
        exists|i: int|
            0 <= i < self.threads@.len() && {
                let state = (#[trigger] self.threads@[i]).state;
                state is Running || state is Exiting || state is Starting
            }
    }

    /// Whether a thread is to be scheduled: none is on its way.
    pub fn needs_schedule(&self) -> (needed: bool)
        ensures
            needed == (self.current is None && !self.is_busy()),
    {
        self.current.is_none() && !self.busy()
    }

    /// What the caller does next: an outcome ends the run; otherwise a thread is scheduled if none
    /// is on its way, and an event is awaited if one is.
    pub fn take_turn(&mut self) -> (turn: Turn)
        ensures
            turn == match old(self).outcome {
                Some(outcome) => Turn::Finished(outcome),
                None => if old(self).current is None && !old(self).is_busy() {
                    Turn::Schedule
                } else {
                    Turn::Await
                },
            },
            *final(self) == (Run { outcome: None, ..*old(self) }),
            old(self).wf() ==> final(self).wf(),
    {
        match self.outcome.take() {
            Some(outcome) => Turn::Finished(outcome),
            None => {
                if self.needs_schedule() {
                    Turn::Schedule
                } else {
                    Turn::Await
                }
            },
        }
    }
}

/// What the end of an exiting thread does.
pub open spec fn reaped(pre: Run, post: Run, index: usize, words: Seq<u32>, edges_now: u64) -> bool {
    exists|mid: Run|
        {
            &&& mid == (Run { stops: (pre.stops + 1) as usize, threads: mid.threads, ..pre })
            &&& mid.threads@ == with_state(pre.threads@, index as int, State::Exited)
            &&& #[trigger] rechecked(mid, post, words, edges_now)
        }
}

proof fn lemma_swap_remove(s: Seq<i32>, at: int)
    requires
        0 <= at < s.len(),
    ensures
        s.update(at, s.last()).drop_last().to_multiset() == s.to_multiset().remove(s[at]),
{
    broadcast use vstd::seq_lib::group_to_multiset_ensures;

    let t = s.update(at, s.last());
    assert(t.to_multiset() =~= s.to_multiset().insert(s.last()).remove(s[at]));
    assert(t.drop_last() =~= t.remove(t.len() - 1));
    assert(t.last() == s.last());
    assert(t.drop_last().to_multiset() =~= t.to_multiset().remove(s.last()));
    assert(s.to_multiset().contains(s[at])) by {
        assert(s.contains(s[at]));
    }
}

/// At most one thread runs at any time.
pub proof fn at_most_one_thread_runs(run: Run, i: int, j: int)
    requires
        run.wf(),
        run.threads@.len() <= usize::MAX,
        0 <= i < run.threads@.len(),
        0 <= j < run.threads@.len(),
        run.threads@[i].state == State::Running,
        run.threads@[j].state == State::Running,
    ensures
        i == j,
{
    assert(run.current == Some(i as usize));
    assert(run.current == Some(j as usize));
}

} // verus!
