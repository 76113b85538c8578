//! Laws of the schedule: what one call of a thread means for the calls that follow.

use vstd::prelude::*;

use super::supervisor::{
    budget_spec, cloned, decided, event_handled, futex_handled, idled, matches_wake, none_timed,
    rechecked, seat, seccomp_handled, wait_seq, waiters_below, word_changed, Decision, Grant,
    Handling, Idle, Run, State, Step, Thread, FUTEX_CMD_MASK, FUTEX_WAIT, FUTEX_WAIT_BITSET,
    FUTEX_WAKE, FUTEX_WAKE_BITSET,
};
use crate::linux::{
    Regs, EAGAIN, SYS_CLOCK_NANOSLEEP, SYS_CLONE, SYS_CLONE3, SYS_EXIT, SYS_EXIT_GROUP, SYS_FUTEX,
    SYS_GETPPID, SYS_GETRANDOM, SYS_NANOSLEEP, SYS_POLL, SYS_SCHED_YIELD,
};

verus! {

/// A futex call that asks to wait while the word holds a value.
pub open spec fn asks_to_wait(regs: Regs) -> bool {
    regs.rsi & FUTEX_CMD_MASK == FUTEX_WAIT || regs.rsi & FUTEX_CMD_MASK == FUTEX_WAIT_BITSET
}

/// Thread `i` of `run` is in the emulated wait that it entered by the futex call `regs`, at
/// whatever moment of the run that was.
pub open spec fn waits_since(run: Run, i: int, regs: Regs) -> bool {
    exists|pre: Run, mid: Run, word: u32, edges: u64, step: Step|
        {
            &&& #[trigger] futex_handled(pre, mid, i as usize, regs, word, edges, step)
            &&& asks_to_wait(regs)
            &&& word == regs.rdx as u32
            &&& 0 <= i < pre.threads@.len() <= usize::MAX
            &&& run.threads@[i].state == mid.threads@[i].state
        }
}

/// The positions below `n` of the waiting threads, each once and in creation order.
pub proof fn waiters_are_listed_once(threads: Seq<Thread>, n: int)
    requires
        0 <= n <= threads.len() <= usize::MAX,
    ensures
        forall|i: usize|
            #[trigger] waiters_below(threads, n).contains(i) <==> i < n
                && threads[i as int].state is FutexWait,
        forall|a: int, b: int|
            0 <= a < b < waiters_below(threads, n).len() ==> #[trigger] waiters_below(
                threads,
                n,
            )[a] < #[trigger] waiters_below(threads, n)[b],
    decreases n,
{
    if n > 0 {
        waiters_are_listed_once(threads, n - 1);
        let before = waiters_below(threads, n - 1);
        let list = waiters_below(threads, n);
        assert forall|i: usize| #[trigger] list.contains(i) <==> i < n
            && threads[i as int].state is FutexWait by {
            if list.contains(i) {
                let k = choose|k: int| 0 <= k < list.len() && list[k] == i;
                if k < before.len() {
                    assert(before[k] == i);
                    assert(before.contains(i));
                }
            }
            if i < n - 1 && threads[i as int].state is FutexWait {
                assert(before.contains(i));
                let k = choose|k: int| 0 <= k < before.len() && before[k] == i;
                assert(list[k] == i);
            }
            if i == n - 1 && threads[i as int].state is FutexWait {
                assert(list[list.len() - 1] == i);
            }
        }
        assert forall|a: int, b: int| 0 <= a < b < list.len() implies #[trigger] list[a]
            < #[trigger] list[b] by {
            assert(before[a] == list[a]);
            assert(before.contains(before[a]));
            if b < before.len() {
                assert(before[b] == list[b]);
            }
        }
    }
}

/// A thread whose emulated wait was entered with a timeout is never part of a deadlock. Where no
/// word has changed, the outcome goes by the timeouts alone: a wait expires if some waiter gave
/// one, and the run is deadlocked if none did. Of those with a timeout, the one that has waited
/// longest expires.
pub proof fn timed_waits_expire(
    pre: Run,
    post: Run,
    calls: Seq<Regs>,
    words: Seq<u32>,
    edges_now: u64,
    idle: Idle,
)
    requires
        idled(pre, post, words, edges_now, idle),
        words.len() == pre.threads@.len(),
        pre.threads@.len() <= usize::MAX,
        calls.len() == pre.threads@.len(),
        forall|i: int|
            0 <= i < pre.threads@.len() && pre.threads@[i].state is FutexWait ==> waits_since(
                pre,
                i,
                #[trigger] calls[i],
            ),
    ensures
        ({
            let waits = |i: int| 0 <= i < calls.len() && pre.threads@[i].state is FutexWait;
            let unchanged = forall|i: int|
                #[trigger] waits(i) ==> words[i] == calls[i].rdx as u32;
            &&& idle is Deadlock ==> forall|i: int| #[trigger] waits(i) ==> calls[i].r10 == 0
            &&& idle is AwaitEvent <==> forall|i: int| !#[trigger] waits(i)
            &&& idle is Woken <==> !unchanged
            &&& unchanged ==> (idle is TimedOut <==> exists|i: int|
                #[trigger] waits(i) && calls[i].r10 != 0)
            &&& idle matches Idle::TimedOut { thread, tid } ==> {
                &&& waits(thread as int)
                &&& calls[thread as int].r10 != 0
                &&& tid == pre.threads@[thread as int].tid
                &&& post.threads@[thread as int].state == State::Stopped
                &&& forall|i: int|
                    #[trigger] waits(i) && calls[i].r10 != 0 ==> wait_seq(
                        pre.threads@[thread as int],
                    ).unwrap() <= wait_seq(pre.threads@[i]).unwrap()
            }
            &&& idle matches Idle::Deadlock { waiting_threads } ==> forall|i: usize|
                #[trigger] waiting_threads@.contains(i) <==> waits(i as int)
        }),
{
    let n = calls.len() as int;
    let waits = |i: int| 0 <= i < calls.len() && pre.threads@[i].state is FutexWait;
    let listed = waiters_below(pre.threads@, n);
    waiters_are_listed_once(pre.threads@, n);
    assert forall|i: int| #[trigger] waits(i) implies {
        &&& pre.threads@[i].state->timed == (calls[i].r10 != 0)
        &&& pre.threads@[i].state->val == calls[i].rdx as u32
    } by {
        assert(waits_since(pre, i, calls[i]));
    }
    let unchanged = forall|i: int| #[trigger] waits(i) ==> words[i] == calls[i].rdx as u32;
    let changed = exists|i: int|
        0 <= i < words.len() && word_changed(#[trigger] pre.threads@[i], words[i]);
    assert(changed == !unchanged) by {
        if changed {
            let i = choose|i: int|
                0 <= i < words.len() && word_changed(#[trigger] pre.threads@[i], words[i]);
            assert(waits(i));
        }
        if !unchanged {
            let i = choose|i: int| #[trigger] waits(i) && words[i] != calls[i].rdx as u32;
            assert(word_changed(pre.threads@[i], words[i]));
        }
    }
    assert((listed.len() == 0) == (forall|i: int| !#[trigger] waits(i))) by {
        if listed.len() > 0 {
            assert(listed.contains(listed[0]));
            assert(waits(listed[0] as int));
        } else {
            assert forall|i: int| !#[trigger] waits(i) by {
                assert(!listed.contains(i as usize));
            }
        }
    }
    if exists|i: int| #[trigger] waits(i) && calls[i].r10 != 0 {
        let i = choose|i: int| #[trigger] waits(i) && calls[i].r10 != 0;
        assert(pre.threads@[i].state->timed);
        assert(!none_timed(pre.threads@));
    }
    if let Idle::TimedOut { thread, .. } = idle {
        assert(waits(thread as int));
        assert forall|i: int| #[trigger] waits(i) && calls[i].r10 != 0 implies wait_seq(
            pre.threads@[thread as int],
        ).unwrap() <= wait_seq(pre.threads@[i]).unwrap() by {
            assert(pre.threads@[i].state->timed);
        }
    }
    if let Idle::Deadlock { .. } = idle {
        assert forall|i: int| #[trigger] waits(i) implies calls[i].r10 == 0 by {
            assert(!(pre.threads@[i].state matches State::FutexWait { timed, .. } && timed));
        }
    }
}

/// A futex call to wait is turned away if the word no longer holds the value that it expects, and
/// otherwise leaves its thread waiting on that word, for that value, behind everyone who waits.
/// Either way the thread is told at once, and no other thread is touched.
pub proof fn waits_go_by_the_word(
    pre: Run,
    post: Run,
    index: usize,
    regs: Regs,
    word: u32,
    edges_now: u64,
    step: Step,
    i: int,
)
    requires
        futex_handled(pre, post, index, regs, word, edges_now, step),
        asks_to_wait(regs),
        pre.wf(),
        pre.ready(edges_now),
        index < pre.threads@.len(),
        0 <= i < pre.threads@.len(),
    ensures
        word != regs.rdx as u32 ==> post.threads@[index as int].state == State::Stopped
            && post.futex_seq == pre.futex_seq && (step matches Step::Skip { regs: next } && next.rax
            == -EAGAIN as u64 && next.orig_rax == u64::MAX),
        word == regs.rdx as u32 ==> {
            &&& post.threads@[index as int].state matches State::FutexWait {
                addr,
                val,
                bitset,
                timed,
                seq,
            }
            &&& addr == regs.rdi
            &&& val == word
            &&& timed <==> regs.r10 != 0
            &&& regs.rsi & FUTEX_CMD_MASK == FUTEX_WAIT ==> bitset == 0xFFFF_FFFFu32
            &&& regs.rsi & FUTEX_CMD_MASK == FUTEX_WAIT_BITSET ==> bitset == regs.r9 as u32
            &&& seq > pre.futex_seq
            &&& i != index ==> (wait_seq(pre.threads@[i]) matches Some(earlier) ==> earlier < seq)
            &&& step matches Step::Skip { regs: next }
            &&& next.rax == 0
            &&& next.orig_rax == u64::MAX
        },
        i != index ==> post.threads@[i] == pre.threads@[i],
        post.current is None,
        post.trace@.len() == pre.trace@.len() + 1,
        post.trace@.last().thread == index,
        post.trace@.last().edges == edges_now - pre.edges_at_last_event,
        post.edges_at_last_event == edges_now,
{
}

/// A wake lets waiters on its word run, those who came first before those who came later: as many
/// as it asks for, or all of them. It is told how many they were. A thread that waits on another
/// word, or for other bits, goes on waiting.
pub proof fn wakes_go_by_the_word(
    pre: Run,
    post: Run,
    index: usize,
    regs: Regs,
    word: u32,
    edges_now: u64,
    step: Step,
    i: int,
    j: int,
)
    requires
        futex_handled(pre, post, index, regs, word, edges_now, step),
        regs.rsi & FUTEX_CMD_MASK == FUTEX_WAKE || regs.rsi & FUTEX_CMD_MASK == FUTEX_WAKE_BITSET,
        pre.threads@.len() <= usize::MAX,
        index < pre.threads@.len(),
        pre.threads@[index as int].state == State::Running,
        0 <= i < pre.threads@.len(),
        0 <= j < pre.threads@.len(),
    ensures
        ({
            let mask = if regs.rsi & FUTEX_CMD_MASK == FUTEX_WAKE {
                0xFFFF_FFFFu32
            } else {
                regs.r9 as u32
            };
            let concerned = |t: Thread|
                t.state matches State::FutexWait { addr, bitset, .. } && addr == regs.rdi && bitset
                    & mask != 0;
            let woken = |k: int|
                pre.threads@[k].state is FutexWait && post.threads@[k].state == State::Stopped;
            &&& woken(i) ==> concerned(pre.threads@[i])
            &&& !woken(i) && i != index ==> post.threads@[i] == pre.threads@[i]
            &&& post.threads@[i].tid == pre.threads@[i].tid
            &&& post.threads@[i].pending_signal == pre.threads@[i].pending_signal
            &&& post.threads@[index as int].state == State::Stopped
            &&& woken(i) && concerned(pre.threads@[j]) && !woken(j) ==> wait_seq(
                pre.threads@[i],
            ).unwrap() < wait_seq(pre.threads@[j]).unwrap()
            &&& exists|list: Seq<usize>|
                {
                    &&& #[trigger] list.no_duplicates()
                    &&& list.contains(i as usize) <==> woken(i)
                    &&& list.contains(j as usize) <==> woken(j)
                    &&& list.len() <= regs.rdx as u32
                    &&& concerned(pre.threads@[j]) && !woken(j) ==> list.len() == regs.rdx as u32
                    &&& step matches Step::Skip { regs: next } && next.rax == list.len() as i64 as u64
                        && next.orig_rax == u64::MAX
                }
            &&& post.futex_seq == pre.futex_seq
            &&& post.current is None
        }),
{
    let mask = if regs.rsi & FUTEX_CMD_MASK == FUTEX_WAKE_BITSET {
        regs.r9 as u32
    } else {
        u32::MAX
    };
    assert(FUTEX_WAKE != FUTEX_WAKE_BITSET);
    let list = choose|list: Seq<usize>|
        {
            &&& #[trigger] super::supervisor::is_wake_order(
                pre.threads@,
                regs.rdi,
                mask,
                regs.rdx as u32 as int,
                list,
            )
            &&& post.threads@ == super::supervisor::after_wake(
                pre.threads@.update(
                    index as int,
                    Thread { state: State::Stopped, ..pre.threads@[index as int] },
                ),
                list,
            )
            &&& step == (Step::Skip {
                regs: super::supervisor::skip_regs(regs, list.len() as i64),
            })
        };
    assert(list.no_duplicates()) by {
        assert forall|a: int, b: int| 0 <= a < list.len() && 0 <= b < list.len() && a != b implies
        list[a] != list[b] by {
            if a < b {
                assert(seat(pre.threads@, list[a]) < seat(pre.threads@, list[b]));
            } else {
                assert(seat(pre.threads@, list[b]) < seat(pre.threads@, list[a]));
            }
        }
    }
    assert forall|k: int| 0 <= k < pre.threads@.len() && list.contains(k as usize) implies
    matches_wake(#[trigger] pre.threads@[k], regs.rdi, mask) by {
        let at = choose|at: int| 0 <= at < list.len() && list[at] == k as usize;
        assert(matches_wake(pre.threads@[list[at] as int], regs.rdi, mask));
    }
    if list.contains(i as usize) && matches_wake(pre.threads@[j], regs.rdi, mask)
        && !list.contains(j as usize) {
        let at = choose|at: int| 0 <= at < list.len() && list[at] == i as usize;
        assert(seat(pre.threads@, list[at]) < seat(pre.threads@, j as usize));
    }
}

/// A decision lets the thread run that it names among the candidates, or the last of them if it
/// names none, for the budget that it names; every other thread stays as it is. Where there is
/// but one candidate it runs without a limit, and no decision is noted.
pub proof fn decisions_are_followed(
    pre: Run,
    post: Run,
    candidates: Seq<usize>,
    decision: Decision,
    grant: Grant,
    i: int,
)
    requires
        decided(pre, post, candidates, decision, grant),
        0 < candidates.len() <= usize::MAX,
        forall|k: int| 0 <= k < candidates.len() ==> #[trigger] candidates[k] < pre.threads@.len(),
        0 <= i < pre.threads@.len(),
    ensures
        ({
            let place = if candidates.len() == 1 {
                0int
            } else if decision.pick < candidates.len() {
                decision.pick as int
            } else {
                candidates.len() - 1
            };
            let chosen = candidates[place] as int;
            &&& grant.tid == pre.threads@[chosen].tid
            &&& grant.signal == pre.threads@[chosen].pending_signal
            &&& candidates.len() == 1 ==> grant.budget == 0 && post.decisions@ == pre.decisions@
            &&& candidates.len() > 1 && decision.budget < 22 ==> grant.budget == budget_spec(
                decision.budget as int,
            )
            &&& candidates.len() > 1 && decision.budget >= 22 ==> grant.budget == 4096
            &&& candidates.len() > 1 ==> post.decisions@.len() == pre.decisions@.len() + 1
                && post.decisions@.last().pick == place
            &&& post.current == Some(chosen as usize)
            &&& post.last_ran == Some(chosen as usize)
            &&& post.threads@[chosen].state == State::Running
            &&& post.threads@[chosen].pending_signal == 0
            &&& i != chosen ==> post.threads@[i] == pre.threads@[i]
            &&& post.trace@ == pre.trace@
        }),
{
    assert(candidates[0] < pre.threads@.len());
    assert(candidates[candidates.len() - 1] < pre.threads@.len());
}

/// The edge budgets: none, then one to four, then two to every doubling up to 512, and from there
/// the doublings alone.
pub proof fn budgets_double(index: int)
    requires
        0 <= index < 22,
    ensures
        0 < index <= 4 ==> budget_spec(index) == index,
        4 < index <= 18 ==> budget_spec(index) == 2 * budget_spec(index - 2),
        18 < index ==> budget_spec(index) == 2 * budget_spec(index - 1),
        index == 0 <==> budget_spec(index) == 0,
{
}

/// Looking again at the words wakes the waiters whose word has changed, each with an entry of its
/// own, and no one else.
pub proof fn changed_words_wake(
    pre: Run,
    post: Run,
    words: Seq<u32>,
    edges_now: u64,
    i: int,
)
    requires
        rechecked(pre, post, words, edges_now),
        words.len() == pre.threads@.len(),
        0 <= i < pre.threads@.len(),
    ensures
        post.threads@.len() == pre.threads@.len(),
        ({
            let changed = pre.threads@[i].state matches State::FutexWait { val, .. } && words[i]
                != val;
            &&& changed ==> post.threads@[i] == (Thread {
                state: State::Stopped,
                ..pre.threads@[i]
            })
            &&& !changed ==> post.threads@[i] == pre.threads@[i]
        }),
        post.current == pre.current,
        post.futex_seq == pre.futex_seq,
        post.decisions@ == pre.decisions@,
{
}

/// An event of one thread leaves every other thread as it is, unless it is the end of the leader,
/// which ends them all.
pub proof fn events_concern_their_thread(
    pre: Run,
    post: Run,
    event: super::ptrace::WaitEvent,
    edges_now: u64,
    handling: Handling,
    i: int,
)
    requires
        event_handled(pre, post, event, edges_now, handling),
        pre.threads@.len() <= usize::MAX,
        0 <= i < pre.threads@.len(),
    ensures
        post.threads@.len() == pre.threads@.len(),
        post.threads@[i].tid == pre.threads@[i].tid,
        pre.threads@[i].tid != event_pid(event) && handling != Handling::Finished
            ==> post.threads@[i] == pre.threads@[i],
        handling == Handling::Finished ==> event_pid(event) == pre.leader && post.threads@[i].state
            == State::Exited && post.outcome is Some,
        handling != Handling::Finished ==> post.outcome == pre.outcome,
        post.futex_seq == pre.futex_seq,
        post.decisions@ == pre.decisions@,
        post.last_ran == pre.last_ran,
{
    lemma_index_of(pre.threads@, event_pid(event));
}

/// The thread that an event is about.
pub open spec fn event_pid(event: super::ptrace::WaitEvent) -> i32 {
    match event {
        super::ptrace::WaitEvent::Event { pid, .. } => pid,
        super::ptrace::WaitEvent::Syscall { pid } => pid,
        super::ptrace::WaitEvent::GroupStop { pid, .. } => pid,
        super::ptrace::WaitEvent::Signal { pid, .. } => pid,
        super::ptrace::WaitEvent::Exited { pid, .. } => pid,
        super::ptrace::WaitEvent::Killed { pid, .. } => pid,
    }
}

/// The first thread with an id, and that there is none where none is found.
pub proof fn lemma_index_of(threads: Seq<Thread>, tid: i32)
    requires
        threads.len() <= usize::MAX,
    ensures
        match super::supervisor::index_of(threads, tid) {
            Some(i) => i < threads.len() && threads[i as int].tid == tid && forall|k: int|
                0 <= k < i ==> (#[trigger] threads[k]).tid != tid,
            None => forall|k: int| 0 <= k < threads.len() ==> (#[trigger] threads[k]).tid != tid,
        },
    decreases threads.len(),
{
    if threads.len() > 0 {
        lemma_index_of(threads.drop_last(), tid);
        assert forall|k: int| 0 <= k < threads.len() - 1 implies threads.drop_last()[k]
            == #[trigger] threads[k] by {}
    }
}

/// A clone stops the parent and adds the child behind every other thread, ready to run; the stop
/// of a child that came before its clone is used up.
pub proof fn clones_add_a_thread(
    pre: Run,
    post: Run,
    parent: usize,
    child: i32,
    edges_now: u64,
    i: int,
)
    requires
        cloned(pre, post, parent, child, edges_now),
        parent < pre.threads@.len(),
        0 <= i < pre.threads@.len(),
    ensures
        post.threads@.len() == pre.threads@.len() + 1,
        post.threads@.last().tid == child,
        post.threads@.last().state == State::Stopped,
        post.threads@[parent as int].state == State::Stopped,
        post.threads@[parent as int].tid == pre.threads@[parent as int].tid,
        i != parent ==> post.threads@[i] == pre.threads@[i],
        post.current is None,
        post.trace@.len() == pre.trace@.len() + 2,
        forall|other: i32|
            other != child ==> #[trigger] post.orphan_stops@.to_multiset().count(other)
                == pre.orphan_stops@.to_multiset().count(other),
        pre.orphan_stops@.to_multiset().count(child) == post.orphan_stops@.to_multiset().count(
            child,
        ) + if pre.orphan_stops@.contains(child) {
            1int
        } else {
            0
        },
{
    broadcast use vstd::seq_lib::group_to_multiset_ensures;

    if pre.orphan_stops@.contains(child) {
        assert(pre.orphan_stops@.to_multiset().contains(child));
    }
}

/// A signal that a thread brings on itself stops it until it is next let run, with the signal to
/// deliver then; every other signal is delivered at once, but for the two that only stop and
/// continue.
pub proof fn crashes_wait_for_their_turn(
    pre: Run,
    post: Run,
    pid: i32,
    sig: i32,
    edges_now: u64,
    handling: Handling,
    i: int,
)
    requires
        event_handled(
            pre,
            post,
            super::ptrace::WaitEvent::Signal { pid, sig },
            edges_now,
            handling,
        ),
        pre.threads@.len() <= usize::MAX,
        0 <= i < pre.threads@.len(),
        pre.threads@[i].tid == pid,
        forall|k: int| 0 <= k < i ==> (#[trigger] pre.threads@[k]).tid != pid,
    ensures
        ({
            let crash = sig == 4 || sig == 5 || sig == 6 || sig == 7 || sig == 8 || sig == 11 || sig
                == 31;
            &&& crash ==> handling == Handling::Nothing && post.threads@[i] == (Thread {
                tid: pid,
                state: State::Stopped,
                pending_signal: sig,
            }) && post.current != Some(i as usize) && post.trace@.len() == pre.trace@.len() + 1
            &&& !crash ==> post == pre && handling == (Handling::Resume {
                pid,
                signal: if sig == 18 || sig == 19 {
                    0
                } else {
                    sig
                },
            })
        }),
{
    lemma_index_of(pre.threads@, pid);
}

/// A thread that yields, sleeps, or has used up its budget stops at its call, which returns zero
/// without being made; a request for random bytes is answered with what the scheduler gave. Every
/// other call but a futex call is made, and noted if it is not one of those that are known to be
/// harmless.
pub proof fn calls_are_skipped_or_made(
    pre: Run,
    post: Run,
    index: usize,
    regs: Regs,
    word: u32,
    edges_now: u64,
    answer: Seq<u8>,
    step: Step,
)
    requires
        seccomp_handled(pre, post, index, regs, word, edges_now, answer, step),
        index < pre.threads@.len(),
        pre.edges_at_last_event <= edges_now,
    ensures
        ({
            let nr = regs.orig_rax as i64;
            let stops = nr == SYS_SCHED_YIELD || nr == SYS_NANOSLEEP || nr == SYS_CLOCK_NANOSLEEP
                || nr == SYS_GETPPID && regs.rdi == super::shm::MARKER_MAGIC;
            let harmless = nr == SYS_CLONE || nr == SYS_CLONE3 || nr == SYS_EXIT || nr
                == SYS_EXIT_GROUP || nr == SYS_POLL && regs.rdx == 0;
            &&& stops ==> {
                &&& post.threads@[index as int].state == State::Stopped
                &&& post.current is None
                &&& post.trace@.len() == pre.trace@.len() + 1
                &&& step matches Step::Skip { regs: next } && next.rax == 0 && next.orig_rax
                    == u64::MAX
            }
            &&& nr == SYS_GETRANDOM ==> {
                &&& post.threads@[index as int].state == State::Stopped
                &&& step matches Step::Fill { addr, bytes, regs: next } && addr == regs.rdi
                    && bytes@ == answer && next.rax == answer.len() as i64 as u64
            }
            &&& harmless ==> post == pre && step == Step::Resume
            &&& !stops && !harmless && nr != SYS_GETRANDOM && nr != SYS_FUTEX ==> step
                == Step::Resume && post.uncontrolled@.len() == pre.uncontrolled@.len() + 1
                && post.threads@ == pre.threads@ && post.current == pre.current
        }),
{
}

} // verus!
