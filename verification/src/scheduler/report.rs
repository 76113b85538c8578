//! What came of one scheduled run.

use std::collections::hash_map::DefaultHasher;
use std::hash::Hasher;

use vstd::prelude::*;
use vstd::std_specs::hash::DefaultHasherAdditionalSpecFns;
use vstd::string::StringExecFns;
use vstd::utf8::encode_utf8;

use super::supervisor::{Decision, Outcome, PointKind, TraceEvent, Uncontrolled};
use crate::text::{
    aligned_text, decimal_text, push_aligned, push_decimal, push_signed, signed_text,
};
use crate::virtual_time::memory::{push_word, word_bytes};

verus! {

/// What came of one scheduled run.
#[derive(Debug)]
pub struct RunReport {
    pub outcome: Outcome,
    pub trace: Vec<TraceEvent>,
    pub decisions: Vec<Decision>,
    /// Number of stops handled (scheduling points and bookkeeping stops).
    pub stops: usize,
    pub edges: u64,
    pub threads: usize,
    pub wall_ns: u64,
    pub uncontrolled: Vec<Uncontrolled>,
    pub stderr: String,
}

/// Number of decisions, of the first `n`, that depart from the natural schedule: a choice of thread
/// and a choice of budget count one each.
pub open spec fn departures(decisions: Seq<Decision>, n: int) -> int
    decreases n,
{
    if n <= 0 {
        0
    } else {
        departures(decisions, n - 1) + (if decisions[n - 1].pick != 0 {
            1int
        } else {
            0
        }) + (if decisions[n - 1].budget != 0 {
            1int
        } else {
            0
        })
    }
}

/// Place of a kind of scheduling point among the kinds.
pub open spec fn kind_code(kind: PointKind) -> u64 {
    match kind {
        PointKind::Start => 0,
        PointKind::Clone => 1,
        PointKind::ThreadStart => 2,
        PointKind::FutexWait => 3,
        PointKind::FutexNoWait => 4,
        PointKind::FutexWake => 5,
        PointKind::FutexWoken => 6,
        PointKind::FutexTimeout => 7,
        PointKind::Yield => 8,
        PointKind::Sleep => 9,
        PointKind::Getrandom => 10,
        PointKind::Preempt => 11,
        PointKind::Exit => 12,
        PointKind::Signal(_) => 13,
    }
}

/// The four little-endian bytes of a signal number.
pub open spec fn signal_bytes(signal: i32) -> Seq<u8> {
    let word = signal as u32;
    seq![word as u8, (word >> 8u32) as u8, (word >> 16u32) as u8, (word >> 24u32) as u8]
}

/// Bytes of a kind of scheduling point: its place among the kinds, and the number of a signal.
pub open spec fn kind_bytes(kind: PointKind) -> Seq<u8> {
    match kind {
        PointKind::Signal(signal) => word_bytes(kind_code(kind)) + signal_bytes(signal),
        _ => word_bytes(kind_code(kind)),
    }
}

/// Bytes of one trace entry.
pub open spec fn event_bytes(event: TraceEvent) -> Seq<u8> {
    word_bytes(event.thread as u64) + kind_bytes(event.kind) + word_bytes(event.edges)
}

/// Bytes of the first `n` trace entries.
pub open spec fn trace_bytes(trace: Seq<TraceEvent>, n: int) -> Seq<u8>
    decreases n,
{
    if n <= 0 {
        Seq::empty()
    } else {
        trace_bytes(trace, n - 1) + event_bytes(trace[n - 1])
    }
}

/// What is hashed of a trace: its length, then its entries, field by field. These are the bytes
/// that the derived `Hash` of a trace gives a hasher where a `usize` has 64 bits.
pub open spec fn hashed_trace(trace: Seq<TraceEvent>) -> Seq<u8> {
    word_bytes(trace.len() as u64) + trace_bytes(trace, trace.len() as int)
}

fn code_of(kind: PointKind) -> (code: u64)
    ensures
        code == kind_code(kind),
{
    match kind {
        PointKind::Start => 0,
        PointKind::Clone => 1,
        PointKind::ThreadStart => 2,
        PointKind::FutexWait => 3,
        PointKind::FutexNoWait => 4,
        PointKind::FutexWake => 5,
        PointKind::FutexWoken => 6,
        PointKind::FutexTimeout => 7,
        PointKind::Yield => 8,
        PointKind::Sleep => 9,
        PointKind::Getrandom => 10,
        PointKind::Preempt => 11,
        PointKind::Exit => 12,
        PointKind::Signal(_) => 13,
    }
}

fn push_event(bytes: &mut Vec<u8>, event: TraceEvent)
    ensures
        final(bytes)@ == old(bytes)@ + event_bytes(event),
{
    push_word(bytes, event.thread as u64);
    push_word(bytes, code_of(event.kind));
    if let PointKind::Signal(signal) = event.kind {
        let word = signal as u32;
        bytes.push(word as u8);
        bytes.push((word >> 8u32) as u8);
        bytes.push((word >> 16u32) as u8);
        bytes.push((word >> 24u32) as u8);
    }
    push_word(bytes, event.edges);
    assert(bytes@ =~= old(bytes)@ + event_bytes(event));
}

/// One line of a described schedule: the entry's number and edge count, each right-aligned, and its
/// kind.
pub open spec fn line_text(index: nat, event: TraceEvent) -> Seq<char> {
    "  "@ + aligned_text(index, 3) + ": T"@ + decimal_text(event.thread as nat) + " ran "@
        + aligned_text(event.edges as nat, 6) + " edges -> "@ + kind_text(event.kind) + "\n"@
}

fn push_line(out: &mut String, index: usize, event: TraceEvent)
    ensures
        final(out)@ == old(out)@ + line_text(index as nat, event),
{
    out.append("  ");
    push_aligned(out, index as u64, 3);
    out.append(": T");
    push_decimal(out, event.thread as u64);
    out.append(" ran ");
    push_aligned(out, event.edges, 6);
    out.append(" edges -> ");
    let kind = point_name(event.kind);
    out.append(kind.as_str());
    out.append("\n");
    assert(out@ =~= old(out)@ + line_text(index as nat, event));
}

/// Name of a scheduling point.
pub open spec fn kind_text(kind: PointKind) -> Seq<char> {
    match kind {
        PointKind::Start => "start"@,
        PointKind::Clone => "clone"@,
        PointKind::ThreadStart => "threadstart"@,
        PointKind::FutexWait => "futexwait"@,
        PointKind::FutexNoWait => "futexnowait"@,
        PointKind::FutexWake => "futexwake"@,
        PointKind::FutexWoken => "futexwoken"@,
        PointKind::FutexTimeout => "futextimeout"@,
        PointKind::Yield => "yield"@,
        PointKind::Sleep => "sleep"@,
        PointKind::Getrandom => "getrandom"@,
        PointKind::Preempt => "preempt"@,
        PointKind::Exit => "exit"@,
        PointKind::Signal(sig) => "signal("@ + signed_text(sig as int) + ")"@,
    }
}

/// Name of a scheduling point.
pub fn point_name(kind: PointKind) -> (text: String)
    ensures
        text@ == kind_text(kind),
{
    match kind {
        PointKind::Start => "start".to_owned(),
        PointKind::Clone => "clone".to_owned(),
        PointKind::ThreadStart => "threadstart".to_owned(),
        PointKind::FutexWait => "futexwait".to_owned(),
        PointKind::FutexNoWait => "futexnowait".to_owned(),
        PointKind::FutexWake => "futexwake".to_owned(),
        PointKind::FutexWoken => "futexwoken".to_owned(),
        PointKind::FutexTimeout => "futextimeout".to_owned(),
        PointKind::Yield => "yield".to_owned(),
        PointKind::Sleep => "sleep".to_owned(),
        PointKind::Getrandom => "getrandom".to_owned(),
        PointKind::Preempt => "preempt".to_owned(),
        PointKind::Exit => "exit".to_owned(),
        PointKind::Signal(sig) => {
            let mut text = "signal(".to_owned();
            push_signed(&mut text, sig as i64);
            text.append(")");
            assert(text@ =~= kind_text(kind));
            text
        },
    }
}

/// Text of the first `n` entries of a schedule.
pub open spec fn schedule_text(trace: Seq<TraceEvent>, n: int) -> Seq<char>
    decreases n,
{
    if n <= 0 {
        Seq::empty()
    } else {
        schedule_text(trace, n - 1) + line_text((n - 1) as nat, trace[n - 1])
    }
}

impl RunReport {
    /// Hash of the schedule and its outcome: the bytes of the trace, then the outcome in words, in
    /// UTF-8 and closed by a byte that no text holds.
    pub fn trace_hash(&self) -> (hash: u64)
        ensures
            hash == DefaultHasher::spec_finish(
                seq![
                    hashed_trace(self.trace@),
                    encode_utf8(outcome_text(self.outcome)),
                    seq![255u8],
                ],
            ),
    {
        let mut bytes: Vec<u8> = Vec::new();
        push_word(&mut bytes, self.trace.len() as u64);
        let mut i: usize = 0;
        assert(bytes@ =~= word_bytes(self.trace@.len() as u64) + trace_bytes(self.trace@, 0));
        while i < self.trace.len()
            invariant
                i <= self.trace@.len(),
                bytes@ == word_bytes(self.trace@.len() as u64) + trace_bytes(
                    self.trace@,
                    i as int,
                ),
            decreases self.trace@.len() - i,
        {
            push_event(&mut bytes, self.trace[i]);
            i += 1;
            assert(bytes@ =~= word_bytes(self.trace@.len() as u64) + trace_bytes(
                self.trace@,
                i as int,
            ));
        }
        let text = outcome_name(&self.outcome);
        let close: Vec<u8> = vec![255u8];
        let mut hasher = DefaultHasher::new();
        hasher.write(bytes.as_slice());
        hasher.write(text.as_str().as_bytes());
        hasher.write(close.as_slice());
        assert(close@ =~= seq![255u8]);
        assert(hasher@ =~= seq![
            hashed_trace(self.trace@),
            encode_utf8(outcome_text(self.outcome)),
            seq![255u8],
        ]);
        hasher.finish()
    }

    /// Number of decisions that depart from the natural schedule.
    pub fn non_zero_decisions(&self) -> (count: usize)
        requires
            2 * self.decisions@.len() <= usize::MAX,
        ensures
            count == departures(self.decisions@, self.decisions@.len() as int),
    {
        let mut count: usize = 0;
        let mut i: usize = 0;
        while i < self.decisions.len()
            invariant
                i <= self.decisions@.len(),
                2 * self.decisions@.len() <= usize::MAX,
                count == departures(self.decisions@, i as int),
                count <= 2 * i,
            decreases self.decisions@.len() - i,
        {
            let d = self.decisions[i];
            if d.pick != 0 {
                count += 1;
            }
            if d.budget != 0 {
                count += 1;
            }
            i += 1;
        }
        count
    }

    /// Number of scheduling points.
    pub fn scheduling_points(&self) -> (count: usize)
        ensures
            count == self.trace@.len(),
    {
        self.trace.len()
    }

    /// Human readable schedule.
    pub fn describe(&self) -> (text: String)
        ensures
            text@ == schedule_text(self.trace@, self.trace@.len() as int),
    {
        let mut out = String::new();
        let mut i: usize = 0;
        assert(out@ =~= schedule_text(self.trace@, 0));
        while i < self.trace.len()
            invariant
                i <= self.trace@.len(),
                out@ == schedule_text(self.trace@, i as int),
            decreases self.trace@.len() - i,
        {
            push_line(&mut out, i, self.trace[i]);
            i += 1;
        }
        out
    }
}

/// The listed thread numbers, separated by commas.
pub open spec fn list_text(threads: Seq<usize>, n: int) -> Seq<char>
    decreases n,
{
    if n <= 0 {
        Seq::empty()
    } else if n == 1 {
        decimal_text(threads[0] as nat)
    } else {
        list_text(threads, n - 1) + ", "@ + decimal_text(threads[n - 1] as nat)
    }
}

/// An outcome in words.
pub open spec fn outcome_text(outcome: Outcome) -> Seq<char> {
    match outcome {
        Outcome::Exited(code) => "exit("@ + signed_text(code as int) + ")"@,
        Outcome::Signaled(sig) => "signal("@ + signed_text(sig as int) + ")"@,
        Outcome::Deadlock { waiting_threads } => "deadlock(waiting threads ["@ + list_text(
            waiting_threads@,
            waiting_threads@.len() as int,
        ) + "])"@,
        Outcome::Timeout => "timeout"@,
    }
}

/// An outcome in words.
pub fn outcome_name(outcome: &Outcome) -> (text: String)
    ensures
        text@ == outcome_text(*outcome),
{
    match outcome {
        Outcome::Exited(code) => {
            let mut text = "exit(".to_owned();
            push_signed(&mut text, *code as i64);
            text.append(")");
            assert(text@ =~= outcome_text(*outcome));
            text
        },
        Outcome::Signaled(sig) => {
            let mut text = "signal(".to_owned();
            push_signed(&mut text, *sig as i64);
            text.append(")");
            assert(text@ =~= outcome_text(*outcome));
            text
        },
        Outcome::Deadlock { waiting_threads } => {
            let mut text = "deadlock(waiting threads [".to_owned();
            let ghost head = text@;
            let mut i: usize = 0;
            assert(text@ =~= head + list_text(waiting_threads@, 0));
            while i < waiting_threads.len()
                invariant
                    i <= waiting_threads@.len(),
                    text@ == head + list_text(waiting_threads@, i as int),
                decreases waiting_threads@.len() - i,
            {
                if i > 0 {
                    text.append(", ");
                }
                push_decimal(&mut text, waiting_threads[i] as u64);
                i += 1;
                assert(text@ =~= head + list_text(waiting_threads@, i as int));
            }
            text.append("])");
            assert(text@ =~= outcome_text(*outcome));
            text
        },
        Outcome::Timeout => "timeout".to_owned(),
    }
}

/// What a schedule does not control, in words.
pub open spec fn uncontrolled_text(what: Uncontrolled) -> Seq<char> {
    match what {
        Uncontrolled::Event { event, pid } => "ptrace event "@ + signed_text(event as int)
            + " on tid "@ + signed_text(pid as int),
        Uncontrolled::Syscall { nr, thread } => "syscall "@ + signed_text(nr as int)
            + " passed through on T"@ + decimal_text(thread as nat),
        Uncontrolled::Futex { op, thread } => "futex op "@ + decimal_text(op as nat)
            + " passed through on T"@ + decimal_text(thread as nat),
    }
}

/// What a schedule does not control, in words.
pub fn uncontrolled_name(what: Uncontrolled) -> (text: String)
    ensures
        text@ == uncontrolled_text(what),
{
    match what {
        Uncontrolled::Event { event, pid } => {
            let mut text = "ptrace event ".to_owned();
            push_signed(&mut text, event as i64);
            text.append(" on tid ");
            push_signed(&mut text, pid as i64);
            assert(text@ =~= uncontrolled_text(what));
            text
        },
        Uncontrolled::Syscall { nr, thread } => {
            let mut text = "syscall ".to_owned();
            push_signed(&mut text, nr);
            text.append(" passed through on T");
            push_decimal(&mut text, thread as u64);
            assert(text@ =~= uncontrolled_text(what));
            text
        },
        Uncontrolled::Futex { op, thread } => {
            let mut text = "futex op ".to_owned();
            push_decimal(&mut text, op);
            text.append(" passed through on T");
            push_decimal(&mut text, thread as u64);
            assert(text@ =~= uncontrolled_text(what));
            text
        },
    }
}

/// Two runs that end in the same class of outcome: the same exit code, the same signal, any
/// deadlock, or a timeout.
pub open spec fn same_class_spec(a: Outcome, b: Outcome) -> bool {
    match (a, b) {
        (Outcome::Exited(x), Outcome::Exited(y)) => x == y,
        (Outcome::Signaled(x), Outcome::Signaled(y)) => x == y,
        (Outcome::Deadlock { .. }, Outcome::Deadlock { .. }) => true,
        (Outcome::Timeout, Outcome::Timeout) => true,
        _ => false,
    }
}

pub fn same_class(a: &Outcome, b: &Outcome) -> (same: bool)
    ensures
        same == same_class_spec(*a, *b),
{
    match (a, b) {
        (Outcome::Exited(x), Outcome::Exited(y)) => *x == *y,
        (Outcome::Signaled(x), Outcome::Signaled(y)) => *x == *y,
        (Outcome::Deadlock { .. }, Outcome::Deadlock { .. }) => true,
        (Outcome::Timeout, Outcome::Timeout) => true,
        _ => false,
    }
}

/// Cost of a schedule for minimisation: departures first, then edges.
pub fn cost_of(report: &RunReport) -> (cost: usize)
    requires
        2 * report.decisions@.len() <= usize::MAX,
        departures(report.decisions@, report.decisions@.len() as int) * 1000 + report.edges as int
            / 1024 <= usize::MAX,
    ensures
        cost == departures(report.decisions@, report.decisions@.len() as int) * 1000
            + report.edges as int / 1024,
{
    report.non_zero_decisions() * 1000 + (report.edges / 1024) as usize
}

/// The feature of one event of a schedule: where in the schedule, which thread, what kind.
pub open spec fn schedule_feature(index: u64, thread: usize, point: u64) -> u64 {
    (index << 32) ^ ((thread as u64) << 16) ^ point
}

/// The features of a schedule; `points` holds a number for the kind of each event.
pub fn schedule_features(trace: &Vec<TraceEvent>, points: &Vec<u64>) -> (features: Vec<u64>)
    requires
        points@.len() == trace@.len(),
    ensures
        features@.len() == trace@.len(),
        forall|i: int|
            0 <= i < trace@.len() ==> #[trigger] features@[i] == schedule_feature(
                i as u64,
                trace@[i].thread,
                points@[i],
            ),
{
    let mut features: Vec<u64> = Vec::with_capacity(trace.len());
    let mut i: usize = 0;
    while i < trace.len()
        invariant
            i <= trace@.len() == points@.len(),
            features@.len() == i,
            forall|k: int|
                0 <= k < i ==> #[trigger] features@[k] == schedule_feature(
                    k as u64,
                    trace@[k].thread,
                    points@[k],
                ),
        decreases trace@.len() - i,
    {
        features.push(((i as u64) << 32) ^ ((trace[i].thread as u64) << 16) ^ points[i]);
        i += 1;
    }
    features
}

proof fn lemma_words_differ(a: u64, b: u64)
    requires
        word_bytes(a) == word_bytes(b),
    ensures
        a == b,
{
    let x = word_bytes(a);
    let y = word_bytes(b);
    crate::virtual_time::memory::words_round_trip(Seq::empty(), a, Seq::empty());
    crate::virtual_time::memory::words_round_trip(Seq::empty(), b, Seq::empty());
    assert(Seq::<u8>::empty() + x + Seq::<u8>::empty() =~= x);
    assert(Seq::<u8>::empty() + y + Seq::<u8>::empty() =~= y);
}

/// A word in front of other bytes can be told from them.
proof fn lemma_word_first(a: u64, s: Seq<u8>, b: u64, t: Seq<u8>)
    requires
        word_bytes(a) + s == word_bytes(b) + t,
    ensures
        a == b,
        s == t,
{
    let x = word_bytes(a) + s;
    let y = word_bytes(b) + t;
    assert(word_bytes(a) =~= x.take(8));
    assert(word_bytes(b) =~= y.take(8));
    assert(s =~= x.skip(8));
    assert(t =~= y.skip(8));
    lemma_words_differ(a, b);
}

proof fn lemma_signal_first(a: i32, s: Seq<u8>, b: i32, t: Seq<u8>)
    requires
        signal_bytes(a) + s == signal_bytes(b) + t,
    ensures
        a == b,
        s == t,
{
    let x = signal_bytes(a) + s;
    let y = signal_bytes(b) + t;
    assert(s =~= x.skip(4));
    assert(t =~= y.skip(4));
    assert(x[0] == signal_bytes(a)[0] && y[0] == signal_bytes(b)[0]);
    assert(x[1] == signal_bytes(a)[1] && y[1] == signal_bytes(b)[1]);
    assert(x[2] == signal_bytes(a)[2] && y[2] == signal_bytes(b)[2]);
    assert(x[3] == signal_bytes(a)[3] && y[3] == signal_bytes(b)[3]);
    let u = a as u32;
    let v = b as u32;
    assert(u == v) by (bit_vector)
        requires
            u as u8 == v as u8,
            (u >> 8u32) as u8 == (v >> 8u32) as u8,
            (u >> 16u32) as u8 == (v >> 16u32) as u8,
            (u >> 24u32) as u8 == (v >> 24u32) as u8,
    ;
    assert(a == b) by (bit_vector)
        requires
            a as u32 == b as u32,
    ;
}

proof fn lemma_kind_first(a: PointKind, s: Seq<u8>, b: PointKind, t: Seq<u8>)
    requires
        kind_bytes(a) + s == kind_bytes(b) + t,
    ensures
        a == b,
        s == t,
{
    let rest_a = match a {
        PointKind::Signal(signal) => signal_bytes(signal) + s,
        _ => s,
    };
    let rest_b = match b {
        PointKind::Signal(signal) => signal_bytes(signal) + t,
        _ => t,
    };
    assert(word_bytes(kind_code(a)) + rest_a =~= kind_bytes(a) + s);
    assert(word_bytes(kind_code(b)) + rest_b =~= kind_bytes(b) + t);
    lemma_word_first(kind_code(a), rest_a, kind_code(b), rest_b);
    if let PointKind::Signal(x) = a {
        if let PointKind::Signal(y) = b {
            lemma_signal_first(x, s, y, t);
        }
    }
}

proof fn lemma_event_first(a: TraceEvent, s: Seq<u8>, b: TraceEvent, t: Seq<u8>)
    requires
        event_bytes(a) + s == event_bytes(b) + t,
    ensures
        a == b,
        s == t,
{
    let edges_a = word_bytes(a.edges) + s;
    let edges_b = word_bytes(b.edges) + t;
    let kind_a = kind_bytes(a.kind) + edges_a;
    let kind_b = kind_bytes(b.kind) + edges_b;
    assert(word_bytes(a.thread as u64) + kind_a =~= event_bytes(a) + s);
    assert(word_bytes(b.thread as u64) + kind_b =~= event_bytes(b) + t);
    lemma_word_first(a.thread as u64, kind_a, b.thread as u64, kind_b);
    lemma_kind_first(a.kind, edges_a, b.kind, edges_b);
    lemma_word_first(a.edges, s, b.edges, t);
}

proof fn lemma_traces_differ(
    a: Seq<TraceEvent>,
    s: Seq<u8>,
    b: Seq<TraceEvent>,
    t: Seq<u8>,
    n: int,
)
    requires
        0 <= n <= a.len(),
        n <= b.len(),
        trace_bytes(a, n) + s == trace_bytes(b, n) + t,
    ensures
        a.take(n) == b.take(n),
        s == t,
    decreases n,
{
    if n > 0 {
        let e = a[n - 1];
        let f = b[n - 1];
        let last_a = event_bytes(e) + s;
        let last_b = event_bytes(f) + t;
        assert(trace_bytes(a, n - 1) + last_a =~= trace_bytes(a, n) + s);
        assert(trace_bytes(b, n - 1) + last_b =~= trace_bytes(b, n) + t);
        lemma_traces_differ(a, last_a, b, last_b, n - 1);
        lemma_event_first(e, s, f, t);
        assert(a.take(n) =~= a.take(n - 1).push(e));
        assert(b.take(n) =~= b.take(n - 1).push(f));
    } else {
        assert(a.take(0) =~= b.take(0));
        assert(trace_bytes(a, n) + s =~= s);
        assert(trace_bytes(b, n) + t =~= t);
    }
}

/// What is hashed of a schedule tells every schedule apart, whatever is hashed behind it: equal
/// bytes mean an equal trace and equal bytes behind it.
pub proof fn hashed_bytes_tell_traces_apart(
    a: Seq<TraceEvent>,
    s: Seq<u8>,
    b: Seq<TraceEvent>,
    t: Seq<u8>,
)
    requires
        a.len() <= u64::MAX,
        b.len() <= u64::MAX,
        hashed_trace(a) + s == hashed_trace(b) + t,
    ensures
        a == b,
        s == t,
{
    let rest_a = trace_bytes(a, a.len() as int) + s;
    let rest_b = trace_bytes(b, b.len() as int) + t;
    assert(word_bytes(a.len() as u64) + rest_a =~= hashed_trace(a) + s);
    assert(word_bytes(b.len() as u64) + rest_b =~= hashed_trace(b) + t);
    lemma_word_first(a.len() as u64, rest_a, b.len() as u64, rest_b);
    lemma_traces_differ(a, s, b, t, a.len() as int);
    assert(a.take(a.len() as int) =~= a);
    assert(b.take(b.len() as int) =~= b);
}

/// A schedule departs once for each choice of a thread other than the first and once for each
/// budget, so that a schedule without choices departs nowhere.
pub proof fn departures_count_choices(decisions: Seq<Decision>, n: int)
    requires
        0 <= n < decisions.len(),
    ensures
        departures(decisions, 0) == 0,
        decisions[n].pick == 0 && decisions[n].budget == 0 ==> departures(decisions, n + 1)
            == departures(decisions, n),
        (decisions[n].pick == 0) != (decisions[n].budget == 0) ==> departures(decisions, n + 1)
            == departures(decisions, n) + 1,
        decisions[n].pick != 0 && decisions[n].budget != 0 ==> departures(decisions, n + 1)
            == departures(decisions, n) + 2,
{
}

/// To end alike is to be in one class: each outcome ends like itself, and the relation goes both
/// ways and carries over.
pub proof fn ending_alike_is_an_equivalence(a: Outcome, b: Outcome, c: Outcome)
    ensures
        same_class_spec(a, a),
        same_class_spec(a, b) ==> same_class_spec(b, a),
        same_class_spec(a, b) && same_class_spec(b, c) ==> same_class_spec(a, c),
        a is Exited && b is Exited && same_class_spec(a, b) ==> a == b,
        a is Signaled && b is Signaled && same_class_spec(a, b) ==> a == b,
        same_class_spec(a, b) ==> (a is Exited <==> b is Exited) && (a is Signaled <==> b is Signaled)
            && (a is Deadlock <==> b is Deadlock) && (a is Timeout <==> b is Timeout),
{
}

/// A feature of a schedule names the place of its event, its thread and its kind, each in bits of
/// its own.
pub proof fn schedule_features_name_their_event(index: u64, thread: usize, point: u64)
    requires
        index < 0x1_0000_0000,
        thread < 0x1_0000,
        point < 0x1_0000,
    ensures
        schedule_feature(index, thread, point) / 0x1_0000_0000 == index,
        schedule_feature(index, thread, point) / 0x1_0000 % 0x1_0000 == thread,
        schedule_feature(index, thread, point) % 0x1_0000 == point,
{
    let t = thread as u64;
    let feature: u64 = (index << 32) ^ (t << 16) ^ point;
    assert(feature / 0x1_0000_0000 == index && feature / 0x1_0000 % 0x1_0000 == t && feature
        % 0x1_0000 == point) by (bit_vector)
        requires
            feature == (index << 32) ^ (t << 16) ^ point,
            index < 0x1_0000_0000,
            t < 0x1_0000,
            point < 0x1_0000,
    ;
}

} // verus!
