//! The words and the edge bitmap that a scheduled program shares with its supervisor.
//!
//! ```text
//! offset 0      u32 budget        (0 = unlimited, n = preempt after n more edges)
//! offset 8      u64 edges         (edge counter of the process)
//! offset 16     u64 marker_hits   (number of yield markers issued)
//! offset 4096   bitmap            (bit i = guard i was hit)
//! ```

use vstd::prelude::*;

use crate::coverage::{CoverageId, CoverageSet, ExecutionFeedback};

verus! {

pub const HEADER_BYTES: usize = 4096;

pub const BITMAP_BYTES: usize = 1_048_576;

pub const SHM_BYTES: usize = 1_052_672;

/// First argument of the yield marker.
pub const MARKER_MAGIC: u64 = 0x5eed_5ced;

/// Features above this bit stand for schedule events, not for edges.
pub const EXTRA_FEATURE_BIT: u64 = 1_099_511_627_776;

/// Guard `id` is set in the bitmap.
pub open spec fn guard_hit(bitmap: Seq<u8>, id: int) -> bool {
    (bitmap[id / 8] >> ((id % 8) as u8)) & 1u8 == 1u8
}

/// The guards below `n` that are set, in ascending order.
pub open spec fn guards_below(bitmap: Seq<u8>, n: int) -> Seq<u32>
    decreases n,
{
    if n <= 0 {
        Seq::empty()
    } else if guard_hit(bitmap, n - 1) {
        guards_below(bitmap, n - 1).push((n - 1) as u32)
    } else {
        guards_below(bitmap, n - 1)
    }
}

/// Indices of the set bits of the bitmap.
pub fn hit_guards(bitmap: &Vec<u8>) -> (guards: Vec<u32>)
    requires
        bitmap.len() <= BITMAP_BYTES,
    ensures
        guards@ == guards_below(bitmap@, 8 * bitmap@.len() as int),
{
    let mut out: Vec<u32> = Vec::new();
    let mut byte: usize = 0;
    while byte < bitmap.len()
        invariant
            byte <= bitmap.len() <= BITMAP_BYTES,
            out@ == guards_below(bitmap@, 8 * byte),
        decreases bitmap.len() - byte,
    {
        let bits = bitmap[byte];
        if bits == 0 {
            proof {
                lemma_no_guards(bitmap@, 8 * byte as int, 8);
            }
        } else {
            let mut bit: u32 = 0;
            while bit < 8
                invariant
                    bit <= 8,
                    byte < bitmap.len() <= BITMAP_BYTES,
                    bits == bitmap@[byte as int],
                    out@ == guards_below(bitmap@, 8 * byte + bit),
                decreases 8 - bit,
            {
                assert((8 * byte + bit) / 8 == byte && (8 * byte + bit) % 8 == bit);
                if (bits >> (bit as u8)) & 1u8 == 1u8 {
                    out.push(8 * byte as u32 + bit);
                }
                bit += 1;
            }
        }
        byte += 1;
    }
    out
}

proof fn lemma_no_guards(bitmap: Seq<u8>, from: int, count: int)
    requires
        from % 8 == 0,
        0 <= from,
        0 <= count <= 8,
        bitmap[from / 8] == 0,
    ensures
        guards_below(bitmap, from + count) == guards_below(bitmap, from),
    decreases count,
{
    if count > 0 {
        lemma_no_guards(bitmap, from, count - 1);
        let id = from + count - 1;
        assert(id / 8 == from / 8);
        let shift = (id % 8) as u8;
        assert((0u8 >> shift) & 1u8 == 0u8) by (bit_vector);
    }
}

/// Features of one run: the guards that were hit, and the extra ones of the harness.
pub open spec fn run_features(guards: Seq<u32>, extra: Seq<u64>) -> Set<CoverageId> {
    Set::new(
        |id: CoverageId|
            (exists|i: int| 0 <= i < guards.len() && id == CoverageId(#[trigger] guards[i] as u64))
                || (exists|i: int|
                0 <= i < extra.len() && id == CoverageId(EXTRA_FEATURE_BIT | #[trigger] extra[i])),
    )
}

/// Turn one run's guards, extra features and edge count into feedback.
pub fn shm_feedback(guards: &Vec<u32>, extra: &Vec<u64>, edges: u64) -> (feedback:
    ExecutionFeedback)
    ensures
        feedback.features@ == run_features(guards@, extra@),
        feedback.hit_count_weight == edges,
        feedback.dictionary@ == Seq::<Vec<u8>>::empty(),
{
    let mut set = CoverageSet::new();
    let mut i: usize = 0;
    while i < guards.len()
        invariant
            i <= guards.len(),
            forall|id: CoverageId| #[trigger]
                set@.contains(id) == (exists|k: int|
                    0 <= k < i && id == CoverageId(#[trigger] guards@[k] as u64)),
        decreases guards.len() - i,
    {
        set.insert(CoverageId::new(guards[i] as u64));
        i += 1;
    }
    let mut j: usize = 0;
    while j < extra.len()
        invariant
            j <= extra.len(),
            forall|id: CoverageId| #[trigger]
                set@.contains(id) == ((exists|k: int|
                    0 <= k < guards.len() && id == CoverageId(#[trigger] guards@[k] as u64)) || (
                exists|k: int|
                    0 <= k < j && id == CoverageId(EXTRA_FEATURE_BIT | #[trigger] extra@[k]))),
        decreases extra.len() - j,
    {
        set.insert(CoverageId::new(EXTRA_FEATURE_BIT | extra[j]));
        j += 1;
    }
    assert(set@ =~= run_features(guards@, extra@));
    ExecutionFeedback::from_features(set).with_hit_count_weight(edges)
}

/// Coverage of one case at a time, out of the mapping that the program shares.
#[derive(Debug)]
pub struct ShmCoverage {
    /// Features that the harness adds to the case.
    pub extra: Vec<u64>,
}

impl ShmCoverage {
    /// Coverage without features of the harness.
    pub fn new() -> (capture: ShmCoverage)
        ensures
            capture.extra@.len() == 0,
    {
        ShmCoverage { extra: Vec::new() }
    }

    /// Adds features of the harness to the case.
    pub fn add_features(&mut self, ids: Vec<u64>)
        ensures
            final(self).extra@ == old(self).extra@ + ids@,
    {
        let mut ids = ids;
        self.extra.append(&mut ids);
    }

    /// A case starts, or is given up: the features of the harness are forgotten.
    pub fn reset(&mut self)
        ensures
            final(self).extra@.len() == 0,
    {
        self.extra = Vec::new();
    }

    /// A case ends with this bitmap and so many edges.
    pub fn finish(&mut self, bitmap: &Vec<u8>, edges: u64) -> (feedback: ExecutionFeedback)
        requires
            bitmap@.len() <= BITMAP_BYTES,
        ensures
            feedback.features@ == run_features(
                guards_below(bitmap@, 8 * bitmap@.len() as int),
                old(self).extra@,
            ),
            feedback.hit_count_weight == edges,
            feedback.dictionary@ == Seq::<Vec<u8>>::empty(),
            final(self).extra@.len() == 0,
    {
        let guards = hit_guards(bitmap);
        let feedback = shm_feedback(&guards, &self.extra, edges);
        self.extra = Vec::new();
        feedback
    }
}

/// The words of the target side that one edge touches.
#[derive(Debug, Clone, Copy, PartialEq, Eq, Structural)]
pub struct Header {
    pub budget: u32,
    pub edges: u64,
    pub marker_hits: u64,
}

/// The thread has used up its edges and must issue the yield marker.
pub open spec fn budget_ends(header: Header) -> bool {
    header.budget == 1
}

/// The words after one more edge: a budget that is not unlimited gets smaller.
pub open spec fn edge_counted(header: Header) -> Header {
    Header {
        budget: if header.budget == 0 {
            0
        } else {
            (header.budget - 1) as u32
        },
        edges: (header.edges + 1) as u64,
        marker_hits: if budget_ends(header) {
            (header.marker_hits + 1) as u64
        } else {
            header.marker_hits
        },
    }
}

/// One instrumented edge with guard `id` runs: mark it, count it, and take it off the budget. A
/// guard outside the bitmap leaves everything as it is. Says whether the thread must yield.
pub fn on_edge(header: &mut Header, bitmap: &mut Vec<u8>, id: u32) -> (yields: bool)
    requires
        old(bitmap).len() == BITMAP_BYTES,
        old(header).edges < u64::MAX,
        old(header).marker_hits < u64::MAX,
    ensures
        id >= 8 * BITMAP_BYTES ==> !yields && *final(header) == *old(header) && final(bitmap)@
            == old(bitmap)@,
        id < 8 * BITMAP_BYTES ==> {
            &&& yields == budget_ends(*old(header))
            &&& *final(header) == edge_counted(*old(header))
            &&& final(bitmap)@ == old(bitmap)@.update(
                id as int / 8,
                old(bitmap)@[id as int / 8] | (1u8 << ((id % 8) as u8)),
            )
        },
{
    match guard_place(id) {
        None => false,
        Some((at, mask)) => {
            let bits = bitmap[at] | mask;
            bitmap.set(at, bits);
            header.count_edge()
        },
    }
}

/// The byte of the bitmap and the bit in it that stand for a guard, if the bitmap has room.
pub fn guard_place(id: u32) -> (place: Option<(usize, u8)>)
    ensures
        id >= 8 * BITMAP_BYTES ==> place is None,
        id < 8 * BITMAP_BYTES ==> place == Some(
            ((id / 8) as usize, 1u8 << ((id % 8) as u8)),
        ),
{
    if id >= 8_388_608 {
        None
    } else {
        Some(((id / 8) as usize, 1u8 << ((id % 8) as u8)))
    }
}

impl Header {
    /// Counts an edge; whether the running thread yields after it.
    pub fn count_edge(&mut self) -> (yields: bool)
        requires
            old(self).edges < u64::MAX,
            old(self).marker_hits < u64::MAX,
        ensures
            yields == budget_ends(*old(self)),
            *final(self) == edge_counted(*old(self)),
    {
        self.edges = self.edges + 1;
        if self.budget == 0 {
            return false;
        }
        if self.budget == 1 {
            self.budget = 0;
            self.marker_hits = self.marker_hits + 1;
            true
        } else {
            self.budget = self.budget - 1;
            false
        }
    }
}

/// An edge marks its own guard and disturbs no other.
pub proof fn edges_mark_their_guard(bitmap: Seq<u8>, id: u32, other: int)
    requires
        bitmap.len() == BITMAP_BYTES,
        id < 8 * BITMAP_BYTES,
        0 <= other < 8 * BITMAP_BYTES,
    ensures
        ({
            let after = bitmap.update(
                id as int / 8,
                bitmap[id as int / 8] | (1u8 << ((id % 8) as u8)),
            );
            guard_hit(after, other) == (guard_hit(bitmap, other) || other == id)
        }),
{
    let byte = bitmap[id as int / 8];
    let shift = (id % 8) as u8;
    let look = (other % 8) as u8;
    if other / 8 == id as int / 8 {
        assert(shift < 8 && look < 8);
        assert(((byte | (1u8 << shift)) >> look) & 1u8 == (if shift == look {
            1u8
        } else {
            (byte >> look) & 1u8
        })) by (bit_vector)
            requires
                shift < 8u8,
                look < 8u8,
        ;
        assert(other == id as int <==> shift == look);
    } else {
        assert(other != id as int);
    }
}

/// Number the guards of one module: each unset range gets the next ids. `next` is the first id not
/// given yet; a module whose first guard is set already keeps its ids.
pub fn assign_guards(guards: &mut Vec<u32>, next: u32) -> (after: u32)
    requires
        next + old(guards).len() <= u32::MAX,
    ensures
        final(guards)@.len() == old(guards)@.len(),
        old(guards)@.len() == 0 || old(guards)@[0] != 0 ==> after == next && final(guards)@ == old(
            guards,
        )@,
        old(guards)@.len() > 0 && old(guards)@[0] == 0 ==> after == next + old(guards)@.len()
            && forall|i: int|
            0 <= i < old(guards)@.len() ==> #[trigger] final(guards)@[i] == next + i,
{
    if guards.len() == 0 || guards[0] != 0 {
        return next;
    }
    let count: usize = guards.len();
    let mut i: usize = 0;
    while i < count
        invariant
            i <= count == guards.len() == old(guards)@.len(),
            next + count <= u32::MAX,
            forall|k: int| 0 <= k < i ==> #[trigger] guards@[k] == next + k,
        decreases count - i,
    {
        guards.set(i, next + i as u32);
        i += 1;
    }
    next + count as u32
}

/// Number of guards given out when `next` is the first id not given yet; ids start at one.
pub fn guard_count(next: u32) -> (count: u32)
    requires
        next >= 1,
    ensures
        count == next - 1,
{
    next - 1
}

/// Parse the decimal descriptor number that names the shared mapping; `None` where a byte is no
/// digit or the number does not fit.
pub fn parse_fd(text: &Vec<u8>) -> (fd: Option<i32>)
    ensures
        fd == fd_value(text@),
{
    let mut value: i64 = 0;
    let mut i: usize = 0;
    assert(text@.take(0) =~= Seq::<u8>::empty());
    while i < text.len()
        invariant
            i <= text.len(),
            0 <= value <= i32::MAX,
            fd_value(text@.take(i as int)) == Some(value as i32),
        decreases text.len() - i,
    {
        let byte = text[i];
        assert(text@.take(i + 1).drop_last() =~= text@.take(i as int));
        if byte < 48 || byte > 57 {
            proof {
                lemma_fd_fails(text@, i + 1);
            }
            return None;
        }
        value = 10 * value + (byte - 48) as i64;
        if value > 2_147_483_647 {
            proof {
                lemma_fd_fails(text@, i + 1);
            }
            return None;
        }
        i += 1;
    }
    assert(text@.take(text@.len() as int) =~= text@);
    Some(value as i32)
}

/// Value of a decimal number that fits 31 bits; the empty text is zero.
pub open spec fn fd_value(text: Seq<u8>) -> Option<i32>
    decreases text.len(),
{
    if text.len() == 0 {
        Some(0)
    } else {
        match fd_value(text.drop_last()) {
            Some(v) => if 48 <= text.last() <= 57 && 10 * v + (text.last() - 48) <= i32::MAX {
                Some((10 * v + (text.last() - 48)) as i32)
            } else {
                None
            },
            None => None,
        }
    }
}

proof fn lemma_fd_fails(text: Seq<u8>, n: int)
    requires
        0 <= n <= text.len(),
        fd_value(text.take(n)) is None,
    ensures
        fd_value(text) is None,
    decreases text.len() - n,
{
    if n == text.len() {
        assert(text.take(n) =~= text);
    } else {
        assert(text.take(n + 1).drop_last() =~= text.take(n));
        lemma_fd_fails(text, n + 1);
    }
}

/// A budget of so many edges ends at the last of them: each edge before it leaves one less, and an
/// unlimited one stays unlimited and never ends.
pub proof fn budgets_count_down(header: Header)
    requires
        header.edges < u64::MAX,
        header.marker_hits < u64::MAX,
    ensures
        edge_counted(header).edges == header.edges + 1,
        header.budget == 0 ==> edge_counted(header).budget == 0 && !budget_ends(header),
        header.budget > 0 ==> edge_counted(header).budget == header.budget - 1,
        budget_ends(header) <==> header.budget == 1,
        edge_counted(header).marker_hits - header.marker_hits == if header.budget == 1 {
            1int
        } else {
            0
        },
{
}

/// The guards that are listed are those that are set, each once and in ascending order.
pub proof fn listed_guards_are_set(bitmap: Seq<u8>, n: int, id: u32)
    requires
        0 <= n <= 0x1_0000_0000,
    ensures
        guards_below(bitmap, n).contains(id) <==> id < n && guard_hit(bitmap, id as int),
        forall|k: int|
            0 <= k < guards_below(bitmap, n).len() ==> #[trigger] guards_below(bitmap, n)[k] < n,
        forall|a: int, b: int|
            0 <= a < b < guards_below(bitmap, n).len() ==> #[trigger] guards_below(bitmap, n)[a]
                < #[trigger] guards_below(bitmap, n)[b],
    decreases n,
{
    if n > 0 {
        listed_guards_are_set(bitmap, n - 1, id);
        let before = guards_below(bitmap, n - 1);
        let list = guards_below(bitmap, n);
        assert forall|k: int| 0 <= k < list.len() implies #[trigger] list[k] < n by {
            if k < before.len() {
                assert(list[k] == before[k]);
            }
        }
        assert forall|a: int, b: int| 0 <= a < b < list.len() implies #[trigger] list[a]
            < #[trigger] list[b] by {
            assert(list[a] == before[a]);
            if b < before.len() {
                assert(list[b] == before[b]);
            }
        }
        if list.contains(id) {
            let k = choose|k: int| 0 <= k < list.len() && list[k] == id;
            if k < before.len() {
                assert(before[k] == id);
                assert(before.contains(id));
            }
        }
        if id < n && guard_hit(bitmap, id as int) {
            if id < n - 1 {
                let k = choose|k: int| 0 <= k < before.len() && before[k] == id;
                assert(list[k] == id);
            } else {
                assert(list[list.len() - 1] == id);
            }
        }
    }
}

/// A descriptor number is read from its decimal digits.
pub proof fn descriptors_are_read_back(text: Seq<u8>, fd: i32, digit: u8)
    requires
        fd_value(text) == Some(fd),
    ensures
        48 <= digit <= 57 && 10 * fd + (digit - 48) <= i32::MAX ==> fd_value(text.push(digit))
            == Some((10 * fd + (digit - 48)) as i32),
        !(48 <= digit <= 57) ==> fd_value(text.push(digit)) is None,
        10 * fd + (digit - 48) > i32::MAX ==> fd_value(text.push(digit)) is None,
{
    assert(text.push(digit).drop_last() =~= text);
}

} // verus!
