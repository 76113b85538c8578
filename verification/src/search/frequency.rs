//! How often each coverage identifier was seen.

use crate::coverage::CoverageId;
use rustc_hash::{FxBuildHasher, FxHashMap};
use vstd::prelude::*;

verus! {

/// The hasher of `rustc_hash`: a value of it is never looked into.
#[verifier::external_type_specification]
#[verifier::external_body]
pub struct ExFxBuildHasher(FxBuildHasher);

/// Nothing was seen yet.
pub open spec fn no_counts() -> Map<u64, u64> {
    Map::empty()
}

/// `FxHashMap::default`: a map without an entry.
#[verifier::external_body]
fn empty_map() -> (made: FxHashMap<u64, u64>)
    ensures
        made@ == no_counts(),
{
    FxHashMap::default()
}

/// `FxHashMap::get`: the value of a key, if the key is there.
#[verifier::external_body]
fn value_of(map: &FxHashMap<u64, u64>, key: u64) -> (value: Option<u64>)
    ensures
        value == if map@.dom().contains(key) {
            Some(map@[key])
        } else {
            None
        },
{
    map.get(&key).copied()
}

/// `FxHashMap::insert`: the key has the value from now on, and no other key changes.
#[verifier::external_body]
fn set_value(map: &mut FxHashMap<u64, u64>, key: u64, value: u64)
    ensures
        final(map)@ == old(map)@.insert(key, value),
{
    map.insert(key, value);
}

/// The counts of the coverage identifiers.
pub struct Frequencies {
    counts: FxHashMap<u64, u64>,
}

impl View for Frequencies {
    type V = Map<u64, u64>;

    closed spec fn view(&self) -> Map<u64, u64> {
        self.counts@
    }
}

/// How often an identifier was seen.
pub open spec fn frequency(counts: Map<u64, u64>, id: CoverageId) -> u64 {
    if counts.dom().contains(id.0) {
        counts[id.0]
    } else {
        0
    }
}

/// One more, where there is one more.
pub open spec fn one_more(count: u64) -> u64 {
    if count < u64::MAX {
        (count + 1) as u64
    } else {
        count
    }
}

/// The counts after each of the identifiers was seen once more.
pub open spec fn counted(counts: Map<u64, u64>, ids: Seq<CoverageId>) -> Map<u64, u64>
    decreases ids.len(),
{
    if ids.len() == 0 {
        counts
    } else {
        let before = counted(counts, ids.drop_last());
        before.insert(ids.last().0, one_more(frequency(before, ids.last())))
    }
}

impl Frequencies {
    pub fn new() -> (counts: Frequencies)
        ensures
            counts@ == no_counts(),
    {
        Frequencies { counts: empty_map() }
    }

    /// How often the identifier was seen.
    pub fn of(&self, id: CoverageId) -> (count: u64)
        ensures
            count == frequency(self@, id),
    {
        match value_of(&self.counts, id.raw()) {
            Some(count) => count,
            None => 0,
        }
    }

    /// Each of the identifiers was seen once more.
    pub fn count(&mut self, ids: &Vec<CoverageId>)
        ensures
            final(self)@ == counted(old(self)@, ids@),
    {
        let mut i: usize = 0;
        assert(ids@.take(0) =~= Seq::<CoverageId>::empty());
        while i < ids.len()
            invariant
                i <= ids@.len(),
                self@ == counted(old(self)@, ids@.take(i as int)),
            decreases ids@.len() - i,
        {
            let count: u64 = self.of(ids[i]);
            set_value(&mut self.counts, ids[i].raw(), count.saturating_add(1));
            assert(ids@.take(i + 1).drop_last() =~= ids@.take(i as int));
            i += 1;
        }
        assert(ids@.take(ids@.len() as int) =~= ids@);
    }
}

/// To count identifiers raises the count of each of them by one, and of no other.
pub proof fn counting_counts(counts: Map<u64, u64>, ids: Seq<CoverageId>, id: CoverageId)
    requires
        ids.no_duplicates(),
    ensures
        frequency(counted(counts, ids), id) == if ids.contains(id) {
            one_more(frequency(counts, id))
        } else {
            frequency(counts, id)
        },
    decreases ids.len(),
{
    if ids.len() > 0 {
        let fewer = ids.drop_last();
        let last = ids.last();
        assert(fewer.no_duplicates());
        counting_counts(counts, fewer, id);
        counting_counts(counts, fewer, last);
        assert(!fewer.contains(last)) by {
            if fewer.contains(last) {
                let i = choose|i: int| 0 <= i < fewer.len() && fewer[i] == last;
                assert(ids[i] == ids[ids.len() - 1]);
            }
        }
        if id == last {
            assert(ids[ids.len() - 1] == id);
        } else {
            assert(id.0 != last.0);
            if ids.contains(id) {
                let i = choose|i: int| 0 <= i < ids.len() && ids[i] == id;
                assert(fewer[i] == id);
            }
            if fewer.contains(id) {
                let i = choose|i: int| 0 <= i < fewer.len() && fewer[i] == id;
                assert(ids[i] == id);
            }
        }
    }
}

} // verus!
