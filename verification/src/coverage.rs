//! Coverage features, the sets they form, and the capture backends that report them.

use vstd::prelude::*;

verus! {

/// Stable identifier for one coverage feature.
#[derive(Debug, Clone, Copy, PartialEq, Eq, PartialOrd, Ord, Hash, Structural)]
pub struct CoverageId(pub u64);

impl CoverageId {
    /// Construct a coverage ID from a raw feature key.
    pub fn new(raw: u64) -> (id: Self)
        ensures
            id == CoverageId(raw),
    {
        Self(raw)
    }

    /// Raw feature key behind this coverage ID.
    pub fn raw(self) -> (raw: u64)
        ensures
            raw == self.0,
    {
        self.0
    }
}

/// The IDs ascend strictly, so none occurs twice.
pub open spec fn strictly_ascending(ids: Seq<CoverageId>) -> bool {
    forall|i: int, j: int| 0 <= i < j < ids.len() ==> ids[i].0 < ids[j].0
}

/// Coverage observed during one execution.
#[derive(Debug)]
pub struct CoverageSet {
    ids: Vec<CoverageId>,
}

impl View for CoverageSet {
    type V = Set<CoverageId>;

    closed spec fn view(&self) -> Set<CoverageId> {
        self.ids@.to_set()
    }
}

/// A set of coverage is finite.
pub proof fn coverage_is_finite(set: CoverageSet)
    ensures
        set@.finite(),
{
    vstd::seq_lib::seq_to_set_is_finite(set.ids@);
}

impl CoverageSet {
    #[verifier::type_invariant]
    spec fn inv(self) -> bool {
        strictly_ascending(self.ids@)
    }

    /// Create an empty coverage set.
    pub fn new() -> (set: Self)
        ensures
            set@ == Set::<CoverageId>::empty(),
    {
        let set = Self { ids: Vec::new() };
        assert(set@ =~= Set::<CoverageId>::empty());
        set
    }

    /// Insert one ID. Returns `true` if it was not already present.
    pub fn insert(&mut self, id: CoverageId) -> (fresh: bool)
        ensures
            final(self)@ == old(self)@.insert(id),
            fresh == !old(self)@.contains(id),
    {
        proof {
            use_type_invariant(&*self);
        }
        let index = lower_bound(&self.ids, id);
        if index < self.ids.len() && self.ids[index].0 == id.0 {
            assert(self.ids@[index as int] == id);
            assert(self@ =~= self@.insert(id));
            false
        } else {
            let ghost before = self.ids@;
            let mut ids: Vec<CoverageId> = Vec::new();
            std::mem::swap(&mut ids, &mut self.ids);
            ids.insert(index, id);
            proof {
                assert(ids@ == before.insert(index as int, id));
                lemma_to_set_insert(before, index as int, id);
                if before.contains(id) {
                    let k = choose|k: int| 0 <= k < before.len() && before[k] == id;
                    assert(before[k].0 == id.0);
                }
            }
            self.ids = ids;
            true
        }
    }

    /// Extend this set with the given IDs, in any order and with any repetition.
    pub fn extend(&mut self, ids: Vec<CoverageId>)
        ensures
            final(self)@ == old(self)@.union(ids@.to_set()),
    {
        proof {
            use_type_invariant(&*self);
        }
        if ids.len() == 0 {
            assert(self@ =~= self@.union(ids@.to_set()));
            return;
        }
        let incoming = sorted_unique(&ids, 0, ids.len());
        assert(ids@.subrange(0, ids@.len() as int) =~= ids@);
        let merged = merge_unique(&self.ids, &incoming);
        self.ids = merged;
    }

    /// Number of unique IDs in this set.
    pub fn len(&self) -> (len: usize)
        ensures
            self@.finite(),
            len == self@.len(),
    {
        proof {
            use_type_invariant(self);
            assert(self.ids@.no_duplicates());
            self.ids@.unique_seq_to_set();
        }
        self.ids.len()
    }

    /// Returns `true` if this set has no coverage IDs.
    pub fn is_empty(&self) -> (empty: bool)
        ensures
            empty == (self@ == Set::<CoverageId>::empty()),
    {
        proof {
            if self.ids@.len() == 0 {
                assert(self@ =~= Set::<CoverageId>::empty());
            } else {
                assert(self@.contains(self.ids@[0]));
            }
        }
        self.ids.len() == 0
    }

    /// The coverage IDs, in ascending order.
    pub fn iter(&self) -> (ids: &Vec<CoverageId>)
        ensures
            strictly_ascending(ids@),
            ids@.to_set() == self@,
    {
        proof {
            use_type_invariant(self);
        }
        &self.ids
    }

    /// Returns `true` if `id` was covered.
    pub fn contains(&self, id: CoverageId) -> (found: bool)
        ensures
            found == self@.contains(id),
    {
        proof {
            use_type_invariant(self);
        }
        let index = lower_bound(&self.ids, id);
        let found = index < self.ids.len() && self.ids[index].0 == id.0;
        proof {
            if found {
                assert(self.ids@[index as int] == id);
            } else if self.ids@.contains(id) {
                let k = choose|k: int| 0 <= k < self.ids@.len() && self.ids@[k] == id;
                assert(self.ids@[k].0 == id.0);
            }
        }
        found
    }

    /// Returns `true` if every ID of `other` is in this set.
    pub fn is_superset(&self, other: &Self) -> (superset: bool)
        ensures
            superset == other@.subset_of(self@),
    {
        let missing = other.difference(self);
        let superset = missing.is_empty();
        proof {
            if superset {
                assert forall|id: CoverageId| other@.contains(id) implies self@.contains(id) by {
                    if !self@.contains(id) {
                        assert(missing@.contains(id));
                    }
                }
            } else {
                if other@.subset_of(self@) {
                    assert(missing@ =~= Set::<CoverageId>::empty());
                }
            }
        }
        superset
    }

    /// The IDs of this set that `other` lacks.
    pub fn difference(&self, other: &Self) -> (rest: Self)
        ensures
            rest@ == self@.difference(other@),
    {
        proof {
            use_type_invariant(self);
            use_type_invariant(other);
        }
        let mut ids: Vec<CoverageId> = Vec::new();
        let mut left: usize = 0;
        let mut right: usize = 0;
        let ghost mine = self.ids@;
        let ghost theirs = other.ids@;
        while left < self.ids.len()
            invariant
                mine == self.ids@,
                theirs == other.ids@,
                strictly_ascending(mine),
                strictly_ascending(theirs),
                0 <= left <= mine.len(),
                0 <= right <= theirs.len(),
                strictly_ascending(ids@),
                forall|k: int|
                    0 <= k < right && left < mine.len() ==> (#[trigger] theirs[k]).0 < mine[left as int].0,
                forall|k: int, i: int|
                    0 <= k < ids.len() && left <= i < mine.len() ==> (#[trigger] ids@[k]).0 < (
                    #[trigger] mine[i]).0,
                forall|k: int| 0 <= k < ids.len() ==> mine.contains(#[trigger] ids@[k]),
                forall|k: int| 0 <= k < ids.len() ==> !theirs.contains(#[trigger] ids@[k]),
                forall|i: int|
                    0 <= i < left && !theirs.contains(#[trigger] mine[i]) ==> ids@.contains(mine[i]),
            decreases mine.len() - left,
        {
            while right < other.ids.len() && other.ids[right].0 < self.ids[left].0
                invariant
                    theirs == other.ids@,
                    mine == self.ids@,
                    left < mine.len(),
                    0 <= right <= theirs.len(),
                    forall|k: int| 0 <= k < right ==> (#[trigger] theirs[k]).0 < mine[left as int].0,
                decreases theirs.len() - right,
            {
                right += 1;
            }
            let ghost before = ids@;
            let id = self.ids[left];
            if right == other.ids.len() || id.0 < other.ids[right].0 {
                ids.push(id);
                proof {
                    assert(mine[left as int] == id);
                    if theirs.contains(id) {
                        let k = choose|k: int| 0 <= k < theirs.len() && theirs[k] == id;
                        assert(theirs[k].0 == id.0);
                    }
                    assert(ids@[before.len() as int] == id);
                    assert forall|i: int|
                        0 <= i < left + 1 && !theirs.contains(#[trigger] mine[i]) implies ids@.contains(
                        mine[i],
                    ) by {
                        if i < left {
                            let k = choose|k: int| 0 <= k < before.len() && before[k] == mine[i];
                            assert(ids@[k] == mine[i]);
                        }
                    }
                }
            } else {
                assert(theirs[right as int] == mine[left as int]);
            }
            left += 1;
        }
        proof {
            assert forall|id: CoverageId|
                ids@.to_set().contains(id) == self@.difference(other@).contains(id) by {
                if ids@.contains(id) {
                    let k = choose|k: int| 0 <= k < ids.len() && ids@[k] == id;
                    assert(mine.contains(ids@[k]));
                }
                if mine.contains(id) && !theirs.contains(id) {
                    let i = choose|i: int| 0 <= i < mine.len() && mine[i] == id;
                    assert(ids@.contains(mine[i]));
                }
            }
            assert(ids@.to_set() =~= self@.difference(other@));
        }
        Self { ids }
    }

    /// The set of the given IDs, in any order and with any repetition.
    pub fn from_unsorted(ids: Vec<CoverageId>) -> (set: Self)
        ensures
            set@ == ids@.to_set(),
    {
        let sorted = sorted_unique(&ids, 0, ids.len());
        assert(ids@.subrange(0, ids@.len() as int) =~= ids@);
        Self { ids: sorted }
    }
}

impl Clone for CoverageSet {
    fn clone(&self) -> (copy: Self)
        ensures
            copy@ == self@,
    {
        proof {
            use_type_invariant(self);
        }
        let ids = self.ids.clone();
        assert(ids@ =~= self.ids@);
        Self { ids }
    }
}

impl Default for CoverageSet {
    fn default() -> (set: Self)
        ensures
            set@ == Set::<CoverageId>::empty(),
    {
        Self::new()
    }
}

impl PartialEq for CoverageSet {
    fn eq(&self, other: &Self) -> (same: bool) {
        self.is_superset(other) && other.is_superset(self)
    }
}

impl vstd::std_specs::cmp::PartialEqSpecImpl for CoverageSet {
    open spec fn obeys_eq_spec() -> bool {
        true
    }

    open spec fn eq_spec(&self, other: &Self) -> bool {
        other@.subset_of(self@) && self@.subset_of(other@)
    }
}

impl Eq for CoverageSet {

}

/// First index whose ID is not below `id`.
fn lower_bound(ids: &Vec<CoverageId>, id: CoverageId) -> (index: usize)
    requires
        strictly_ascending(ids@),
    ensures
        index <= ids.len(),
        forall|k: int| 0 <= k < index ==> (#[trigger] ids@[k]).0 < id.0,
        forall|k: int| index <= k < ids.len() ==> id.0 <= (#[trigger] ids@[k]).0,
{
    let mut low: usize = 0;
    let mut high: usize = ids.len();
    while low < high
        invariant
            low <= high <= ids.len(),
            strictly_ascending(ids@),
            forall|k: int| 0 <= k < low ==> (#[trigger] ids@[k]).0 < id.0,
            forall|k: int| high <= k < ids.len() ==> id.0 <= (#[trigger] ids@[k]).0,
        decreases high - low,
    {
        let mid: usize = low + (high - low) / 2;
        if ids[mid].0 < id.0 {
            low = mid + 1;
        } else {
            high = mid;
        }
    }
    low
}

/// Merge two strictly ascending lists into one, keeping one copy of what both hold.
fn merge_unique(left: &Vec<CoverageId>, right: &Vec<CoverageId>) -> (out: Vec<CoverageId>)
    requires
        strictly_ascending(left@),
        strictly_ascending(right@),
    ensures
        strictly_ascending(out@),
        out@.to_set() == left@.to_set().union(right@.to_set()),
{
    let mut out: Vec<CoverageId> = Vec::new();
    let mut i: usize = 0;
    let mut j: usize = 0;
    while i < left.len() || j < right.len()
        invariant
            strictly_ascending(left@),
            strictly_ascending(right@),
            i <= left.len(),
            j <= right.len(),
            strictly_ascending(out@),
            forall|k: int, a: int|
                0 <= k < out.len() && i <= a < left.len() ==> (#[trigger] out@[k]).0 < (
                #[trigger] left@[a]).0,
            forall|k: int, b: int|
                0 <= k < out.len() && j <= b < right.len() ==> (#[trigger] out@[k]).0 < (
                #[trigger] right@[b]).0,
            out@.to_set() == left@.take(i as int).to_set().union(right@.take(j as int).to_set()),
        decreases left.len() - i + right.len() - j,
    {
        let take_left = j == right.len() || (i < left.len() && left[i].0 <= right[j].0);
        let take_right = i == left.len() || (j < right.len() && right[j].0 <= left[i].0);
        let id = if take_left {
            left[i]
        } else {
            right[j]
        };
        let ghost before = out@;
        let ghost (i0, j0) = (i as int, j as int);
        out.push(id);
        if take_left {
            i += 1;
        }
        if take_right {
            j += 1;
        }
        proof {
            lemma_to_set_push(before, id);
            if take_left {
                assert(left@.take(i as int) =~= left@.take(i0).push(id));
                lemma_to_set_push(left@.take(i0), id);
            }
            if take_right {
                assert(right@.take(j as int) =~= right@.take(j0).push(id));
                lemma_to_set_push(right@.take(j0), id);
            }
            assert(out@.to_set() =~= left@.take(i as int).to_set().union(
                right@.take(j as int).to_set(),
            ));
        }
    }
    assert(left@.take(left@.len() as int) =~= left@);
    assert(right@.take(right@.len() as int) =~= right@);
    out
}

/// The IDs at positions `from..to`, sorted and without repetition.
fn sorted_unique(ids: &Vec<CoverageId>, from: usize, to: usize) -> (out: Vec<CoverageId>)
    requires
        from <= to <= ids.len(),
    ensures
        strictly_ascending(out@),
        out@.to_set() == ids@.subrange(from as int, to as int).to_set(),
    decreases to - from,
{
    let ghost part = ids@.subrange(from as int, to as int);
    if to - from == 0 {
        let out: Vec<CoverageId> = Vec::new();
        assert(out@ =~= part);
        out
    } else if to - from == 1 {
        let mut out: Vec<CoverageId> = Vec::new();
        out.push(ids[from]);
        assert(out@ =~= part);
        out
    } else {
        let mid: usize = from + (to - from) / 2;
        let left = sorted_unique(ids, from, mid);
        let right = sorted_unique(ids, mid, to);
        proof {
            let a = ids@.subrange(from as int, mid as int);
            let b = ids@.subrange(mid as int, to as int);
            assert(part =~= a + b);
            vstd::seq_lib::seq_to_set_distributes_over_add(a, b);
        }
        merge_unique(&left, &right)
    }
}

proof fn lemma_to_set_push(ids: Seq<CoverageId>, id: CoverageId)
    ensures
        ids.push(id).to_set() == ids.to_set().insert(id),
{
    let grown = ids.push(id);
    assert forall|x: CoverageId| grown.contains(x) == (ids.contains(x) || x == id) by {
        if ids.contains(x) {
            let k = choose|k: int| 0 <= k < ids.len() && ids[k] == x;
            assert(grown[k] == x);
        }
        if x == id {
            assert(grown[ids.len() as int] == x);
        }
    }
    assert(grown.to_set() =~= ids.to_set().insert(id));
}

proof fn lemma_to_set_insert(ids: Seq<CoverageId>, at: int, id: CoverageId)
    requires
        0 <= at <= ids.len(),
    ensures
        ids.insert(at, id).to_set() == ids.to_set().insert(id),
{
    let grown = ids.insert(at, id);
    assert forall|x: CoverageId| grown.contains(x) == (ids.contains(x) || x == id) by {
        if ids.contains(x) {
            let k = choose|k: int| 0 <= k < ids.len() && ids[k] == x;
            assert(grown[if k < at { k } else { k + 1 }] == x);
        }
        if x == id {
            assert(grown[at] == x);
        }
        if grown.contains(x) && x != id {
            let k = choose|k: int| 0 <= k < grown.len() && grown[k] == x;
            assert(ids[if k < at { k } else { k - 1 }] == x);
        }
    }
    assert(grown.to_set() =~= ids.to_set().insert(id));
}

/// The IDs of a set, in ascending order.
pub open spec fn ascending_ids(set: Set<CoverageId>) -> Seq<CoverageId> {
    choose|ids: Seq<CoverageId>| strictly_ascending(ids) && #[trigger] ids.to_set() == set
}

/// Only one list holds the IDs of a set in ascending order.
pub proof fn ascending_ids_are_unique(ids: Seq<CoverageId>, set: Set<CoverageId>)
    requires
        strictly_ascending(ids),
        ids.to_set() == set,
    ensures
        ascending_ids(set) == ids,
{
    let other = ascending_ids(set);
    assert(strictly_ascending(other) && other.to_set() == set);
    lemma_ascending_equal(ids, other);
}

proof fn lemma_ascending_equal(a: Seq<CoverageId>, b: Seq<CoverageId>)
    requires
        strictly_ascending(a),
        strictly_ascending(b),
        a.to_set() == b.to_set(),
    ensures
        a == b,
    decreases a.len(),
{
    assert forall|id: CoverageId| a.contains(id) == b.contains(id) by {
        if a.contains(id) {
            assert(a.to_set().contains(id));
            assert(b.to_set().contains(id));
        }
        if b.contains(id) {
            assert(b.to_set().contains(id));
            assert(a.to_set().contains(id));
        }
    }
    if a.len() == 0 {
        if b.len() > 0 {
            assert(b.contains(b[0]));
        }
        assert(a =~= b);
    } else {
        assert(a.contains(a[0]));
        assert(b.len() > 0);
        let x = a.last();
        let y = b.last();
        assert(a.contains(a[a.len() - 1]));
        assert(b.contains(b[b.len() - 1]));
        let j = choose|j: int| 0 <= j < b.len() && b[j] == x;
        let i = choose|i: int| 0 <= i < a.len() && a[i] == y;
        assert(x.0 <= y.0);
        assert(y.0 <= x.0);
        assert(x == y);
        let fewer_a = a.drop_last();
        let fewer_b = b.drop_last();
        assert forall|id: CoverageId| fewer_a.contains(id) == fewer_b.contains(id) by {
            if fewer_a.contains(id) {
                let k = choose|k: int| 0 <= k < fewer_a.len() && fewer_a[k] == id;
                assert(a[k] == id);
                assert(b.contains(id));
                let m = choose|m: int| 0 <= m < b.len() && b[m] == id;
                assert(id.0 < x.0);
                assert(fewer_b[m] == id);
            }
            if fewer_b.contains(id) {
                let k = choose|k: int| 0 <= k < fewer_b.len() && fewer_b[k] == id;
                assert(b[k] == id);
                assert(a.contains(id));
                let m = choose|m: int| 0 <= m < a.len() && a[m] == id;
                assert(id.0 < y.0);
                assert(fewer_a[m] == id);
            }
        }
        assert(fewer_a.to_set() =~= fewer_b.to_set());
        lemma_ascending_equal(fewer_a, fewer_b);
        assert(a =~= fewer_a.push(x));
        assert(b =~= fewer_b.push(y));
    }
}

/// Feedback observed during one execution.
#[derive(Debug, PartialEq, Eq)]
pub struct ExecutionFeedback {
    /// Coverage features observed during the execution.
    pub features: CoverageSet,
    /// Coarse execution intensity derived from hit-count buckets when available.
    pub hit_count_weight: u64,
    /// Values learned from comparison feedback during this execution.
    pub dictionary: Vec<Vec<u8>>,
}

/// Feedback by its contents.
#[verifier::ext_equal]
pub struct FeedbackModel {
    pub features: Set<CoverageId>,
    pub hit_count_weight: u64,
    pub dictionary: Seq<Seq<u8>>,
}

impl View for ExecutionFeedback {
    type V = FeedbackModel;

    open spec fn view(&self) -> FeedbackModel {
        FeedbackModel {
            features: self.features@,
            hit_count_weight: self.hit_count_weight,
            dictionary: self.dictionary@.map_values(|value: Vec<u8>| value@),
        }
    }
}

impl ExecutionFeedback {
    /// Build feedback from all observed parts.
    pub fn new(
        features: CoverageSet,
        hit_count_weight: u64,
        dictionary: Vec<Vec<u8>>,
    ) -> (feedback: Self)
        ensures
            feedback == (ExecutionFeedback { features, hit_count_weight, dictionary }),
    {
        Self { features, hit_count_weight, dictionary }
    }

    /// Build feedback from coverage features. The default hit-count weight is one unit per
    /// feature.
    pub fn from_features(features: CoverageSet) -> (feedback: Self)
        ensures
            feedback.features == features,
            feedback.hit_count_weight == features@.len(),
            feedback.dictionary@ == Seq::<Vec<u8>>::empty(),
    {
        let hit_count_weight = features.len() as u64;
        Self::new(features, hit_count_weight, Vec::new())
    }

    /// Override the coarse execution intensity.
    pub fn with_hit_count_weight(self, hit_count_weight: u64) -> (feedback: Self)
        ensures
            feedback == (ExecutionFeedback { hit_count_weight, ..self }),
    {
        Self { hit_count_weight, ..self }
    }

    /// Attach comparison dictionary values to this feedback.
    pub fn with_dictionary(self, dictionary: Vec<Vec<u8>>) -> (feedback: Self)
        ensures
            feedback == (ExecutionFeedback { dictionary, ..self }),
    {
        Self { dictionary, ..self }
    }

    /// Coverage features observed during the execution.
    pub fn features(&self) -> (features: &CoverageSet)
        ensures
            *features == self.features,
    {
        &self.features
    }

    /// Coarse execution intensity derived from hit-count buckets when available.
    pub fn hit_count_weight(&self) -> (weight: u64)
        ensures
            weight == self.hit_count_weight,
    {
        self.hit_count_weight
    }

    /// Values learned from comparison feedback during this execution.
    pub fn dictionary(&self) -> (dictionary: &Vec<Vec<u8>>)
        ensures
            *dictionary == self.dictionary,
    {
        &self.dictionary
    }

    /// Split feedback into owned parts.
    pub fn into_parts(self) -> (parts: (CoverageSet, u64, Vec<Vec<u8>>))
        ensures
            parts == (self.features, self.hit_count_weight, self.dictionary),
    {
        (self.features, self.hit_count_weight, self.dictionary)
    }
}

impl Clone for ExecutionFeedback {
    fn clone(&self) -> (copy: Self)
        ensures
            copy@ == self@,
    {
        let mut dictionary: Vec<Vec<u8>> = Vec::new();
        let mut i: usize = 0;
        while i < self.dictionary.len()
            invariant
                i <= self.dictionary.len(),
                dictionary.len() == i,
                forall|k: int| 0 <= k < i ==> (#[trigger] dictionary@[k])@ == self.dictionary@[k]@,
            decreases self.dictionary.len() - i,
        {
            let value = self.dictionary[i].clone();
            assert(value@ =~= self.dictionary@[i as int]@);
            dictionary.push(value);
            i += 1;
        }
        let copy = Self {
            features: self.features.clone(),
            hit_count_weight: self.hit_count_weight,
            dictionary,
        };
        assert(copy@ =~= self@);
        copy
    }
}

impl Default for ExecutionFeedback {
    fn default() -> (feedback: Self)
        ensures
            feedback.features@ == Set::<CoverageId>::empty(),
            feedback.hit_count_weight == 0,
            feedback.dictionary@ == Seq::<Vec<u8>>::empty(),
    {
        Self { features: CoverageSet::new(), hit_count_weight: 0, dictionary: Vec::new() }
    }
}

impl From<CoverageSet> for ExecutionFeedback {
    fn from(features: CoverageSet) -> (feedback: Self)
        ensures
            feedback.features == features,
            feedback.hit_count_weight == features@.len(),
            feedback.dictionary@ == Seq::<Vec<u8>>::empty(),
    {
        Self::from_features(features)
    }
}

impl vstd::std_specs::convert::FromSpecImpl<CoverageSet> for ExecutionFeedback {
    open spec fn obeys_from_spec() -> bool {
        false
    }

    open spec fn from_spec(features: CoverageSet) -> Self {
        arbitrary()
    }
}

/// Result of attempting to start one coverage capture.
#[derive(Debug, Clone, Copy, PartialEq, Eq)]
pub enum CaptureStart<Session> {
    /// Capture started and must be finished or discarded with this session.
    Started(Session),
    /// The backend is temporarily busy and the caller may retry later.
    Busy,
}

/// Starts and finishes coverage capture for one RNG case.
pub trait CoverageCapture {
    /// Opaque per-execution session.
    type Session;

    /// What may come of starting a capture, and what the backend may be like after it: anything,
    /// unless a backend says what.
    open spec fn may_start(
        &self,
        after: &Self,
        started: Result<CaptureStart<Self::Session>, String>,
    ) -> bool {
        true
    }

    /// What may come of finishing a capture, and what the backend may be like after it: anything,
    /// unless a backend says what.
    open spec fn may_finish(
        &self,
        session: Self::Session,
        after: &Self,
        feedback: Result<ExecutionFeedback, String>,
    ) -> bool {
        true
    }

    /// What may come of discarding a capture, and what the backend may be like after it: anything,
    /// unless a backend says what.
    open spec fn may_discard(
        &self,
        session: Self::Session,
        after: &Self,
        discarded: Result<(), String>,
    ) -> bool {
        true
    }

    /// Start capturing coverage.
    ///
    /// [`CaptureStart::Busy`] represents retryable contention. `Err` represents a backend failure
    /// that should be surfaced to the caller.
    fn start_capture(&mut self) -> (started: Result<CaptureStart<Self::Session>, String>)
        ensures
            old(self).may_start(final(self), started),
    ;

    /// Finish coverage capture and return the observed feedback.
    fn finish_capture(&mut self, session: Self::Session) -> (feedback: Result<
        ExecutionFeedback,
        String,
    >)
        ensures
            old(self).may_finish(session, final(self), feedback),
    ;

    /// Discard a capture without reading/exporting its coverage.
    fn discard_capture(&mut self, session: Self::Session) -> (discarded: Result<(), String>)
        ensures
            old(self).may_discard(session, final(self), discarded),
    ;
}

/// Coverage backend that can correctly attribute multiple concurrent in-process executions.
pub trait ParallelCoverageCapture: CoverageCapture + Clone + Send + Sync + 'static {
    /// Validate that the current process is configured for concurrent attribution.
    fn validate_parallel(&self) -> (valid: Result<(), String>)
        default_ensures
            valid is Ok,
    {
        Ok(())
    }
}

} // verus!
