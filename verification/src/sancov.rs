//! Coverage from the callbacks of LLVM's sanitizer coverage.
//!
//! The callbacks hand their numbers to the session of the running case. What they see becomes
//! features of two kinds that never meet: edges, by their hit-count bucket, and comparisons, by how
//! much of the two sides agrees.

use crate::counters::{bucket_of, hit_count_bucket};
use crate::coverage::{
    CaptureStart, CoverageCapture, CoverageId, CoverageSet, ExecutionFeedback, FeedbackModel,
    ParallelCoverageCapture,
};
use crate::mutation::{byte_lists, le_bytes, le_word};
use crate::reducer::state::same_bytes;
use vstd::prelude::*;

verus! {

/// Features of comparisons lie from here on.
pub const COMPARISON_FEATURES: u64 = 0x1000_0000_0000_0000;

/// Features of edges lie below the features of comparisons, for this many edges.
pub const EDGE_LIMIT: u64 = 0x0010_0000_0000_0000;

/// Coverage backend for a harness that is built with sanitizer coverage.
#[derive(Debug, Clone, Copy, PartialEq, Eq, Structural)]
pub struct SancovCoverage {
    /// Comparisons give features and values, too.
    pub comparisons: bool,
    /// The edges call guards, so that the cases of several threads can be told apart.
    pub guards: bool,
}

/// What the callbacks of one case have seen.
#[derive(Debug)]
pub struct SancovSession {
    pub comparisons: bool,
    pub features: Vec<CoverageId>,
    pub hit_count_weight: u64,
    pub dictionary: Vec<Vec<u8>>,
}

/// What the callbacks of one case have seen, by contents.
#[verifier::ext_equal]
pub struct SancovModel {
    pub comparisons: bool,
    pub features: Seq<CoverageId>,
    pub hit_count_weight: u64,
    pub dictionary: Seq<Seq<u8>>,
}

impl View for SancovSession {
    type V = SancovModel;

    open spec fn view(&self) -> SancovModel {
        SancovModel {
            comparisons: self.comparisons,
            features: self.features@,
            hit_count_weight: self.hit_count_weight,
            dictionary: byte_lists(self.dictionary@),
        }
    }
}

/// The feature of an edge that was taken so often.
pub open spec fn edge_feature(edge: int, count: int) -> CoverageId {
    CoverageId(((edge % EDGE_LIMIT as int) * 256 + bucket_of(count)) as u64)
}

/// How many of the lower bytes of two words agree.
pub open spec fn agreeing_bytes(left: u64, right: u64, width: nat) -> nat
    decreases width,
{
    if width == 0 || left % 256 != right % 256 {
        0
    } else {
        1 + agreeing_bytes(left / 256, right / 256, (width - 1) as nat)
    }
}

/// The feature of a comparison of two words of `width` bytes.
pub open spec fn comparison_feature(width: nat, left: u64, right: u64) -> CoverageId {
    CoverageId((COMPARISON_FEATURES + width * 256 + agreeing_bytes(left, right, width)) as u64)
}

/// Features of edges and features of comparisons never meet: they differ in the highest four bits.
pub proof fn feature_kinds_are_apart(edge: nat, count: int, width: nat, left: u64, right: u64)
    requires
        width <= 8,
    ensures
        edge_feature(edge as int, count).0 < COMPARISON_FEATURES,
        COMPARISON_FEATURES <= comparison_feature(width, left, right).0 < 2 * COMPARISON_FEATURES,
{
    lemma_agreeing_bytes(left, right, width);
}

proof fn lemma_agreeing_bytes(left: u64, right: u64, width: nat)
    ensures
        agreeing_bytes(left, right, width) <= width,
    decreases width,
{
    if width > 0 && left % 256 == right % 256 {
        lemma_agreeing_bytes(left / 256, right / 256, (width - 1) as nat);
    }
}

/// The dictionary with a value, unless it is there already.
pub open spec fn with_operand(dictionary: Seq<Seq<u8>>, value: Seq<u8>) -> Seq<Seq<u8>> {
    if dictionary.contains(value) {
        dictionary
    } else {
        dictionary.push(value)
    }
}

/// The session after an edge was seen to be taken so often.
pub open spec fn with_counter(session: SancovModel, edge: int, count: int) -> SancovModel {
    if count == 0 {
        session
    } else {
        SancovModel {
            features: session.features.push(edge_feature(edge, count)),
            hit_count_weight: if session.hit_count_weight + 1 + bucket_of(count) <= u64::MAX {
                (session.hit_count_weight + 1 + bucket_of(count)) as u64
            } else {
                u64::MAX
            },
            ..session
        }
    }
}

/// The session after a comparison of two words of `width` bytes was seen.
pub open spec fn with_comparison(session: SancovModel, width: nat, left: u64, right: u64) -> SancovModel {
    if !session.comparisons {
        session
    } else {
        SancovModel {
            features: session.features.push(comparison_feature(width, left, right)),
            dictionary: with_operand(
                with_operand(session.dictionary, le_bytes(left as int, width)),
                le_bytes(right as int, width),
            ),
            ..session
        }
    }
}

/// The session after a switch over a word of `width` bytes was seen.
pub open spec fn with_cases(session: SancovModel, width: nat, value: u64, cases: Seq<u64>) -> SancovModel
    decreases cases.len(),
{
    if cases.len() == 0 {
        session
    } else {
        with_comparison(
            with_cases(session, width, value, cases.drop_last()),
            width,
            value,
            cases.last(),
        )
    }
}

impl SancovCoverage {
    /// A backend with comparison feedback, for edges without guards.
    pub fn new() -> (capture: SancovCoverage)
        ensures
            capture == (SancovCoverage { comparisons: true, guards: false }),
    {
        SancovCoverage { comparisons: true, guards: false }
    }

    /// The backend with or without comparison feedback.
    pub fn with_cmp_feedback(self, enabled: bool) -> (capture: SancovCoverage)
        ensures
            capture == (SancovCoverage { comparisons: enabled, ..self }),
    {
        SancovCoverage { comparisons: enabled, guards: self.guards }
    }

    /// The backend for edges with or without guards.
    pub fn with_guards(self, guards: bool) -> (capture: SancovCoverage)
        ensures
            capture == (SancovCoverage { guards, ..self }),
    {
        SancovCoverage { comparisons: self.comparisons, guards }
    }
}

impl Default for SancovCoverage {
    fn default() -> (capture: SancovCoverage)
        ensures
            capture == (SancovCoverage { comparisons: false, guards: false }),
    {
        SancovCoverage { comparisons: false, guards: false }
    }
}

impl SancovSession {
    /// An edge was taken so often.
    pub fn record_counter(&mut self, edge: u64, count: u8)
        ensures
            final(self)@ == with_counter(old(self)@, edge as int, count as int),
    {
        if count == 0 {
            return;
        }
        let bucket: u8 = hit_count_bucket(count);
        let id: u64 = (edge % EDGE_LIMIT) * 256 + bucket as u64;
        self.features.push(CoverageId::new(id));
        self.hit_count_weight = self.hit_count_weight.saturating_add(1 + bucket as u64);
        assert(self@ =~= with_counter(old(self)@, edge as int, count as int));
    }

    /// Two words of `width` bytes were compared.
    pub fn record_comparison(&mut self, width: usize, left: u64, right: u64)
        requires
            width <= 8,
        ensures
            final(self)@ == with_comparison(old(self)@, width as nat, left, right),
    {
        if !self.comparisons {
            return;
        }
        let ghost before = self@;
        let same: u64 = count_agreeing(left, right, width);
        proof {
            lemma_agreeing_bytes(left, right, width as nat);
        }
        self.features.push(CoverageId::new(COMPARISON_FEATURES + width as u64 * 256 + same));
        let left_bytes = le_word(left as u128, width);
        let right_bytes = le_word(right as u128, width);
        remember(&mut self.dictionary, left_bytes);
        remember(&mut self.dictionary, right_bytes);
        assert(self@ =~= with_comparison(before, width as nat, left, right));
    }

    /// A word of `width` bytes was switched over.
    pub fn record_switch(&mut self, width: usize, value: u64, cases: &Vec<u64>)
        requires
            width <= 8,
        ensures
            final(self)@ == with_cases(old(self)@, width as nat, value, cases@),
    {
        let ghost before = self@;
        let mut i: usize = 0;
        assert(cases@.take(0) =~= Seq::<u64>::empty());
        while i < cases.len()
            invariant
                i <= cases@.len(),
                width <= 8,
                self@ == with_cases(before, width as nat, value, cases@.take(i as int)),
            decreases cases@.len() - i,
        {
            self.record_comparison(width, value, cases[i]);
            assert(cases@.take(i + 1).drop_last() =~= cases@.take(i as int));
            i += 1;
        }
        assert(cases@.take(cases@.len() as int) =~= cases@);
    }
}

fn count_agreeing(left: u64, right: u64, width: usize) -> (same: u64)
    requires
        width <= 8,
    ensures
        same == agreeing_bytes(left, right, width as nat),
    decreases width,
{
    if width == 0 || left % 256 != right % 256 {
        0
    } else {
        let rest: u64 = count_agreeing(left / 256, right / 256, width - 1);
        proof {
            lemma_agreeing_bytes(left / 256, right / 256, (width - 1) as nat);
        }
        rest + 1
    }
}

fn remember(dictionary: &mut Vec<Vec<u8>>, value: Vec<u8>)
    ensures
        byte_lists(final(dictionary)@) == with_operand(byte_lists(old(dictionary)@), value@),
{
    let mut i: usize = 0;
    while i < dictionary.len()
        invariant
            i <= dictionary@.len(),
            dictionary@ == old(dictionary)@,
            forall|k: int| 0 <= k < i ==> (#[trigger] byte_lists(dictionary@)[k]) != value@,
        decreases dictionary@.len() - i,
    {
        if same_bytes(&dictionary[i], &value) {
            assert(byte_lists(dictionary@)[i as int] == value@);
            return;
        }
        i += 1;
    }
    assert(!byte_lists(dictionary@).contains(value@));
    let ghost before = byte_lists(dictionary@);
    let ghost bytes = value@;
    dictionary.push(value);
    assert(byte_lists(dictionary@) =~= before.push(bytes));
}

impl CoverageCapture for SancovCoverage {
    type Session = SancovSession;

    open spec fn may_start(
        &self,
        after: &SancovCoverage,
        started: Result<CaptureStart<SancovSession>, String>,
    ) -> bool {
        &&& after == self
        &&& started matches Ok(CaptureStart::Started(session)) && session@ == (SancovModel {
            comparisons: self.comparisons,
            features: Seq::empty(),
            hit_count_weight: 0,
            dictionary: Seq::empty(),
        })
    }

    open spec fn may_finish(
        &self,
        session: SancovSession,
        after: &SancovCoverage,
        feedback: Result<ExecutionFeedback, String>,
    ) -> bool {
        &&& after == self
        &&& feedback matches Ok(feedback) && feedback@ == (FeedbackModel {
            features: session@.features.to_set(),
            hit_count_weight: session@.hit_count_weight,
            dictionary: session@.dictionary,
        })
    }

    open spec fn may_discard(
        &self,
        session: SancovSession,
        after: &SancovCoverage,
        discarded: Result<(), String>,
    ) -> bool {
        after == self && discarded is Ok
    }

    fn start_capture(&mut self) -> (started: Result<CaptureStart<SancovSession>, String>) {
        let session = SancovSession {
            comparisons: self.comparisons,
            features: Vec::new(),
            hit_count_weight: 0,
            dictionary: Vec::new(),
        };
        assert(session@ =~= (SancovModel {
            comparisons: self.comparisons,
            features: Seq::empty(),
            hit_count_weight: 0,
            dictionary: Seq::empty(),
        }));
        Ok(CaptureStart::Started(session))
    }

    fn finish_capture(&mut self, session: SancovSession) -> (feedback: Result<
        ExecutionFeedback,
        String,
    >) {
        let feedback = ExecutionFeedback::new(
            CoverageSet::from_unsorted(session.features),
            session.hit_count_weight,
            session.dictionary,
        );
        Ok(feedback)
    }

    fn discard_capture(&mut self, _session: SancovSession) -> (discarded: Result<(), String>) {
        Ok(())
    }
}

impl ParallelCoverageCapture for SancovCoverage {
    fn validate_parallel(&self) -> (valid: Result<(), String>)
        ensures
            match valid {
                Ok(_) => self.guards,
                Err(error) => !self.guards && error@
                    == "parallel sanitizer coverage requires trace-pc-guard instrumentation"@,
            },
    {
        if self.guards {
            Ok(())
        } else {
            Err("parallel sanitizer coverage requires trace-pc-guard instrumentation".to_owned())
        }
    }
}

/// The feature of an edge names the edge and the bucket of its count.
pub proof fn edge_features_name_their_edge(edge: int, count: int)
    requires
        0 <= edge < EDGE_LIMIT,
    ensures
        edge_feature(edge, count).0 / 256 == edge,
        edge_feature(edge, count).0 % 256 == bucket_of(count),
{
}

/// The feature of a comparison names the width of its words and how many of their lower bytes
/// agree: so many agree, and the next one does not.
pub proof fn comparison_features_name_the_agreement(width: nat, left: u64, right: u64)
    requires
        width <= 8,
    ensures
        ({
            let feature = comparison_feature(width, left, right).0 - COMPARISON_FEATURES;
            let agree = feature % 256;
            &&& feature / 256 == width
            &&& 0 <= agree <= width
            &&& le_bytes(left as int, width).take(agree) == le_bytes(right as int, width).take(agree)
            &&& agree < width ==> le_bytes(left as int, width)[agree] != le_bytes(
                right as int,
                width,
            )[agree]
        }),
{
    lemma_agreeing_bytes(left, right, width);
    lemma_agreement(left, right, width);
}

proof fn lemma_agreement(left: u64, right: u64, width: nat)
    ensures
        ({
            let agree = agreeing_bytes(left, right, width) as int;
            let l = le_bytes(left as int, width);
            let r = le_bytes(right as int, width);
            &&& l.len() == width
            &&& r.len() == width
            &&& 0 <= agree <= width
            &&& l.take(agree) == r.take(agree)
            &&& agree < width ==> l[agree] != r[agree]
        }),
    decreases width,
{
    crate::mutation::lemma_le_bytes(left as int, width);
    crate::mutation::lemma_le_bytes(right as int, width);
    lemma_agreeing_bytes(left, right, width);
    let l = le_bytes(left as int, width);
    let r = le_bytes(right as int, width);
    if width > 0 {
        let fewer = (width - 1) as nat;
        assert(l[0] == (left as int % 256) as u8);
        assert(r[0] == (right as int % 256) as u8);
        if left % 256 == right % 256 {
            lemma_agreement(left / 256, right / 256, fewer);
            let agree = agreeing_bytes(left / 256, right / 256, fewer) as int;
            let ls = le_bytes((left / 256) as int, fewer);
            let rs = le_bytes((right / 256) as int, fewer);
            assert(l =~= seq![l[0]] + ls);
            assert(r =~= seq![r[0]] + rs);
            assert forall|i: int| 0 <= i < agree + 1 implies l[i] == r[i] by {
                if i > 0 {
                    assert(ls.take(agree)[i - 1] == ls[i - 1]);
                    assert(rs.take(agree)[i - 1] == rs[i - 1]);
                }
            }
            assert(l.take(agree + 1) =~= r.take(agree + 1));
        } else {
            assert(l.take(0) =~= r.take(0));
        }
    } else {
        assert(l.take(0) =~= r.take(0));
    }
}

/// Both words of a comparison are in the dictionary afterwards, whatever was there stays, and
/// nothing comes twice.
pub proof fn compared_words_are_remembered(
    session: SancovModel,
    width: nat,
    left: u64,
    right: u64,
)
    requires
        session.comparisons,
    ensures
        ({
            let after = with_comparison(session, width, left, right);
            &&& after.dictionary.contains(le_bytes(left as int, width))
            &&& after.dictionary.contains(le_bytes(right as int, width))
            &&& after.dictionary.take(session.dictionary.len() as int) == session.dictionary
            &&& session.dictionary.no_duplicates() ==> after.dictionary.no_duplicates()
            &&& after.features == session.features.push(comparison_feature(width, left, right))
            &&& after.hit_count_weight == session.hit_count_weight
            &&& after.comparisons
        }),
{
    let l = le_bytes(left as int, width);
    let r = le_bytes(right as int, width);
    let first = with_operand(session.dictionary, l);
    let second = with_operand(first, r);
    assert(first.contains(l)) by {
        if !session.dictionary.contains(l) {
            assert(first[session.dictionary.len() as int] == l);
        }
    }
    let k = choose|k: int| 0 <= k < first.len() && first[k] == l;
    assert(second[k] == l);
    if !first.contains(r) {
        assert(second[first.len() as int] == r);
    }
    assert(second.take(session.dictionary.len() as int) =~= session.dictionary);
}

/// An edge that was taken is one more feature, and weighs one and its bucket; one that was not is
/// none.
pub proof fn taken_edges_are_features(session: SancovModel, edge: int, count: int)
    ensures
        with_counter(session, edge, 0) == session,
        count != 0 ==> {
            let after = with_counter(session, edge, count);
            &&& after.features == session.features.push(edge_feature(edge, count))
            &&& session.hit_count_weight + 8 <= u64::MAX ==> after.hit_count_weight
                == session.hit_count_weight + 1 + bucket_of(count)
            &&& after.dictionary == session.dictionary
        },
{
}

} // verus!
