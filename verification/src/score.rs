//! What a case costs and covers, and the options and counters of a search.

use std::cmp::Ordering;
use vstd::prelude::*;
use vstd::std_specs::cmp::PartialOrdSpecImpl;

verus! {

/// Tuning knobs of the minimization.
///
/// The defaults favor thorough reduction.
#[derive(Debug, Clone, Copy, PartialEq, Eq, Structural)]
pub struct CautiousOptions {
    /// Reductions that are tried to find one candidate.
    pub reducer_budget: usize,
    /// Reductions that are kept of one family.
    pub operation_candidate_limit: usize,
    /// Draws and scalars that are looked at.
    pub draw_limit: usize,
    /// Sequences that are looked at.
    pub range_limit: usize,
    /// Sequences are reduced at all.
    pub range_reductions: bool,
    /// Random rewrites follow when no reduction is left.
    pub havoc: bool,
}

impl CautiousOptions {
    /// The default options.
    pub open spec fn defaults() -> CautiousOptions {
        CautiousOptions {
            reducer_budget: 8192,
            operation_candidate_limit: 8192,
            draw_limit: 512,
            range_limit: 4096,
            range_reductions: true,
            havoc: true,
        }
    }

    /// Build default minimization options.
    pub fn new() -> (options: CautiousOptions)
        ensures
            options == CautiousOptions::defaults(),
    {
        CautiousOptions {
            reducer_budget: 8192,
            operation_candidate_limit: 8192,
            draw_limit: 512,
            range_limit: 4096,
            range_reductions: true,
            havoc: true,
        }
    }

    /// Set the maximum internal reducer attempts spent to produce one yielded candidate.
    pub fn with_reducer_budget(self, budget: usize) -> (options: CautiousOptions)
        ensures
            options == (CautiousOptions {
                reducer_budget: if budget < 1 {
                    1
                } else {
                    budget
                },
                ..self
            }),
    {
        CautiousOptions {
            reducer_budget: if budget < 1 {
                1
            } else {
                budget
            },
            ..self
        }
    }
}

impl Default for CautiousOptions {
    fn default() -> (options: CautiousOptions)
        ensures
            options == CautiousOptions::defaults(),
    {
        CautiousOptions::new()
    }
}

/// Domain-specific cost of one valid generated value.
///
/// Lower costs are better. Minimization goes by this before coverage and path size.
#[derive(Debug, Clone, Copy, PartialEq, Eq, Ord, Structural)]
pub struct CaseCost(pub usize);

impl Default for CaseCost {
    fn default() -> (cost: CaseCost)
        ensures
            cost == CaseCost(0),
    {
        CaseCost(0)
    }
}

impl CaseCost {
    pub fn zero() -> (cost: CaseCost)
        ensures
            cost == CaseCost(0),
    {
        CaseCost(0)
    }

    pub fn new(cost: usize) -> (made: CaseCost)
        ensures
            made == CaseCost(cost),
    {
        CaseCost(cost)
    }

    pub fn raw(self) -> (cost: usize)
        ensures
            cost == self.0,
    {
        self.0
    }
}

impl From<usize> for CaseCost {
    fn from(value: usize) -> (cost: CaseCost) {
        CaseCost(value)
    }
}

impl vstd::std_specs::convert::FromSpecImpl<usize> for CaseCost {
    open spec fn obeys_from_spec() -> bool {
        true
    }

    open spec fn from_spec(value: usize) -> CaseCost {
        CaseCost(value)
    }
}

impl PartialOrd for CaseCost {
    fn partial_cmp(&self, other: &CaseCost) -> (order: Option<Ordering>) {
        if self.0 < other.0 {
            Some(Ordering::Less)
        } else if self.0 > other.0 {
            Some(Ordering::Greater)
        } else {
            Some(Ordering::Equal)
        }
    }
}

impl PartialOrdSpecImpl for CaseCost {
    open spec fn obeys_partial_cmp_spec() -> bool {
        true
    }

    open spec fn partial_cmp_spec(&self, other: &CaseCost) -> Option<Ordering> {
        if self.0 < other.0 {
            Some(Ordering::Less)
        } else if self.0 > other.0 {
            Some(Ordering::Greater)
        } else {
            Some(Ordering::Equal)
        }
    }
}

/// Coverage, path-size, and domain-cost stats for one completed execution.
#[derive(Debug, Clone, Copy, PartialEq, Eq, Ord, Structural)]
pub struct CaseCoverage {
    pub case_cost: CaseCost,
    pub feature_count: usize,
    pub hit_count_weight: u64,
    pub bytes_consumed: usize,
}

impl Default for CaseCoverage {
    fn default() -> (coverage: CaseCoverage)
        ensures
            coverage == (CaseCoverage {
                case_cost: CaseCost(0),
                feature_count: 0,
                hit_count_weight: 0,
                bytes_consumed: 0,
            }),
    {
        CaseCoverage {
            case_cost: CaseCost(0),
            feature_count: 0,
            hit_count_weight: 0,
            bytes_consumed: 0,
        }
    }
}

impl CaseCoverage {
    pub fn with_cost(
        case_cost: CaseCost,
        feature_count: usize,
        hit_count_weight: u64,
        bytes_consumed: usize,
    ) -> (coverage: CaseCoverage)
        ensures
            coverage == (CaseCoverage {
                case_cost,
                feature_count,
                hit_count_weight,
                bytes_consumed,
            }),
    {
        CaseCoverage { case_cost, feature_count, hit_count_weight, bytes_consumed }
    }

    /// Domain-specific cost supplied by the harness.
    pub fn case_cost(self) -> (cost: CaseCost)
        ensures
            cost == self.case_cost,
    {
        self.case_cost
    }

    /// Number of unique coverage features observed during the execution.
    pub fn feature_count(self) -> (count: usize)
        ensures
            count == self.feature_count,
    {
        self.feature_count
    }

    /// Coarse execution intensity derived from hit-count buckets when available.
    pub fn hit_count_weight(self) -> (weight: u64)
        ensures
            weight == self.hit_count_weight,
    {
        self.hit_count_weight
    }

    /// Number of RNG bytes consumed by the execution.
    pub fn bytes_consumed(self) -> (bytes: usize)
        ensures
            bytes == self.bytes_consumed,
    {
        self.bytes_consumed
    }
}

/// `a` is the better execution: by cost, then features, then hits, then bytes.
pub open spec fn coverage_less(a: CaseCoverage, b: CaseCoverage) -> bool {
    ||| a.case_cost.0 < b.case_cost.0
    ||| a.case_cost == b.case_cost && a.feature_count < b.feature_count
    ||| a.case_cost == b.case_cost && a.feature_count == b.feature_count && a.hit_count_weight
        < b.hit_count_weight
    ||| a.case_cost == b.case_cost && a.feature_count == b.feature_count && a.hit_count_weight
        == b.hit_count_weight && a.bytes_consumed < b.bytes_consumed
}

impl CaseCoverage {
    /// `self` is the better execution.
    pub fn is_less(&self, other: &CaseCoverage) -> (less: bool)
        ensures
            less == coverage_less(*self, *other),
    {
        if self.case_cost.0 != other.case_cost.0 {
            self.case_cost.0 < other.case_cost.0
        } else if self.feature_count != other.feature_count {
            self.feature_count < other.feature_count
        } else if self.hit_count_weight != other.hit_count_weight {
            self.hit_count_weight < other.hit_count_weight
        } else {
            self.bytes_consumed < other.bytes_consumed
        }
    }
}

impl PartialOrd for CaseCoverage {
    fn partial_cmp(&self, other: &CaseCoverage) -> (order: Option<Ordering>) {
        if self.is_less(other) {
            Some(Ordering::Less)
        } else if other.is_less(self) {
            Some(Ordering::Greater)
        } else {
            Some(Ordering::Equal)
        }
    }
}

impl PartialOrdSpecImpl for CaseCoverage {
    open spec fn obeys_partial_cmp_spec() -> bool {
        true
    }

    open spec fn partial_cmp_spec(&self, other: &CaseCoverage) -> Option<Ordering> {
        if coverage_less(*self, *other) {
            Some(Ordering::Less)
        } else if coverage_less(*other, *self) {
            Some(Ordering::Greater)
        } else {
            Some(Ordering::Equal)
        }
    }
}

/// What a reproducing case is minimized by, first things first.
#[derive(Debug, Clone, Copy, PartialEq, Eq, Ord, Structural)]
pub struct MinPathScore {
    pub case_cost: CaseCost,
    pub features: usize,
    pub hit_count_weight: u64,
    pub bytes: usize,
    pub nonzero_bytes: usize,
}

impl MinPathScore {
    pub fn with_case_cost(
        case_cost: CaseCost,
        feature_count: usize,
        hit_count_weight: u64,
        bytes_consumed: usize,
        nonzero_bytes: usize,
    ) -> (score: MinPathScore)
        ensures
            score == (MinPathScore {
                case_cost,
                features: feature_count,
                hit_count_weight,
                bytes: bytes_consumed,
                nonzero_bytes,
            }),
    {
        MinPathScore {
            case_cost,
            features: feature_count,
            hit_count_weight,
            bytes: bytes_consumed,
            nonzero_bytes,
        }
    }

    /// `self` is the better score.
    pub fn is_less(&self, other: &MinPathScore) -> (less: bool)
        ensures
            less == score_less(*self, *other),
    {
        if self.case_cost.0 != other.case_cost.0 {
            self.case_cost.0 < other.case_cost.0
        } else if self.features != other.features {
            self.features < other.features
        } else if self.hit_count_weight != other.hit_count_weight {
            self.hit_count_weight < other.hit_count_weight
        } else if self.bytes != other.bytes {
            self.bytes < other.bytes
        } else {
            self.nonzero_bytes < other.nonzero_bytes
        }
    }
}

/// `a` is the better score: by cost, then features, then hits, then bytes, then bytes that are not
/// zero.
pub open spec fn score_less(a: MinPathScore, b: MinPathScore) -> bool {
    ||| a.case_cost.0 < b.case_cost.0
    ||| a.case_cost == b.case_cost && a.features < b.features
    ||| a.case_cost == b.case_cost && a.features == b.features && a.hit_count_weight
        < b.hit_count_weight
    ||| a.case_cost == b.case_cost && a.features == b.features && a.hit_count_weight
        == b.hit_count_weight && a.bytes < b.bytes
    ||| a.case_cost == b.case_cost && a.features == b.features && a.hit_count_weight
        == b.hit_count_weight && a.bytes == b.bytes && a.nonzero_bytes < b.nonzero_bytes
}

impl PartialOrd for MinPathScore {
    fn partial_cmp(&self, other: &MinPathScore) -> (order: Option<Ordering>) {
        if self.is_less(other) {
            Some(Ordering::Less)
        } else if other.is_less(self) {
            Some(Ordering::Greater)
        } else {
            Some(Ordering::Equal)
        }
    }
}

impl PartialOrdSpecImpl for MinPathScore {
    open spec fn obeys_partial_cmp_spec() -> bool {
        true
    }

    open spec fn partial_cmp_spec(&self, other: &MinPathScore) -> Option<Ordering> {
        if score_less(*self, *other) {
            Some(Ordering::Less)
        } else if score_less(*other, *self) {
            Some(Ordering::Greater)
        } else {
            Some(Ordering::Equal)
        }
    }
}

/// Of two scores one is better, unless they are equal; and better than better is better.
pub proof fn scores_are_ordered(a: MinPathScore, b: MinPathScore, c: MinPathScore)
    ensures
        !score_less(a, a),
        score_less(a, b) || score_less(b, a) || a == b,
        score_less(a, b) ==> !score_less(b, a),
        score_less(a, b) && score_less(b, c) ==> score_less(a, c),
{
}

/// A score says what the coverage says, and goes on where that leaves a tie.
pub proof fn scores_refine_coverage(a: CaseCoverage, b: CaseCoverage, x: usize, y: usize)
    ensures
        coverage_less(a, b) ==> score_less(score_of(a, x), score_of(b, y)),
        a == b && x < y ==> score_less(score_of(a, x), score_of(b, y)),
{
}

/// The score of an execution that drew `nonzero_bytes` bytes other than zero.
pub open spec fn score_of(coverage: CaseCoverage, nonzero_bytes: usize) -> MinPathScore {
    MinPathScore {
        case_cost: coverage.case_cost,
        features: coverage.feature_count,
        hit_count_weight: coverage.hit_count_weight,
        bytes: coverage.bytes_consumed,
        nonzero_bytes,
    }
}

/// Counters for a search run.
#[derive(Debug, Clone, Copy, PartialEq, Eq, Structural)]
pub struct SearchStats {
    pub generated: u64,
    pub executed: u64,
    pub accepted: u64,
    pub coverage_ids: u64,
    pub mutated: u64,
}

impl Default for SearchStats {
    fn default() -> (stats: SearchStats)
        ensures
            stats == (SearchStats {
                generated: 0,
                executed: 0,
                accepted: 0,
                coverage_ids: 0,
                mutated: 0,
            }),
    {
        SearchStats { generated: 0, executed: 0, accepted: 0, coverage_ids: 0, mutated: 0 }
    }
}

impl SearchStats {
    /// Number of RNG cases yielded.
    pub fn generated(self) -> (count: u64)
        ensures
            count == self.generated,
    {
        self.generated
    }

    /// Number of RNG cases finished.
    pub fn executed(self) -> (count: u64)
        ensures
            count == self.executed,
    {
        self.executed
    }

    /// Number of executions retained in the corpus.
    pub fn accepted(self) -> (count: u64)
        ensures
            count == self.accepted,
    {
        self.accepted
    }

    /// Number of accumulated coverage IDs.
    pub fn coverage_ids(self) -> (count: u64)
        ensures
            count == self.coverage_ids,
    {
        self.coverage_ids
    }

    /// Number of generated cases derived from mutation.
    pub fn mutated(self) -> (count: u64)
        ensures
            count == self.mutated,
    {
        self.mutated
    }
}

} // verus!
