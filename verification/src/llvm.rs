//! Coverage from LLVM's hit counters.

use crate::counters::bucket_of;
use crate::coverage::{CoverageId, CoverageSet, ExecutionFeedback, FeedbackModel};
use crate::text::{decimal_text, push_decimal};
use vstd::prelude::*;

verus! {

/// Coverage backend for a harness that is built with coverage instrumentation.
#[derive(Debug, Clone, Copy, PartialEq, Eq, Structural)]
pub struct LlvmCoverage {
    pub counter_count: usize,
    pub bucketing: bool,
}

/// Bucket of the hit count of a counter.
pub fn hit_count_bucket(counter: u64) -> (bucket: u8)
    ensures
        bucket == bucket_of(counter as int),
        bucket <= 7,
{
    if counter <= 1 {
        0
    } else if counter == 2 {
        1
    } else if counter == 3 {
        2
    } else if counter <= 7 {
        3
    } else if counter <= 15 {
        4
    } else if counter <= 31 {
        5
    } else if counter <= 127 {
        6
    } else {
        7
    }
}

/// The feature of a counter that is not zero: its place, and with buckets also its bucket.
pub open spec fn counter_feature(place: int, counter: u64, bucketing: bool) -> CoverageId {
    if bucketing {
        CoverageId(((place % 0x0100_0000_0000_0000) * 256 + bucket_of(counter as int)) as u64)
    } else {
        CoverageId(place as u64)
    }
}

/// The features of the counters that are not zero.
pub open spec fn counter_features(counters: Seq<u64>, bucketing: bool) -> Set<CoverageId>
    decreases counters.len(),
{
    if counters.len() == 0 {
        Set::empty()
    } else {
        let rest = counter_features(counters.drop_last(), bucketing);
        if counters.last() == 0 {
            rest
        } else {
            rest.insert(counter_feature(counters.len() - 1, counters.last(), bucketing))
        }
    }
}

/// How much was hit: one for each counter that is not zero, and its bucket on top.
pub open spec fn counter_weight(counters: Seq<u64>) -> int
    decreases counters.len(),
{
    if counters.len() == 0 {
        0
    } else {
        counter_weight(counters.drop_last()) + if counters.last() == 0 {
            0
        } else {
            1 + bucket_of(counters.last() as int)
        }
    }
}

/// A weight in 64 bits.
pub open spec fn capped(weight: int) -> u64 {
    if weight <= u64::MAX {
        weight as u64
    } else {
        u64::MAX
    }
}

/// What is said when there are more or fewer counters than there were.
pub open spec fn count_changed(before: usize, now: nat) -> Seq<char> {
    "LLVM coverage counter count changed from "@ + decimal_text(before as nat) + " to "@
        + decimal_text(now)
}

/// A feature is covered if and only if a counter that is not zero has it.
pub proof fn features_come_from_counters(counters: Seq<u64>, bucketing: bool, id: CoverageId)
    ensures
        counter_features(counters, bucketing).contains(id) <==> exists|place: int|
            0 <= place < counters.len() && #[trigger] counters[place] != 0 && id
                == counter_feature(place, counters[place], bucketing),
    decreases counters.len(),
{
    if counters.len() > 0 {
        let fewer = counters.drop_last();
        features_come_from_counters(fewer, bucketing, id);
        if counter_features(fewer, bucketing).contains(id) {
            let place = choose|place: int|
                0 <= place < fewer.len() && #[trigger] fewer[place] != 0 && id == counter_feature(
                    place,
                    fewer[place],
                    bucketing,
                );
            assert(counters[place] == fewer[place]);
        }
        if exists|place: int|
            0 <= place < counters.len() && #[trigger] counters[place] != 0 && id
                == counter_feature(place, counters[place], bucketing) {
            let place = choose|place: int|
                0 <= place < counters.len() && #[trigger] counters[place] != 0 && id
                    == counter_feature(place, counters[place], bucketing);
            if place < fewer.len() {
                assert(fewer[place] == counters[place]);
            }
        }
        if counters.last() != 0 {
            assert(counters[counters.len() - 1] != 0);
        }
    }
}

/// Reads the counters of a case.
pub fn counter_coverage(counters: &Vec<u64>, counter_count: usize, bucketing: bool) -> (feedback:
    Result<ExecutionFeedback, String>)
    ensures
        match feedback {
            Ok(feedback) => counters@.len() == counter_count && feedback@ == (FeedbackModel {
                features: counter_features(counters@, bucketing),
                hit_count_weight: capped(counter_weight(counters@)),
                dictionary: Seq::empty(),
            }),
            Err(error) => counters@.len() != counter_count && error@ == count_changed(
                counter_count,
                counters@.len(),
            ),
        },
{
    if counters.len() != counter_count {
        let mut error = "LLVM coverage counter count changed from ".to_owned();
        push_decimal(&mut error, counter_count as u64);
        error.append(" to ");
        push_decimal(&mut error, counters.len() as u64);
        return Err(error);
    }
    let mut features = CoverageSet::new();
    let mut weight: u64 = 0;
    let mut index: usize = 0;
    assert(counters@.take(0) =~= Seq::<u64>::empty());
    while index < counters.len()
        invariant
            index <= counters@.len(),
            features@ == counter_features(counters@.take(index as int), bucketing),
            weight == capped(counter_weight(counters@.take(index as int))),
            counter_weight(counters@.take(index as int)) >= 0,
        decreases counters@.len() - index,
    {
        let counter: u64 = counters[index];
        proof {
            let more = counters@.take(index + 1);
            assert(more.drop_last() =~= counters@.take(index as int));
            assert(more.last() == counter);
        }
        if counter != 0 {
            let bucket: u8 = hit_count_bucket(counter);
            let id: u64 = if bucketing {
                (index as u64 % 0x0100_0000_0000_0000) * 256 + bucket as u64
            } else {
                index as u64
            };
            features.insert(CoverageId::new(id));
            weight = weight.saturating_add(1 + bucket as u64);
        }
        index += 1;
    }
    assert(counters@.take(counters@.len() as int) =~= counters@);
    let feedback = ExecutionFeedback::new(features, weight, Vec::new());
    assert(feedback@.dictionary =~= Seq::<Seq<u8>>::empty());
    Ok(feedback)
}

impl LlvmCoverage {
    /// A backend for a process with so many counters.
    pub fn new(counter_count: usize) -> (capture: Result<LlvmCoverage, String>)
        ensures
            match capture {
                Ok(capture) => counter_count > 0 && capture == (LlvmCoverage {
                    counter_count,
                    bucketing: true,
                }),
                Err(error) => counter_count == 0 && error@
                    == "LLVM coverage runtime reported no counters"@,
            },
    {
        if counter_count == 0 {
            return Err("LLVM coverage runtime reported no counters".to_owned());
        }
        Ok(LlvmCoverage { counter_count, bucketing: true })
    }

    /// The backend with or without hit-count buckets.
    pub fn with_bucketing(self, enabled: bool) -> (capture: LlvmCoverage)
        ensures
            capture == (LlvmCoverage { bucketing: enabled, ..self }),
    {
        LlvmCoverage { counter_count: self.counter_count, bucketing: enabled }
    }

    /// Reads the counters of a case.
    pub fn read(&self, counters: &Vec<u64>) -> (feedback: Result<ExecutionFeedback, String>)
        ensures
            match feedback {
                Ok(feedback) => counters@.len() == self.counter_count && feedback@ == (
                FeedbackModel {
                    features: counter_features(counters@, self.bucketing),
                    hit_count_weight: capped(counter_weight(counters@)),
                    dictionary: Seq::empty(),
                }),
                Err(error) => counters@.len() != self.counter_count && error@ == count_changed(
                    self.counter_count,
                    counters@.len(),
                ),
            },
    {
        counter_coverage(counters, self.counter_count, self.bucketing)
    }
}

/// A feature with a bucket names the place of its counter and the bucket, and one without names
/// the place alone: the features of two counters at two places differ.
pub proof fn features_name_their_counter(place: int, other: int, counter: u64, second: u64)
    requires
        0 <= place < 0x0100_0000_0000_0000,
        0 <= other < 0x0100_0000_0000_0000,
    ensures
        counter_feature(place, counter, true).0 / 256 == place,
        counter_feature(place, counter, true).0 % 256 == bucket_of(counter as int),
        counter_feature(place, counter, false).0 == place,
        place != other ==> counter_feature(place, counter, true) != counter_feature(
            other,
            second,
            true,
        ) && counter_feature(place, counter, false) != counter_feature(other, second, false),
{
}

/// Another counter that is not zero weighs one, and its bucket on top; one that is zero weighs
/// nothing.
pub proof fn counters_weigh_by_their_bucket(counters: Seq<u64>, counter: u64)
    ensures
        counter_weight(counters.push(0)) == counter_weight(counters),
        counter != 0 ==> counter_weight(counters.push(counter)) == counter_weight(counters) + 1
            + bucket_of(counter as int),
        counter_weight(Seq::empty()) == 0,
{
    assert(counters.push(counter).drop_last() =~= counters);
    assert(counters.push(0).drop_last() =~= counters);
}

} // verus!
