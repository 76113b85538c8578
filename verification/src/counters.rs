//! Coarse buckets for hit counts.

use vstd::prelude::*;

verus! {

/// Bucket of a hit count: exact up to three, then by powers of two, with one bucket for
/// everything from 32 to 127 and one for the rest.
pub open spec fn bucket_of(count: int) -> int {
    if count <= 1 {
        0
    } else if count == 2 {
        1
    } else if count == 3 {
        2
    } else if count <= 7 {
        3
    } else if count <= 15 {
        4
    } else if count <= 31 {
        5
    } else if count <= 127 {
        6
    } else {
        7
    }
}

/// Bucket of an 8-bit hit counter.
pub fn hit_count_bucket(counter: u8) -> (bucket: u8)
    ensures
        bucket == bucket_of(counter as int),
        bucket <= 7,
{
    if counter <= 1 {
        0
    } else if counter == 2 {
        1
    } else if counter == 3 {
        2
    } else if counter <= 7 {
        3
    } else if counter <= 15 {
        4
    } else if counter <= 31 {
        5
    } else if counter <= 127 {
        6
    } else {
        7
    }
}

/// More hits never fall into a lower bucket.
pub proof fn buckets_ascend(fewer: int, more: int)
    requires
        fewer <= more,
    ensures
        bucket_of(fewer) <= bucket_of(more),
{
}

/// The buckets begin at these counts and at no others: 2, 3, the powers of two from 4 to 32, and
/// 128; from each to the next there is one step.
pub proof fn buckets_begin_at_these_counts(count: int)
    requires
        0 <= count,
    ensures
        bucket_of(0) == 0,
        bucket_of(count + 1) - bucket_of(count) == if count + 1 == 2 || count + 1 == 3 || count + 1
            == 4 || count + 1 == 8 || count + 1 == 16 || count + 1 == 32 || count + 1 == 128 {
            1int
        } else {
            0
        },
{
}

} // verus!
