//! The values that the comparisons of the harness gave away.

use crate::mutation::byte_lists;
use crate::reducer::state::same_bytes;
use vstd::prelude::*;

verus! {

/// The most values that are kept.
pub const MAX_DICTIONARY_VALUES: usize = 256;

/// A dictionary with one more value: values that are empty or already there change nothing, and
/// neither does any value once the dictionary is full.
pub open spec fn with_value(dictionary: Seq<Seq<u8>>, value: Seq<u8>) -> Seq<Seq<u8>> {
    if dictionary.len() >= MAX_DICTIONARY_VALUES || value.len() == 0 || dictionary.contains(value) {
        dictionary
    } else {
        dictionary.push(value)
    }
}

/// A dictionary with more values, taken in their order.
pub open spec fn with_values(dictionary: Seq<Seq<u8>>, values: Seq<Seq<u8>>) -> Seq<Seq<u8>>
    decreases values.len(),
{
    if values.len() == 0 {
        dictionary
    } else {
        with_value(with_values(dictionary, values.drop_last()), values.last())
    }
}

/// A dictionary that holds each of its values once, none of them empty, and not too many.
pub open spec fn is_dictionary(dictionary: Seq<Seq<u8>>) -> bool {
    &&& dictionary.len() <= MAX_DICTIONARY_VALUES
    &&& dictionary.no_duplicates()
    &&& forall|i: int| 0 <= i < dictionary.len() ==> (#[trigger] dictionary[i]).len() > 0
}

/// More values leave a dictionary a dictionary, and keep what it held where it was.
pub proof fn dictionaries_grow(dictionary: Seq<Seq<u8>>, values: Seq<Seq<u8>>)
    requires
        is_dictionary(dictionary),
    ensures
        is_dictionary(with_values(dictionary, values)),
        dictionary.len() <= with_values(dictionary, values).len(),
        with_values(dictionary, values).take(dictionary.len() as int) == dictionary,
    decreases values.len(),
{
    if values.len() == 0 {
        assert(dictionary.take(dictionary.len() as int) =~= dictionary);
    } else {
        dictionaries_grow(dictionary, values.drop_last());
        let before = with_values(dictionary, values.drop_last());
        let after = with_values(dictionary, values);
        assert(after.take(dictionary.len() as int) =~= before.take(dictionary.len() as int));
        assert(after.no_duplicates()) by {
            assert forall|i: int, j: int|
                0 <= i < after.len() && 0 <= j < after.len() && i != j implies after[i] != after[j] by {
                if i < before.len() {
                    assert(before.contains(before[i]));
                }
                if j < before.len() {
                    assert(before.contains(before[j]));
                }
            }
        }
    }
}

/// A value that is not empty is held after it was offered, unless the dictionary is full.
pub proof fn offered_values_are_held(dictionary: Seq<Seq<u8>>, values: Seq<Seq<u8>>, i: int)
    requires
        0 <= i < values.len(),
        values[i].len() > 0,
        with_values(dictionary, values).len() < MAX_DICTIONARY_VALUES,
    ensures
        with_values(dictionary, values).contains(values[i]),
    decreases values.len(),
{
    let fewer = values.drop_last();
    let before = with_values(dictionary, fewer);
    let after = with_values(dictionary, values);
    assert(before.len() <= after.len());
    if i == values.len() - 1 {
        if !before.contains(values[i]) {
            assert(after[before.len() as int] == values[i]);
        }
    } else {
        assert(fewer[i] == values[i]);
        offered_values_are_held(dictionary, fewer, i);
        let at = choose|at: int| 0 <= at < before.len() && before[at] == values[i];
        assert(after[at] == values[i]);
    }
}

/// Whether the dictionary holds the value.
fn holds(dictionary: &Vec<Vec<u8>>, value: &Vec<u8>) -> (held: bool)
    ensures
        held == byte_lists(dictionary@).contains(value@),
{
    let mut i: usize = 0;
    while i < dictionary.len()
        invariant
            i <= dictionary@.len(),
            forall|k: int| 0 <= k < i ==> (#[trigger] byte_lists(dictionary@)[k]) != value@,
        decreases dictionary@.len() - i,
    {
        if same_bytes(&dictionary[i], value) {
            assert(byte_lists(dictionary@)[i as int] == value@);
            return true;
        }
        i += 1;
    }
    false
}

/// Puts more values into a dictionary.
pub fn merge_dictionary_values(dictionary: &mut Vec<Vec<u8>>, values: Vec<Vec<u8>>)
    ensures
        byte_lists(final(dictionary)@) == with_values(
            byte_lists(old(dictionary)@),
            byte_lists(values@),
        ),
{
    let ghost before = byte_lists(dictionary@);
    let ghost lists = byte_lists(values@);
    let total: usize = values.len();
    let mut i: usize = 0;
    assert(lists.take(0) =~= Seq::<Seq<u8>>::empty());
    while i < total
        invariant
            i <= total,
            total == values@.len(),
            lists == byte_lists(values@),
            byte_lists(dictionary@) == with_values(before, lists.take(i as int)),
        decreases total - i,
    {
        assert(lists.take(i + 1).drop_last() =~= lists.take(i as int));
        assert(lists.take(i + 1).last() == values@[i as int]@);
        assert(byte_lists(dictionary@).len() == dictionary@.len());
        if dictionary.len() < MAX_DICTIONARY_VALUES && values[i].len() > 0 && !holds(
            dictionary,
            &values[i],
        ) {
            let ghost held = byte_lists(dictionary@);
            dictionary.push(crate::trace::copy_bytes(&values[i]));
            assert(byte_lists(dictionary@) =~= held.push(values@[i as int]@));
        }
        i += 1;
    }
    assert(lists.take(lists.len() as int) =~= lists);
}

} // verus!
