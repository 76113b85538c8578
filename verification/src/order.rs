//! Lexicographic order, and the stable order of a list by keys.

use vstd::prelude::*;

verus! {

/// `a` comes before `b`, from place `i` on.
pub open spec fn keys_less_from(a: Seq<u64>, b: Seq<u64>, i: int) -> bool
    decreases a.len() - i,
{
    if i < 0 || i >= b.len() {
        false
    } else if i >= a.len() {
        true
    } else if a[i] != b[i] {
        a[i] < b[i]
    } else {
        keys_less_from(a, b, i + 1)
    }
}

/// `a` comes before `b` lexicographically.
pub open spec fn keys_less(a: Seq<u64>, b: Seq<u64>) -> bool {
    keys_less_from(a, b, 0)
}

/// `a` comes before `b`, from place `i` on.
pub open spec fn bytes_less_from(a: Seq<u8>, b: Seq<u8>, i: int) -> bool
    decreases a.len() - i,
{
    if i < 0 || i >= b.len() {
        false
    } else if i >= a.len() {
        true
    } else if a[i] != b[i] {
        a[i] < b[i]
    } else {
        bytes_less_from(a, b, i + 1)
    }
}

/// `a` comes before `b` lexicographically.
pub open spec fn bytes_less(a: Seq<u8>, b: Seq<u8>) -> bool {
    bytes_less_from(a, b, 0)
}

/// The lexicographic order of bytes is strict and total.
pub(crate) proof fn lemma_bytes_less(a: Seq<u8>, b: Seq<u8>)
    ensures
        !bytes_less(a, a),
        bytes_less(a, b) ==> !bytes_less(b, a),
        bytes_less(a, b) || bytes_less(b, a) || a == b,
{
    lemma_bytes_less_from(a, a, 0);
    lemma_bytes_less_from(a, b, 0);
    if a.len() == b.len() && (forall|k: int| 0 <= k < a.len() ==> a[k] == b[k]) {
        assert(a =~= b);
    }
}

proof fn lemma_bytes_less_from(a: Seq<u8>, b: Seq<u8>, i: int)
    requires
        0 <= i,
    ensures
        a == b ==> !bytes_less_from(a, b, i),
        bytes_less_from(a, b, i) ==> !bytes_less_from(b, a, i),
        bytes_less_from(a, b, i) || bytes_less_from(b, a, i) || i > a.len() || i > b.len() || (
        a.len() == b.len() && forall|k: int| i <= k < a.len() ==> a[k] == b[k]),
    decreases a.len() + b.len() - 2 * i,
{
    if i < a.len() && i < b.len() {
        lemma_bytes_less_from(a, b, i + 1);
    }
}

/// The lexicographic order of bytes is transitive.
pub(crate) proof fn lemma_bytes_less_transitive(a: Seq<u8>, b: Seq<u8>, c: Seq<u8>)
    requires
        bytes_less(a, b),
        bytes_less(b, c),
    ensures
        bytes_less(a, c),
{
    lemma_bytes_less_transitive_from(a, b, c, 0);
}

proof fn lemma_bytes_less_transitive_from(a: Seq<u8>, b: Seq<u8>, c: Seq<u8>, i: int)
    requires
        0 <= i,
        bytes_less_from(a, b, i),
        bytes_less_from(b, c, i),
    ensures
        bytes_less_from(a, c, i),
    decreases a.len() + b.len() + c.len() - 3 * i,
{
    if i < a.len() && i < b.len() && i < c.len() && a[i] == b[i] && b[i] == c[i] {
        lemma_bytes_less_transitive_from(a, b, c, i + 1);
    }
}

proof fn lemma_keys_less_transitive_from(a: Seq<u64>, b: Seq<u64>, c: Seq<u64>, i: int)
    requires
        0 <= i,
        keys_less_from(a, b, i),
        keys_less_from(b, c, i),
    ensures
        keys_less_from(a, c, i),
    decreases a.len() + b.len() + c.len() - 3 * i,
{
    if i < a.len() && i < b.len() && i < c.len() && a[i] == b[i] && b[i] == c[i] {
        lemma_keys_less_transitive_from(a, b, c, i + 1);
    }
}

proof fn lemma_keys_less_from(a: Seq<u64>, b: Seq<u64>, i: int)
    requires
        0 <= i,
    ensures
        a == b ==> !keys_less_from(a, b, i),
        keys_less_from(a, b, i) ==> !keys_less_from(b, a, i),
        keys_less_from(a, b, i) || keys_less_from(b, a, i) || i > a.len() || i > b.len() || (a.len()
            == b.len() && forall|k: int| i <= k < a.len() ==> a[k] == b[k]),
    decreases a.len() + b.len() - 2 * i,
{
    if i < a.len() && i < b.len() {
        lemma_keys_less_from(a, b, i + 1);
    }
}

/// The lexicographic order of keys is strict and total.
pub(crate) proof fn lemma_keys_less(a: Seq<u64>, b: Seq<u64>)
    ensures
        !keys_less(a, a),
        keys_less(a, b) ==> !keys_less(b, a),
        keys_less(a, b) || keys_less(b, a) || a == b,
{
    lemma_keys_less_from(a, a, 0);
    lemma_keys_less_from(a, b, 0);
    if a.len() == b.len() && (forall|k: int| 0 <= k < a.len() ==> a[k] == b[k]) {
        assert(a =~= b);
    }
}

/// `a` comes before `b` lexicographically.
pub fn less_keys(a: &Vec<u64>, b: &Vec<u64>) -> (less: bool)
    ensures
        less == keys_less(a@, b@),
{
    let mut i: usize = 0;
    loop
        invariant
            i <= a@.len(),
            i <= b@.len(),
            keys_less(a@, b@) == keys_less_from(a@, b@, i as int),
        decreases a@.len() - i,
    {
        if i >= b.len() {
            return false;
        }
        if i >= a.len() {
            return true;
        }
        if a[i] != b[i] {
            return a[i] < b[i];
        }
        i += 1;
    }
}

/// `a` comes before `b` lexicographically.
pub fn less_bytes(a: &[u8], b: &[u8]) -> (less: bool)
    ensures
        less == bytes_less(a@, b@),
{
    let mut i: usize = 0;
    loop
        invariant
            i <= a@.len(),
            i <= b@.len(),
            bytes_less(a@, b@) == bytes_less_from(a@, b@, i as int),
        decreases a@.len() - i,
    {
        if i >= b.len() {
            return false;
        }
        if i >= a.len() {
            return true;
        }
        if a[i] != b[i] {
            return a[i] < b[i];
        }
        i += 1;
    }
}

/// Item `a` comes before item `b`: by its key, or where the keys are equal, by its place.
pub open spec fn before(keys: Seq<Vec<u64>>, a: int, b: int) -> bool {
    keys_less(keys[a]@, keys[b]@) || (keys[a]@ == keys[b]@ && a < b)
}

/// Every place in `low..high` once, in the order of the keys, equal keys by place.
pub open spec fn is_order_of(keys: Seq<Vec<u64>>, order: Seq<usize>, low: int, high: int) -> bool {
    &&& order.len() == high - low
    &&& forall|i: int| 0 <= i < order.len() ==> low <= #[trigger] order[i] < high
    &&& forall|place: usize| low <= place < high ==> #[trigger] order.contains(place)
    &&& forall|i: int, j: int|
        0 <= i < j < order.len() ==> #[trigger] before(keys, order[i] as int, order[j] as int)
}

/// The stable order of a list by its keys.
pub open spec fn is_stable_order(keys: Seq<Vec<u64>>, order: Seq<usize>) -> bool {
    is_order_of(keys, order, 0, keys.len() as int)
}

proof fn lemma_before_transitive(keys: Seq<Vec<u64>>, a: int, b: int, c: int)
    requires
        before(keys, a, b),
        before(keys, b, c),
    ensures
        before(keys, a, c),
{
    if keys_less(keys[a]@, keys[b]@) && keys_less(keys[b]@, keys[c]@) {
        lemma_keys_less_transitive_from(keys[a]@, keys[b]@, keys[c]@, 0);
    }
}

/// A list has one stable order.
pub proof fn stable_order_is_unique(keys: Seq<Vec<u64>>, first: Seq<usize>, second: Seq<usize>)
    requires
        is_stable_order(keys, first),
        is_stable_order(keys, second),
    ensures
        first == second,
{
    lemma_unique(keys, first, second, first.len());
    assert(first =~= second);
}

proof fn lemma_unique(keys: Seq<Vec<u64>>, first: Seq<usize>, second: Seq<usize>, n: nat)
    requires
        is_stable_order(keys, first),
        is_stable_order(keys, second),
        n <= first.len(),
    ensures
        forall|i: int| 0 <= i < n ==> first[i] == second[i],
    decreases n,
{
    if n > 0 {
        lemma_unique(keys, first, second, (n - 1) as nat);
        let i = n - 1;
        let x = first[i];
        let y = second[i];
        if x != y {
            assert(second.contains(x));
            assert(first.contains(y));
            let j = choose|j: int| 0 <= j < second.len() && second[j] == x;
            let k = choose|k: int| 0 <= k < first.len() && first[k] == y;
            if j < i {
                assert(first[j] == x);
                assert(before(keys, first[j] as int, first[i] as int));
                lemma_keys_less(keys[x as int]@, keys[x as int]@);
                assert(false);
            }
            if k < i {
                assert(second[k] == y);
                assert(before(keys, second[k] as int, second[i] as int));
                lemma_keys_less(keys[y as int]@, keys[y as int]@);
                assert(false);
            }
            assert(before(keys, second[i] as int, second[j] as int));
            assert(before(keys, first[i] as int, first[k] as int));
            lemma_keys_less(keys[x as int]@, keys[y as int]@);
            assert(false);
        }
    }
}

/// The order of the places `low..high`.
fn order_of(keys: &Vec<Vec<u64>>, low: usize, high: usize) -> (order: Vec<usize>)
    requires
        low <= high <= keys@.len(),
    ensures
        is_order_of(keys@, order@, low as int, high as int),
    decreases high - low,
{
    if high - low == 0 {
        return Vec::new();
    }
    if high - low == 1 {
        let mut order: Vec<usize> = Vec::with_capacity(1);
        order.push(low);
        assert(order@[0] == low);
        return order;
    }
    let middle: usize = low + (high - low) / 2;
    let left = order_of(keys, low, middle);
    let right = order_of(keys, middle, high);
    merge(keys, &left, &right, low, middle, high)
}

/// One order from the orders of the places `low..middle` and `middle..high`.
fn merge(
    keys: &Vec<Vec<u64>>,
    left: &Vec<usize>,
    right: &Vec<usize>,
    low: usize,
    middle: usize,
    high: usize,
) -> (order: Vec<usize>)
    requires
        low <= middle <= high <= keys@.len(),
        is_order_of(keys@, left@, low as int, middle as int),
        is_order_of(keys@, right@, middle as int, high as int),
    ensures
        is_order_of(keys@, order@, low as int, high as int),
{
    let mut order: Vec<usize> = Vec::with_capacity(high - low);
    let mut i: usize = 0;
    let mut j: usize = 0;
    while i < left.len() || j < right.len()
        invariant
            low <= middle <= high <= keys@.len(),
            is_order_of(keys@, left@, low as int, middle as int),
            is_order_of(keys@, right@, middle as int, high as int),
            i <= left@.len(),
            j <= right@.len(),
            order@.len() == i + j,
            forall|k: int| 0 <= k < order@.len() ==> low <= #[trigger] order@[k] < high,
            forall|k: int| 0 <= k < i ==> order@.contains(#[trigger] left@[k]),
            forall|k: int| 0 <= k < j ==> order@.contains(#[trigger] right@[k]),
            forall|a: int, b: int|
                0 <= a < b < order@.len() ==> #[trigger] before(
                    keys@,
                    order@[a] as int,
                    order@[b] as int,
                ),
            forall|a: int, b: int|
                0 <= a < order@.len() && i <= b < left@.len() ==> #[trigger] before(
                    keys@,
                    order@[a] as int,
                    left@[b] as int,
                ),
            forall|a: int, b: int|
                0 <= a < order@.len() && j <= b < right@.len() ==> #[trigger] before(
                    keys@,
                    order@[a] as int,
                    right@[b] as int,
                ),
        decreases left@.len() - i + right@.len() - j,
    {
        let take_left: bool = if i >= left.len() {
            false
        } else if j >= right.len() {
            true
        } else {
            !less_keys(&keys[right[j]], &keys[left[i]])
        };
        let ghost done = order@;
        let next: usize = if take_left {
            left[i]
        } else {
            right[j]
        };
        proof {
            if i < left@.len() && j < right@.len() {
                lemma_keys_less(keys@[right@[j as int] as int]@, keys@[left@[i as int] as int]@);
            }
            assert forall|b: int| i < b < left@.len() implies #[trigger] before(
                keys@,
                next as int,
                left@[b] as int,
            ) by {
                assert(before(keys@, left@[i as int] as int, left@[b] as int));
                if !take_left {
                    lemma_before_transitive(
                        keys@,
                        next as int,
                        left@[i as int] as int,
                        left@[b] as int,
                    );
                }
            }
            assert forall|b: int| j < b < right@.len() implies #[trigger] before(
                keys@,
                next as int,
                right@[b] as int,
            ) by {
                assert(before(keys@, right@[j as int] as int, right@[b] as int));
                if take_left {
                    lemma_before_transitive(
                        keys@,
                        next as int,
                        right@[j as int] as int,
                        right@[b] as int,
                    );
                }
            }
        }
        order.push(next);
        proof {
            assert(order@ =~= done.push(next));
            assert(order@[done.len() as int] == next);
            assert forall|k: int| 0 <= k < i implies order@.contains(#[trigger] left@[k]) by {
                let p = choose|p: int| 0 <= p < done.len() && done[p] == left@[k];
                assert(order@[p] == left@[k]);
            }
            assert forall|k: int| 0 <= k < j implies order@.contains(#[trigger] right@[k]) by {
                let p = choose|p: int| 0 <= p < done.len() && done[p] == right@[k];
                assert(order@[p] == right@[k]);
            }
        }
        if take_left {
            i += 1;
        } else {
            j += 1;
        }
    }
    proof {
        assert(order@.len() == high - low);
        assert forall|place: usize| low <= place < high implies #[trigger] order@.contains(
            place,
        ) by {
            if place < middle {
                assert(left@.contains(place));
                let k = choose|k: int| 0 <= k < left@.len() && left@[k] == place;
                assert(order@.contains(left@[k]));
            } else {
                assert(right@.contains(place));
                let k = choose|k: int| 0 <= k < right@.len() && right@[k] == place;
                assert(order@.contains(right@[k]));
            }
        }
    }
    order
}

/// The stable order of a list by its keys.
pub fn stable_order(keys: &Vec<Vec<u64>>) -> (order: Vec<usize>)
    ensures
        is_stable_order(keys@, order@),
{
    order_of(keys, 0, keys.len())
}

/// `items`, which are in order, with `item` behind every one whose key is not larger.
pub open spec fn inserted<T>(items: Seq<T>, item: T, key: spec_fn(T) -> Seq<u64>) -> Seq<T>
    decreases items.len(),
{
    if items.len() == 0 {
        seq![item]
    } else if keys_less(key(item), key(items.last())) {
        inserted(items.drop_last(), item, key).push(items.last())
    } else {
        items.push(item)
    }
}

/// The items in the order of their keys; equal keys keep the order of the items.
pub open spec fn sorted_by<T>(items: Seq<T>, key: spec_fn(T) -> Seq<u64>) -> Seq<T>
    decreases items.len(),
{
    if items.len() == 0 {
        Seq::empty()
    } else {
        inserted(sorted_by(items.drop_last(), key), items.last(), key)
    }
}

/// The items in this order.
pub open spec fn arranged<T>(items: Seq<T>, order: Seq<usize>) -> Seq<T> {
    Seq::new(order.len(), |k: int| items[order[k] as int])
}

/// To sort is to arrange in the stable order.
pub(crate) proof fn lemma_sorted_by_is_arranged<T>(
    items: Seq<T>,
    keys: Seq<Vec<u64>>,
    order: Seq<usize>,
    key: spec_fn(T) -> Seq<u64>,
)
    requires
        keys.len() == items.len(),
        forall|i: int| 0 <= i < items.len() ==> (#[trigger] keys[i])@ == key(items[i]),
        is_stable_order(keys, order),
    ensures
        sorted_by(items, key) == arranged(items, order),
    decreases items.len(),
{
    if items.len() == 0 {
        assert(arranged(items, order) =~= Seq::<T>::empty());
    } else {
        let n = items.len() - 1;
        lemma_place_occurs(keys, order, n);
        let p = choose|p: int| 0 <= p < order.len() && order[p] == n;
        let rest = order.remove(p);
        let fewer = keys.drop_last();
        assert(is_stable_order(fewer, rest)) by {
            lemma_without_last(keys, order, p);
        }
        assert forall|i: int| 0 <= i < items.drop_last().len() implies (#[trigger] fewer[i])@ == key(
            items.drop_last()[i],
        ) by {
            assert(fewer[i] == keys[i]);
        }
        lemma_sorted_by_is_arranged(items.drop_last(), fewer, rest, key);
        assert forall|k: int| 0 <= k < order.len() implies #[trigger] order[k] < items.len() by {}
        assert(arranged(items.drop_last(), rest) =~= arranged(items, rest)) by {
            assert forall|k: int| 0 <= k < rest.len() implies #[trigger] arranged(
                items.drop_last(),
                rest,
            )[k] == arranged(items, rest)[k] by {
                assert(rest[k] < n);
            }
        }
        lemma_inserted_at(items, keys, order, p, rest.len(), key);
        assert(rest.take(rest.len() as int) =~= rest);
    }
}

proof fn lemma_place_occurs(keys: Seq<Vec<u64>>, order: Seq<usize>, n: int)
    requires
        is_stable_order(keys, order),
        0 <= n < keys.len(),
    ensures
        exists|i: int| 0 <= i < order.len() && order[i] == n,
{
    if n <= usize::MAX {
        assert(order.contains(n as usize));
        let i = choose|i: int| 0 <= i < order.len() && order[i] == n as usize;
        assert(order[i] == n);
    } else {
        lemma_places_fit(keys, order, order.len());
    }
}

/// A strictly ascending list of places cannot be longer than the places.
proof fn lemma_places_fit(keys: Seq<Vec<u64>>, order: Seq<usize>, n: nat)
    requires
        is_stable_order(keys, order),
        n <= order.len(),
    ensures
        n <= usize::MAX + 1,
{
    let places = Seq::new(n, |i: int| order[i] as int);
    assert(places.no_duplicates()) by {
        assert forall|i: int, j: int| 0 <= i < n && 0 <= j < n && i != j implies places[i]
            != places[j] by {
            if i < j {
                assert(before(keys, order[i] as int, order[j] as int));
                lemma_keys_less(keys[order[i] as int]@, keys[order[i] as int]@);
            } else {
                assert(before(keys, order[j] as int, order[i] as int));
                lemma_keys_less(keys[order[i] as int]@, keys[order[i] as int]@);
            }
        }
    }
    places.unique_seq_to_set();
    let all = vstd::set_lib::set_int_range(0, usize::MAX + 1);
    vstd::set_lib::lemma_int_range(0, usize::MAX + 1);
    assert(places.to_set().subset_of(all)) by {
        assert forall|x: int| places.to_set().contains(x) implies all.contains(x) by {
            let i = choose|i: int| 0 <= i < places.len() && places[i] == x;
            assert(places[i] == order[i] as int);
        }
    }
    vstd::set_lib::lemma_len_subset(places.to_set(), all);
}

/// Without the last item, its place leaves the order.
proof fn lemma_without_last(keys: Seq<Vec<u64>>, order: Seq<usize>, p: int)
    requires
        is_stable_order(keys, order),
        keys.len() > 0,
        0 <= p < order.len(),
        order[p] == keys.len() - 1,
    ensures
        is_stable_order(keys.drop_last(), order.remove(p)),
{
    let fewer = keys.drop_last();
    let rest = order.remove(p);
    let n = keys.len() - 1;
    assert forall|i: int| 0 <= i < rest.len() implies 0 <= #[trigger] rest[i] < n by {
        let j = if i < p {
            i
        } else {
            i + 1
        };
        assert(rest[i] == order[j]);
        if order[j] == n {
            if j < p {
                assert(before(keys, order[j] as int, order[p] as int));
            } else {
                assert(before(keys, order[p] as int, order[j] as int));
            }
            lemma_keys_less(keys[n]@, keys[n]@);
        }
    }
    assert forall|place: usize| 0 <= place < n implies #[trigger] rest.contains(place) by {
        assert(order.contains(place));
        let j = choose|j: int| 0 <= j < order.len() && order[j] == place;
        if j < p {
            assert(rest[j] == place);
        } else {
            assert(rest[j - 1] == place);
        }
    }
    assert forall|i: int, j: int| 0 <= i < j < rest.len() implies #[trigger] before(
        fewer,
        rest[i] as int,
        rest[j] as int,
    ) by {
        let a = if i < p {
            i
        } else {
            i + 1
        };
        let b = if j < p {
            j
        } else {
            j + 1
        };
        assert(before(keys, order[a] as int, order[b] as int));
        assert(rest[i] == order[a] && rest[j] == order[b]);
        assert(0 <= rest[i] < n);
        assert(0 <= rest[j] < n);
        assert(fewer[rest[i] as int] == keys[rest[i] as int]);
        assert(fewer[rest[j] as int] == keys[rest[j] as int]);
    }
}

/// The last item goes where its place stands in the order.
proof fn lemma_inserted_at<T>(
    items: Seq<T>,
    keys: Seq<Vec<u64>>,
    order: Seq<usize>,
    p: int,
    m: nat,
    key: spec_fn(T) -> Seq<u64>,
)
    requires
        keys.len() == items.len(),
        items.len() > 0,
        forall|i: int| 0 <= i < items.len() ==> (#[trigger] keys[i])@ == key(items[i]),
        is_stable_order(keys, order),
        0 <= p < order.len(),
        order[p] == items.len() - 1,
        p <= m < order.len(),
    ensures
        inserted(arranged(items, order.remove(p).take(m as int)), items.last(), key) == arranged(
            items,
            order.take(m as int + 1),
        ),
    decreases m,
{
    let rest = order.remove(p);
    let shown = arranged(items, rest.take(m as int));
    let n = items.len() - 1;
    assert(keys[n]@ == key(items[n]));
    if m > 0 {
        let place = rest[m - 1];
        assert(shown.last() == items[place as int]);
        assert(keys[place as int]@ == key(items[place as int])) by {
            let j = if m - 1 < p {
                m - 1
            } else {
                m as int
            };
            assert(place == order[j]);
        }
        if m > p {
            assert(place == order[m as int]);
            assert(before(keys, order[p] as int, order[m as int] as int));
            assert(place < n) by {
                if place >= n {
                    lemma_keys_less(keys[n]@, keys[n]@);
                }
            }
            assert(keys_less(keys[n]@, keys[place as int]@));
            lemma_inserted_at(items, keys, order, p, (m - 1) as nat, key);
            assert(shown.drop_last() =~= arranged(items, rest.take(m - 1)));
            assert(arranged(items, order.take(m as int)).push(shown.last()) =~= arranged(
                items,
                order.take(m as int + 1),
            ));
        } else {
            assert(place == order[m - 1]);
            assert(before(keys, order[m - 1] as int, order[p] as int));
            lemma_keys_less(keys[place as int]@, keys[n]@);
            lemma_keys_less(keys[n]@, keys[n]@);
            assert(shown.push(items.last()) =~= arranged(items, order.take(m as int + 1)));
        }
    } else {
        assert(shown =~= Seq::<T>::empty());
        assert(seq![items.last()] =~= arranged(items, order.take(1)));
    }
}

/// To sort is to change the order of the items only.
pub proof fn sorting_keeps_items<T>(items: Seq<T>, key: spec_fn(T) -> Seq<u64>)
    ensures
        sorted_by(items, key).to_multiset() == items.to_multiset(),
        sorted_by(items, key).len() == items.len(),
    decreases items.len(),
{
    broadcast use vstd::seq_lib::group_to_multiset_ensures;

    if items.len() > 0 {
        sorting_keeps_items(items.drop_last(), key);
        lemma_inserted_items(sorted_by(items.drop_last(), key), items.last(), key);
        assert(items =~= items.drop_last().push(items.last()));
    }
}

proof fn lemma_inserted_items<T>(items: Seq<T>, item: T, key: spec_fn(T) -> Seq<u64>)
    ensures
        inserted(items, item, key).to_multiset() == items.to_multiset().insert(item),
        inserted(items, item, key).len() == items.len() + 1,
    decreases items.len(),
{
    broadcast use vstd::seq_lib::group_to_multiset_ensures;

    if items.len() == 0 {
        assert(seq![item] =~= items.push(item));
    } else if keys_less(key(item), key(items.last())) {
        lemma_inserted_items(items.drop_last(), item, key);
        assert(items =~= items.drop_last().push(items.last()));
        assert(items.to_multiset().insert(item) =~= items.drop_last().to_multiset().insert(
            item,
        ).insert(items.last()));
    }
}

/// What is sorted stands in the order of the keys.
pub proof fn sorting_sorts<T>(items: Seq<T>, key: spec_fn(T) -> Seq<u64>)
    ensures
        forall|i: int, j: int|
            0 <= i < j < sorted_by(items, key).len() ==> !keys_less(
                key(#[trigger] sorted_by(items, key)[j]),
                key(#[trigger] sorted_by(items, key)[i]),
            ),
    decreases items.len(),
{
    if items.len() > 0 {
        sorting_sorts(items.drop_last(), key);
        lemma_inserted_sorted(sorted_by(items.drop_last(), key), items.last(), key);
    }
}

proof fn lemma_inserted_sorted<T>(items: Seq<T>, item: T, key: spec_fn(T) -> Seq<u64>)
    requires
        forall|i: int, j: int|
            0 <= i < j < items.len() ==> !keys_less(
                key(#[trigger] items[j]),
                key(#[trigger] items[i]),
            ),
    ensures
        forall|i: int, j: int|
            0 <= i < j < inserted(items, item, key).len() ==> !keys_less(
                key(#[trigger] inserted(items, item, key)[j]),
                key(#[trigger] inserted(items, item, key)[i]),
            ),
        forall|i: int|
            0 <= i < inserted(items, item, key).len() ==> {
                ||| #[trigger] inserted(items, item, key)[i] == item
                ||| items.contains(inserted(items, item, key)[i])
            },
    decreases items.len(),
{
    let all = inserted(items, item, key);
    if items.len() == 0 {
    } else if keys_less(key(item), key(items.last())) {
        let fewer = items.drop_last();
        lemma_inserted_sorted(fewer, item, key);
        let front = inserted(fewer, item, key);
        assert(all == front.push(items.last()));
        assert forall|i: int| 0 <= i < front.len() implies !keys_less(
            key(items.last()),
            key(#[trigger] front[i]),
        ) && (front[i] == item || items.contains(front[i])) by {
            if front[i] == item {
                lemma_keys_less(key(item), key(items.last()));
            } else {
                assert(fewer.contains(front[i]));
                let k = choose|k: int| 0 <= k < fewer.len() && fewer[k] == front[i];
                assert(items[k] == front[i]);
                assert(items.last() == items[items.len() - 1]);
            }
        }
        assert forall|i: int, j: int| 0 <= i < j < all.len() implies !keys_less(
            key(#[trigger] all[j]),
            key(#[trigger] all[i]),
        ) by {
            if j < front.len() {
                assert(all[j] == front[j] && all[i] == front[i]);
            } else {
                assert(all[i] == front[i]);
            }
        }
        assert forall|i: int| 0 <= i < all.len() implies {
            ||| #[trigger] all[i] == item
            ||| items.contains(all[i])
        } by {
            if i < front.len() {
                assert(all[i] == front[i]);
            } else {
                assert(items[items.len() - 1] == all[i]);
            }
        }
    } else {
        assert(all == items.push(item));
        assert forall|i: int, j: int| 0 <= i < j < all.len() implies !keys_less(
            key(#[trigger] all[j]),
            key(#[trigger] all[i]),
        ) by {
            if j == items.len() {
                let last = items.last();
                assert(all[i] == items[i]);
                if keys_less(key(item), key(items[i])) {
                    if i < items.len() - 1 {
                        assert(!keys_less(key(items[items.len() - 1]), key(items[i])));
                        lemma_keys_less(key(items[i]), key(last));
                        if keys_less(key(items[i]), key(last)) {
                            lemma_keys_less_transitive_from(
                                key(item),
                                key(items[i]),
                                key(last),
                                0,
                            );
                        }
                    }
                }
            } else {
                assert(all[j] == items[j] && all[i] == items[i]);
            }
        }
        assert forall|i: int| 0 <= i < all.len() implies {
            ||| #[trigger] all[i] == item
            ||| items.contains(all[i])
        } by {
            if i < items.len() {
                assert(items[i] == all[i]);
            }
        }
    }
}

/// The lexicographic order of keys carries over.
pub(crate) proof fn lemma_keys_less_transitive(a: Seq<u64>, b: Seq<u64>, c: Seq<u64>)
    requires
        keys_less(a, b),
        keys_less(b, c),
    ensures
        keys_less(a, c),
{
    lemma_keys_less_transitive_from(a, b, c, 0);
}

/// The first place at which two byte paths differ decides which comes first; one that begins with
/// the other comes behind it.
pub proof fn the_first_different_byte_decides(a: Seq<u8>, b: Seq<u8>, i: int)
    requires
        0 <= i <= a.len(),
        i <= b.len(),
        forall|k: int| 0 <= k < i ==> a[k] == b[k],
    ensures
        i < a.len() && i < b.len() && a[i] < b[i] ==> bytes_less(a, b) && !bytes_less(b, a),
        i == a.len() && i < b.len() ==> bytes_less(a, b) && !bytes_less(b, a),
        i == a.len() && i == b.len() ==> !bytes_less(a, b) && !bytes_less(b, a),
{
    lemma_same_bytes(a, b, 0, i);
    lemma_same_bytes(b, a, 0, i);
}

proof fn lemma_same_bytes(a: Seq<u8>, b: Seq<u8>, from: int, i: int)
    requires
        0 <= from <= i <= a.len(),
        i <= b.len(),
        forall|k: int| 0 <= k < i ==> a[k] == b[k],
    ensures
        bytes_less_from(a, b, from) == bytes_less_from(a, b, i),
    decreases i - from,
{
    if from < i {
        lemma_same_bytes(a, b, from + 1, i);
    }
}

/// The first place at which two keys differ decides which comes first.
pub proof fn the_first_different_key_decides(a: Seq<u64>, b: Seq<u64>, i: int)
    requires
        0 <= i <= a.len(),
        i <= b.len(),
        forall|k: int| 0 <= k < i ==> a[k] == b[k],
    ensures
        i < a.len() && i < b.len() && a[i] < b[i] ==> keys_less(a, b) && !keys_less(b, a),
        i == a.len() && i < b.len() ==> keys_less(a, b) && !keys_less(b, a),
        i == a.len() && i == b.len() ==> !keys_less(a, b) && !keys_less(b, a),
{
    lemma_same_keys(a, b, 0, i);
    lemma_same_keys(b, a, 0, i);
}

proof fn lemma_same_keys(a: Seq<u64>, b: Seq<u64>, from: int, i: int)
    requires
        0 <= from <= i <= a.len(),
        i <= b.len(),
        forall|k: int| 0 <= k < i ==> a[k] == b[k],
    ensures
        keys_less_from(a, b, from) == keys_less_from(a, b, i),
    decreases i - from,
{
    if from < i {
        lemma_same_keys(a, b, from + 1, i);
    }
}

} // verus!
