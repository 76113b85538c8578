//! Random draws.
//!
//! The generator gives other numbers on other machines, so nothing is said of a draw but the range
//! it lies in, and of the bytes of a [`Source`] that they come off one generator in order.

use rand::rngs::SmallRng;
use rand::{Rng, RngCore, SeedableRng};
use vstd::prelude::*;

verus! {

/// The small generator of `rand`: a value of it is never looked into.
#[verifier::external_type_specification]
#[verifier::external_body]
pub struct ExSmallRng(SmallRng);

/// `SmallRng::seed_from_u64`: a generator. Which numbers follow is left open: they differ between
/// machines.
#[verifier::external_body]
pub(crate) fn seeded(seed: u64) -> (rng: SmallRng) {
    SmallRng::seed_from_u64(seed)
}

/// `Rng::random_range` for indices: a number from `low` to `high`, both of them included.
#[verifier::external_body]
pub(crate) fn draw_size(rng: &mut SmallRng, low: usize, high: usize) -> (value: usize)
    requires
        low <= high,
    ensures
        low <= value <= high,
{
    rng.random_range(low..=high)
}

/// `Rng::random_range` for bytes: a number from `low` to `high`, both of them included.
#[verifier::external_body]
pub(crate) fn draw_byte_in(rng: &mut SmallRng, low: u8, high: u8) -> (value: u8)
    requires
        low <= high,
    ensures
        low <= value <= high,
{
    rng.random_range(low..=high)
}

/// `Rng::random_range` for 16 bits: a number from `low` to `high`, both of them included.
#[verifier::external_body]
pub(crate) fn draw_u16_in(rng: &mut SmallRng, low: u16, high: u16) -> (value: u16)
    requires
        low <= high,
    ensures
        low <= value <= high,
{
    rng.random_range(low..=high)
}

/// `Rng::random_range` for 32 bits: a number from `low` to `high`, both of them included.
#[verifier::external_body]
pub(crate) fn draw_u32_in(rng: &mut SmallRng, low: u32, high: u32) -> (value: u32)
    requires
        low <= high,
    ensures
        low <= value <= high,
{
    rng.random_range(low..=high)
}

/// `Rng::random_range` for 128 bits: a number from `low` to `high`, both of them included.
#[verifier::external_body]
pub(crate) fn draw_u128_in(rng: &mut SmallRng, low: u128, high: u128) -> (value: u128)
    requires
        low <= high,
    ensures
        low <= value <= high,
{
    rng.random_range(low..=high)
}

/// `Rng::random_ratio`: true with a chance of `numerator` in `denominator`, which is certain where
/// they are equal and ruled out where `numerator` is zero.
#[verifier::external_body]
pub(crate) fn draw_chance(rng: &mut SmallRng, numerator: u32, denominator: u32) -> (hit: bool)
    requires
        0 < denominator,
        numerator <= denominator,
    ensures
        numerator == denominator ==> hit,
        numerator == 0 ==> !hit,
{
    rng.random_ratio(numerator, denominator)
}

/// `Rng::random` for a byte: any byte.
#[verifier::external_body]
pub(crate) fn draw_byte(rng: &mut SmallRng) -> (value: u8) {
    rng.random()
}

/// `Rng::random` for a word: any word.
#[verifier::external_body]
pub(crate) fn draw_word(rng: &mut SmallRng) -> (value: u64) {
    rng.random()
}

/// `RngCore::fill_bytes` on one byte: any byte.
#[verifier::external_body]
pub(crate) fn fill_byte(rng: &mut SmallRng) -> (value: u8) {
    let mut byte = [0];
    rng.fill_bytes(&mut byte);
    byte[0]
}

/// One byte off a generator, and the generator that goes on from there: a single
/// `RngCore::fill_bytes` stands between the two.
pub(crate) fn next_byte_of(rng: SmallRng) -> (step: (SmallRng, u8))
    ensures
        exists|drawn: &mut SmallRng, byte: u8| *drawn == rng && *final(drawn) == step.0 && byte
            == step.1 && #[trigger] call_ensures(fill_byte, (drawn,), byte),
{
    let mut next = rng;
    let byte: u8 = fill_byte(&mut next);
    (next, byte)
}

/// The fresh bytes of a seed: all of them come off one generator, which is seeded when the first
/// of them is asked for.
pub struct Source {
    seed: u64,
    rng: Option<SmallRng>,
}

/// A generator that was just seeded.
pub closed spec fn is_seeded(rng: SmallRng, seed: u64) -> bool {
    call_ensures(seeded, (seed,), rng)
}

impl Source {
    pub closed spec fn seed_of(self) -> u64 {
        self.seed
    }

    /// The generator that the next byte comes off; one that was just seeded, while none has come.
    pub closed spec fn goes_on_with(self, rng: SmallRng) -> bool {
        match self.rng {
            Some(own) => rng == own,
            None => is_seeded(rng, self.seed),
        }
    }

    /// The start of the bytes of `seed`.
    pub fn new(seed: u64) -> (source: Self)
        ensures
            starts(source, seed),
    {
        Source { seed, rng: None }
    }

    /// The next byte.
    pub fn next_byte(&mut self) -> (byte: u8)
        ensures
            gives(*old(self), byte, *final(self)),
    {
        let rng = match self.rng.take() {
            Some(rng) => rng,
            None => seeded(self.seed),
        };
        let ghost before = rng;
        assert(old(self).goes_on_with(before));
        let (next, byte) = next_byte_of(rng);
        assert(call_ensures(next_byte_of, (before,), (next, byte)));
        self.rng = Some(next);
        byte
    }
}

/// No byte of `seed` has been given.
pub open spec fn starts(source: Source, seed: u64) -> bool {
    &&& source.seed_of() == seed
    &&& forall|rng: SmallRng| #[trigger] source.goes_on_with(rng) <==> is_seeded(rng, seed)
}

/// The source gives a byte: it comes off the generator that the source stood at, and the source
/// goes on with the generator that is left.
pub closed spec fn gives(before: Source, byte: u8, after: Source) -> bool {
    exists|rng: SmallRng, next: SmallRng|
        {
            &&& before.goes_on_with(rng)
            &&& #[trigger] call_ensures(next_byte_of, (rng,), (next, byte))
            &&& after.seed_of() == before.seed_of()
            &&& forall|other: SmallRng| #[trigger] after.goes_on_with(other) <==> other == next
        }
}

/// A source that gives these bytes, one after the other, stands at these places.
pub open spec fn stands_at(places: Seq<Source>, bytes: Seq<u8>) -> bool {
    &&& places.len() == bytes.len() + 1
    &&& forall|k: int|
        0 <= k < bytes.len() ==> gives(#[trigger] places[k], bytes[k], places[k + 1])
}

/// The source gives these bytes, one after the other.
pub open spec fn runs_on(before: Source, after: Source, bytes: Seq<u8>) -> bool {
    exists|places: Seq<Source>|
        #[trigger] stands_at(places, bytes) && places[0] == before && places[bytes.len() as int]
            == after
}

/// A generator that gives these bytes, one after the other, passes through these states.
pub closed spec fn passes_through(states: Seq<SmallRng>, bytes: Seq<u8>) -> bool {
    &&& states.len() == bytes.len() + 1
    &&& forall|k: int|
        0 <= k < bytes.len() ==> call_ensures(
            next_byte_of,
            (#[trigger] states[k],),
            (states[k + 1], bytes[k]),
        )
}

/// To give nothing is to stay.
pub proof fn nothing_runs_on(source: Source)
    ensures
        runs_on(source, source, Seq::empty()),
{
    assert(stands_at(seq![source], Seq::empty()));
}

/// To give one byte is to run on by it.
pub proof fn one_byte_runs_on(before: Source, after: Source, byte: u8)
    requires
        gives(before, byte, after),
    ensures
        runs_on(before, after, seq![byte]),
{
    assert(stands_at(seq![before, after], seq![byte]));
}

/// To run on twice is to run on once.
pub proof fn runs_add_up(first: Source, second: Source, third: Source, a: Seq<u8>, b: Seq<u8>)
    requires
        runs_on(first, second, a),
        runs_on(second, third, b),
    ensures
        runs_on(first, third, a + b),
{
    let before = choose|places: Seq<Source>|
        #[trigger] stands_at(places, a) && places[0] == first && places[a.len() as int] == second;
    let behind = choose|places: Seq<Source>|
        #[trigger] stands_at(places, b) && places[0] == second && places[b.len() as int] == third;
    let places = before.drop_last() + behind;
    let n = a.len() as int;
    assert forall|k: int| 0 <= k < (a + b).len() implies gives(
        #[trigger] places[k],
        (a + b)[k],
        places[k + 1],
    ) by {
        if k < n {
            assert(places[k] == before[k]);
            assert(places[k + 1] == before[k + 1]);
        } else {
            assert(places[k] == behind[k - n]);
            assert(places[k + 1] == behind[k - n + 1]);
        }
    }
    assert(stands_at(places, a + b));
}

/// The bytes of a seed are those of one generator that was seeded with it, in the order in which
/// it gives them: the generator passes from state to state, one byte at a time, and nothing sets
/// it back.
pub proof fn bytes_come_off_one_generator(
    before: Source,
    after: Source,
    seed: u64,
    bytes: Seq<u8>,
)
    requires
        starts(before, seed),
        runs_on(before, after, bytes),
        bytes.len() > 0,
    ensures
        exists|states: Seq<SmallRng>|
            #[trigger] passes_through(states, bytes) && is_seeded(states[0], seed),
{
    let places = choose|places: Seq<Source>|
        #[trigger] stands_at(places, bytes) && places[0] == before && places[bytes.len() as int]
            == after;
    let n = bytes.len() as int;
    lemma_states(places, bytes, n);
    let states = choose|states: Seq<SmallRng>|
        {
            &&& #[trigger] passes_through(states, bytes.take(n))
            &&& places[0].goes_on_with(states[0])
            &&& forall|other: SmallRng|
                #[trigger] places[n].goes_on_with(other) <==> other == states[n]
        };
    assert(bytes.take(n) =~= bytes);
}

/// The states of the generator behind the first `n` places.
proof fn lemma_states(places: Seq<Source>, bytes: Seq<u8>, n: int)
    requires
        stands_at(places, bytes),
        0 < n <= bytes.len(),
    ensures
        exists|states: Seq<SmallRng>|
            {
                &&& #[trigger] passes_through(states, bytes.take(n))
                &&& places[0].goes_on_with(states[0])
                &&& forall|other: SmallRng|
                    #[trigger] places[n].goes_on_with(other) <==> other == states[n]
            },
    decreases n,
{
    let mid = places[n - 1];
    let after = places[n];
    let byte = bytes[n - 1];
    assert(gives(mid, byte, after));
    let (rng, next) = choose|rng: SmallRng, next: SmallRng|
        {
            &&& mid.goes_on_with(rng)
            &&& #[trigger] call_ensures(next_byte_of, (rng,), (next, byte))
            &&& after.seed_of() == mid.seed_of()
            &&& forall|other: SmallRng| #[trigger] after.goes_on_with(other) <==> other == next
        };
    if n == 1 {
        let states = seq![rng, next];
        assert(passes_through(states, bytes.take(n)));
    } else {
        lemma_states(places, bytes, n - 1);
        let states = choose|states: Seq<SmallRng>|
            {
                &&& #[trigger] passes_through(states, bytes.take(n - 1))
                &&& places[0].goes_on_with(states[0])
                &&& forall|other: SmallRng|
                    #[trigger] places[n - 1].goes_on_with(other) <==> other == states[n - 1]
            };
        assert(states[n - 1] == rng);
        let longer = states.push(next);
        assert forall|k: int| 0 <= k < n implies call_ensures(
            next_byte_of,
            (#[trigger] longer[k],),
            (longer[k + 1], bytes.take(n)[k]),
        ) by {
            if k < n - 1 {
                assert(longer[k] == states[k]);
                assert(longer[k + 1] == states[k + 1]);
                assert(bytes.take(n - 1)[k] == bytes.take(n)[k]);
            }
        }
        assert(passes_through(longer, bytes.take(n)));
    }
}

} // verus!
