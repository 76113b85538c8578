//! Runs of random rewrites: one proposal after the other is chosen by weight and applied.

use crate::candidate::{Candidate, CandidateModel, CandidateOrigin};
use crate::mutate::{
    crossover_bytes, curious_mutations, curious_slots, fill, minimizing_havoc_mutations,
    minimizing_slots, proposals_fit, suits, Slot, WeightedMutation,
};
use crate::mutation::{byte_lists, mutated, MutationKind, MutationModel};
use crate::random::{draw_byte, draw_u128_in, seeded};
use crate::reducer::state::same_bytes;
use crate::reduction::flat_case;
use crate::trace::{copy_bytes, Trace, MAX_PREFIX_LEN};
use crate::weights::{Weights, WeightsModel};
use rand::rngs::SmallRng;
use vstd::prelude::*;

verus! {

/// How much a proposal counts: its baseline by the weight of its kind, or by a weight of one where
/// that comes to nothing.
pub open spec fn selection_weight_spec(weights: WeightsModel, mutation: WeightedMutation) -> int {
    let weight = mutation.baseline * weights.of_kind(mutation.mutator@.kind());
    if weight > 0 {
        weight
    } else if mutation.baseline > 1 {
        mutation.baseline * 1_000_000
    } else {
        1_000_000
    }
}

/// How much a proposal counts.
pub fn selection_weight(weights: &Weights, mutation: &WeightedMutation) -> (weight: u128)
    requires
        weights@.wf(),
    ensures
        weight == selection_weight_spec(weights@, *mutation),
        weight > 0,
{
    let baseline: u128 = mutation.baseline as u128;
    let key: u128 = weights.of_kind(mutation.mutator.kind()) as u128;
    assert(0 <= baseline * key <= 0xffff_ffff_ffff_ffff * 0xffff_ffff_ffff_ffff)
        by (nonlinear_arith)
        requires
            0 <= baseline <= 0xffff_ffff_ffff_ffff,
            0 <= key <= 0xffff_ffff_ffff_ffff,
    ;
    let weight: u128 = baseline * key;
    if weight > 0 {
        weight
    } else if baseline > 1 {
        baseline * 1_000_000
    } else {
        1_000_000
    }
}

/// `value`, or the largest sum where it is larger.
pub open spec fn capped(value: int) -> int {
    if value > u128::MAX {
        u128::MAX as int
    } else {
        value
    }
}

/// How much the first `n` proposals count together.
pub open spec fn total_weight(
    weights: WeightsModel,
    mutations: Seq<WeightedMutation>,
    n: nat,
) -> int
    decreases n,
{
    if n == 0 || n > mutations.len() {
        0
    } else {
        capped(
            total_weight(weights, mutations, (n - 1) as nat) + selection_weight_spec(
                weights,
                mutations[n - 1],
            ),
        )
    }
}

/// How much the proposals count together.
fn sum_weights(weights: &Weights, mutations: &Vec<WeightedMutation>) -> (total: u128)
    requires
        weights@.wf(),
    ensures
        total == total_weight(weights@, mutations@, mutations@.len()),
        mutations@.len() > 0 ==> total > 0,
{
    let mut total: u128 = 0;
    let mut i: usize = 0;
    while i < mutations.len()
        invariant
            i <= mutations@.len(),
            weights@.wf(),
            total == total_weight(weights@, mutations@, i as nat),
            i > 0 ==> total > 0,
        decreases mutations@.len() - i,
    {
        let weight: u128 = selection_weight(weights, &mutations[i]);
        total = total.saturating_add(weight);
        i += 1;
    }
    total
}

/// The proposal at `target` on the scale of the weights; the last one behind its end.
pub fn choose_weighted_mutation(
    mutations: &Vec<WeightedMutation>,
    weights: &Weights,
    target: u128,
) -> (index: usize)
    requires
        mutations@.len() > 0,
        weights@.wf(),
    ensures
        index < mutations@.len(),
        target < total_weight(weights@, mutations@, (index + 1) as nat) || index
            == mutations@.len() - 1,
        forall|k: nat|
            k <= index ==> #[trigger] total_weight(weights@, mutations@, k) <= target,
{
    let mut reached: u128 = 0;
    let count: usize = mutations.len();
    let mut i: usize = 0;
    while i < count - 1
        invariant
            i <= count - 1,
            count == mutations@.len(),
            count > 0,
            weights@.wf(),
            reached == total_weight(weights@, mutations@, i as nat),
            forall|k: nat| k <= i ==> #[trigger] total_weight(weights@, mutations@, k) <= target,
        decreases count - i,
    {
        let weight: u128 = selection_weight(weights, &mutations[i]);
        reached = reached.saturating_add(weight);
        if target < reached {
            return i;
        }
        i += 1;
    }
    i
}

/// `mutation` fills one of the slots.
pub open spec fn proposed(
    slots: Seq<(Slot, u64)>,
    mutation: MutationModel,
    prefix: Seq<u8>,
    other: Seq<u8>,
    dictionary: Seq<Seq<u8>>,
) -> bool {
    exists|i: int|
        0 <= i < slots.len() && #[trigger] suits(slots[i].0, mutation, prefix, other, dictionary)
}

/// A rewrite of this kind that fills one of the slots leads from `before` to `after`.
pub open spec fn is_step(
    slots: Seq<(Slot, u64)>,
    before: Seq<u8>,
    after: Seq<u8>,
    kind: MutationKind,
    other: Seq<u8>,
    dictionary: Seq<Seq<u8>>,
) -> bool {
    exists|mutation: MutationModel|
        {
            &&& #[trigger] proposed(slots, mutation, before, other, dictionary)
            &&& mutation.kind() == kind
            &&& mutated(mutation, before, dictionary) == Some(after)
        }
}

/// One step towards a smaller path.
pub open spec fn minimizing_step(
    before: Seq<u8>,
    after: Seq<u8>,
    kind: MutationKind,
    dictionary: Seq<Seq<u8>>,
) -> bool {
    is_step(
        minimizing_slots(before.len() as int, dictionary.len() as int),
        before,
        after,
        kind,
        Seq::empty(),
        dictionary,
    )
}

/// One step in search of coverage.
pub open spec fn curious_step(
    before: Seq<u8>,
    after: Seq<u8>,
    kind: MutationKind,
    other: Seq<u8>,
    dictionary: Seq<Seq<u8>>,
) -> bool {
    is_step(
        curious_slots(before.len() as int, other.len() as int, dictionary.len() as int),
        before,
        after,
        kind,
        other,
        dictionary,
    )
}

/// The path, cut to the longest that is kept.
pub open spec fn cut_path(path: Seq<u8>) -> Seq<u8> {
    if path.len() > MAX_PREFIX_LEN {
        path.take(MAX_PREFIX_LEN as int)
    } else {
        path
    }
}

/// Steps of these kinds lead from `from` to `to`; the path is cut after each.
pub open spec fn minimizing_steps(
    from: Seq<u8>,
    to: Seq<u8>,
    kinds: Seq<MutationKind>,
    dictionary: Seq<Seq<u8>>,
) -> bool
    decreases kinds.len(),
{
    if kinds.len() == 0 {
        from == to
    } else {
        exists|before: Seq<u8>, after: Seq<u8>|
            {
                &&& minimizing_steps(from, before, kinds.drop_last(), dictionary)
                &&& #[trigger] minimizing_step(before, after, kinds.last(), dictionary)
                &&& to == cut_path(after)
            }
    }
}

/// Steps of these kinds lead from `from` to `to`.
pub open spec fn curious_steps(
    from: Seq<u8>,
    to: Seq<u8>,
    kinds: Seq<MutationKind>,
    other: Seq<u8>,
    dictionary: Seq<Seq<u8>>,
) -> bool
    decreases kinds.len(),
{
    if kinds.len() == 0 {
        from == to
    } else {
        exists|before: Seq<u8>|
            {
                &&& curious_steps(from, before, kinds.drop_last(), other, dictionary)
                &&& #[trigger] curious_step(before, to, kinds.last(), other, dictionary)
            }
    }
}

/// Choose one of the proposals and apply it.
fn apply_one(
    prefix: &mut Vec<u8>,
    rng: &mut SmallRng,
    mutations: &Vec<WeightedMutation>,
    dictionary: &Vec<Vec<u8>>,
    weights: &Weights,
    Ghost(slots): Ghost<Seq<(Slot, u64)>>,
    Ghost(other): Ghost<Seq<u8>>,
) -> (kind: MutationKind)
    requires
        weights@.wf(),
        slots.len() > 0,
        fill(mutations@, slots, old(prefix)@, other, byte_lists(dictionary@)),
    ensures
        is_step(slots, old(prefix)@, final(prefix)@, kind, other, byte_lists(dictionary@)),
{
    let ghost before = prefix@;
    let ghost lists = byte_lists(dictionary@);
    let total: u128 = sum_weights(weights, mutations);
    let target: u128 = draw_u128_in(rng, 0, total - 1);
    let index: usize = choose_weighted_mutation(mutations, weights, target);
    let ghost model = mutations@[index as int].mutator@;
    proof {
        assert(suits(slots[index as int].0, model, before, other, lists));
        proposals_fit(slots[index as int].0, model, before, other, lists);
        assert(proposed(slots, model, before, other, lists));
    }
    let applied: bool = mutations[index].mutator.apply_bytes(prefix, dictionary);
    mutations[index].mutator.kind()
}

/// One step towards a smaller path.
pub fn mutate_minimizing_havoc(
    prefix: &mut Vec<u8>,
    rng: &mut SmallRng,
    dictionary: &Vec<Vec<u8>>,
    weights: &Weights,
) -> (kind: MutationKind)
    requires
        weights@.wf(),
    ensures
        minimizing_step(old(prefix)@, final(prefix)@, kind, byte_lists(dictionary@)),
{
    let ghost slots = minimizing_slots(prefix@.len() as int, dictionary@.len() as int);
    let mutations = minimizing_havoc_mutations(prefix, rng, dictionary);
    assert(byte_lists(dictionary@).len() == dictionary@.len());
    apply_one(prefix, rng, &mutations, dictionary, weights, Ghost(slots), Ghost(Seq::empty()))
}

/// One step in search of coverage.
pub fn mutate_prefix(
    prefix: &mut Vec<u8>,
    rng: &mut SmallRng,
    crossover_prefix: Option<&Vec<u8>>,
    dictionary: &Vec<Vec<u8>>,
    salt: u64,
    weights: &Weights,
) -> (kind: MutationKind)
    requires
        weights@.wf(),
    ensures
        curious_step(
            old(prefix)@,
            final(prefix)@,
            kind,
            crossover_bytes(crossover_prefix),
            byte_lists(dictionary@),
        ),
{
    let ghost other = crossover_bytes(crossover_prefix);
    let ghost slots = curious_slots(
        prefix@.len() as int,
        other.len() as int,
        dictionary@.len() as int,
    );
    let mutations = curious_mutations(prefix, rng, crossover_prefix, dictionary, salt);
    assert(byte_lists(dictionary@).len() == dictionary@.len());
    apply_one(prefix, rng, &mutations, dictionary, weights, Ghost(slots), Ghost(other))
}

/// What a run of `depth` steps towards a smaller path comes to: as many steps as that, and one more
/// where they led nowhere.
pub open spec fn havoc_result(
    prefix: Seq<u8>,
    candidate: Seq<u8>,
    kinds: Seq<MutationKind>,
    depth: int,
    dictionary: Seq<Seq<u8>>,
) -> bool {
    let steps = if depth < 1 {
        1
    } else {
        depth
    };
    ||| kinds.len() == steps && candidate != prefix && minimizing_steps(
        prefix,
        candidate,
        kinds,
        dictionary,
    )
    ||| kinds.len() == steps + 1 && minimizing_steps(prefix, prefix, kinds.drop_last(), dictionary)
        && minimizing_step(prefix, candidate, kinds.last(), dictionary)
}

/// A run of steps towards a smaller path: where it leads, and the kinds of the steps.
pub fn havoc_prefix(
    prefix: &Vec<u8>,
    rng: &mut SmallRng,
    depth: usize,
    dictionary: &Vec<Vec<u8>>,
    weights: &Weights,
) -> (result: (Vec<u8>, Vec<MutationKind>))
    requires
        weights@.wf(),
        depth < usize::MAX,
    ensures
        havoc_result(
            prefix@,
            result.0@,
            result.1@,
            depth as int,
            byte_lists(dictionary@),
        ),
{
    let ghost lists = byte_lists(dictionary@);
    let steps: usize = if depth < 1 {
        1
    } else {
        depth
    };
    let mut candidate = copy_bytes(prefix);
    let mut kinds: Vec<MutationKind> = Vec::new();
    while kinds.len() < steps
        invariant
            weights@.wf(),
            lists == byte_lists(dictionary@),
            kinds@.len() <= steps,
            minimizing_steps(prefix@, candidate@, kinds@, lists),
        decreases steps - kinds@.len(),
    {
        let ghost before = candidate@;
        let ghost done = kinds@;
        let kind = mutate_minimizing_havoc(&mut candidate, rng, dictionary, weights);
        let ghost after = candidate@;
        kinds.push(kind);
        if candidate.len() > MAX_PREFIX_LEN {
            candidate.truncate(MAX_PREFIX_LEN);
        }
        proof {
            assert(kinds@.drop_last() =~= done);
            assert(candidate@ =~= cut_path(after));
            assert(minimizing_step(before, after, kinds@.last(), lists));
        }
    }
    if same_bytes(&candidate, prefix) {
        let ghost done = kinds@;
        let kind = mutate_minimizing_havoc(&mut candidate, rng, dictionary, weights);
        kinds.push(kind);
        assert(kinds@.drop_last() =~= done);
    }
    (candidate, kinds)
}

/// Where the rewrites of a candidate start from.
#[derive(Debug, PartialEq, Eq)]
pub struct HavocPlan {
    /// The rewrites look for coverage; otherwise they make the path smaller.
    pub curious: bool,
    pub parent_seed: u64,
    pub parent_prefix: Vec<u8>,
    pub crossover_prefix: Option<Vec<u8>>,
    pub fallback: u64,
    pub rng_seed: u64,
    pub depth: usize,
}

/// The seed of a rewritten case: that of its parent, and the fallback turned by 17 bits.
pub open spec fn mixed_seed(parent_seed: u64, fallback: u64) -> u64 {
    parent_seed ^ ((fallback << 17) | (fallback >> 47))
}

/// The bytes of the plan's other path, or none.
pub open spec fn plan_crossover(plan: HavocPlan) -> Seq<u8> {
    match plan.crossover_prefix {
        Some(bytes) => bytes@,
        None => Seq::empty(),
    }
}

/// What a run in search of coverage leaves: where its steps lead, cut, and never nothing.
pub open spec fn curious_result(to: Seq<u8>, bytes: Seq<u8>) -> bool {
    if to.len() == 0 {
        bytes.len() == 1
    } else {
        bytes == cut_path(to)
    }
}

/// Steps of these kinds lead somewhere that leaves `bytes`.
pub open spec fn is_curious_run(
    plan: HavocPlan,
    kinds: Seq<MutationKind>,
    bytes: Seq<u8>,
    dictionary: Seq<Seq<u8>>,
) -> bool {
    exists|to: Seq<u8>|
        {
            &&& #[trigger] curious_steps(
                plan.parent_prefix@,
                to,
                kinds,
                plan_crossover(plan),
                dictionary,
            )
            &&& curious_result(to, bytes)
        }
}

/// A candidate of the plan: a case of a mixed seed whose path came by rewrites of the kinds that
/// its origin names.
pub open spec fn is_havoc_candidate(
    plan: HavocPlan,
    candidate: CandidateModel,
    dictionary: Seq<Seq<u8>>,
) -> bool {
    let bytes = candidate.case.bytes();
    &&& candidate.mutated
    &&& candidate.case == flat_case(mixed_seed(plan.parent_seed, plan.fallback), bytes, false)
    &&& if plan.curious {
        &&& candidate.origin is CuriousMutation
        &&& candidate.origin.kinds().len() == plan.depth
        &&& is_curious_run(plan, candidate.origin.kinds(), bytes, dictionary)
    } else {
        &&& candidate.origin is CautiousHavoc
        &&& havoc_result(
            plan.parent_prefix@,
            bytes,
            candidate.origin.kinds(),
            plan.depth as int,
            dictionary,
        )
    }
}

/// Make a candidate of the plan.
pub fn materialize_candidate(plan: &HavocPlan, dictionary: &Vec<Vec<u8>>, weights: &Weights) -> (candidate:
    Candidate)
    requires
        weights@.wf(),
        plan.depth < usize::MAX,
    ensures
        is_havoc_candidate(*plan, candidate@, byte_lists(dictionary@)),
{
    let ghost lists = byte_lists(dictionary@);
    let seed: u64 = plan.parent_seed ^ ((plan.fallback << 17) | (plan.fallback >> 47));
    let mut rng = seeded(plan.rng_seed);
    if plan.curious {
        let ghost other = plan_crossover(*plan);
        let mut prefix = copy_bytes(&plan.parent_prefix);
        let mut kinds: Vec<MutationKind> = Vec::new();
        while kinds.len() < plan.depth
            invariant
                weights@.wf(),
                lists == byte_lists(dictionary@),
                other == plan_crossover(*plan),
                kinds@.len() <= plan.depth,
                curious_steps(plan.parent_prefix@, prefix@, kinds@, other, lists),
            decreases plan.depth - kinds@.len(),
        {
            let ghost before = prefix@;
            let ghost done = kinds@;
            let kind = mutate_prefix(
                &mut prefix,
                &mut rng,
                plan.crossover_prefix.as_ref(),
                dictionary,
                plan.fallback,
                weights,
            );
            kinds.push(kind);
            proof {
                assert(kinds@.drop_last() =~= done);
                assert(curious_step(before, prefix@, kinds@.last(), other, lists));
            }
        }
        let ghost to = prefix@;
        if prefix.len() == 0 {
            prefix.push(draw_byte(&mut rng));
        }
        if prefix.len() > MAX_PREFIX_LEN {
            prefix.truncate(MAX_PREFIX_LEN);
        }
        assert(prefix@ =~= if to.len() == 0 {
            prefix@
        } else {
            cut_path(to)
        });
        assert(curious_result(to, prefix@));
        assert(is_curious_run(*plan, kinds@, prefix@, lists));
        Candidate {
            case: Trace::from_flat_prefix(seed, prefix),
            mutated: true,
            origin: CandidateOrigin::CuriousMutation(kinds),
        }
    } else {
        let (prefix, kinds) = havoc_prefix(
            &plan.parent_prefix,
            &mut rng,
            plan.depth,
            dictionary,
            weights,
        );
        Candidate {
            case: Trace::from_flat_prefix(seed, prefix),
            mutated: true,
            origin: CandidateOrigin::CautiousHavoc(kinds),
        }
    }
}

/// The seed of a rewritten case tells the fallbacks of one parent apart, and the parents of one
/// fallback; mixed twice with one fallback it is that of the parent again. The fallback zero
/// leaves the seed as it is, and the lowest bit of a fallback turns the eighteenth of the seed.
pub proof fn mixed_seeds_differ(parent: u64, other: u64, fallback: u64, turned: u64)
    ensures
        mixed_seed(mixed_seed(parent, fallback), fallback) == parent,
        parent != other ==> mixed_seed(parent, fallback) != mixed_seed(other, fallback),
        fallback != turned ==> mixed_seed(parent, fallback) != mixed_seed(parent, turned),
        mixed_seed(parent, 0) == parent,
        mixed_seed(0, 1) == 0x2_0000,
        mixed_seed(0, 0x8000_0000_0000_0000) == 0x1_0000,
{
    assert((parent ^ ((fallback << 17) | (fallback >> 47))) ^ ((fallback << 17) | (fallback >> 47))
        == parent) by (bit_vector);
    assert(parent != other ==> parent ^ ((fallback << 17) | (fallback >> 47)) != other ^ ((fallback
        << 17) | (fallback >> 47))) by (bit_vector);
    assert(fallback != turned ==> parent ^ ((fallback << 17) | (fallback >> 47)) != parent ^ ((turned
        << 17) | (turned >> 47))) by (bit_vector);
    assert(parent ^ ((0u64 << 17) | (0u64 >> 47)) == parent) by (bit_vector);
    assert(0u64 ^ ((1u64 << 17) | (1u64 >> 47)) == 0x2_0000u64) by (bit_vector);
    assert(0u64 ^ ((0x8000_0000_0000_0000u64 << 17) | (0x8000_0000_0000_0000u64 >> 47))
        == 0x1_0000u64) by (bit_vector);
}

/// Every proposal counts for something: its baseline for each unit of the weight of its kind, and
/// as if that weight were one where it comes to nothing.
pub proof fn every_proposal_counts(weights: WeightsModel, mutation: WeightedMutation)
    ensures
        selection_weight_spec(weights, mutation) > 0,
        mutation.baseline > 0 && weights.of_kind(mutation.mutator@.kind()) > 0
            ==> selection_weight_spec(weights, mutation) == mutation.baseline * weights.of_kind(
            mutation.mutator@.kind(),
        ),
        mutation.baseline > 0 && weights.of_kind(mutation.mutator@.kind()) == 0
            ==> selection_weight_spec(weights, mutation) == mutation.baseline * 1_000_000,
{
    let b = mutation.baseline as int;
    let w = weights.of_kind(mutation.mutator@.kind()) as int;
    assert(b > 0 && w > 0 ==> b * w > 0) by (nonlinear_arith);
    assert(b * 0 == 0);
    assert(0 * w == 0);
    assert(b >= 0 && w >= 0 ==> b * w >= 0) by (nonlinear_arith);
}

/// More proposals count for more: what the first ones count for together is the sum of what each
/// counts for, while it fits 128 bits.
pub proof fn proposals_count_together(
    weights: WeightsModel,
    mutations: Seq<WeightedMutation>,
    n: nat,
)
    requires
        n < mutations.len(),
    ensures
        total_weight(weights, mutations, 0) == 0,
        total_weight(weights, mutations, n) + selection_weight_spec(weights, mutations[n as int])
            <= u128::MAX ==> total_weight(weights, mutations, n + 1) == total_weight(
            weights,
            mutations,
            n,
        ) + selection_weight_spec(weights, mutations[n as int]),
        total_weight(weights, mutations, n + 1) <= u128::MAX,
{
}

/// A path that came by rewrites towards a smaller one is another path, or came by one step more.
pub proof fn rewrites_lead_somewhere(
    prefix: Seq<u8>,
    candidate: Seq<u8>,
    kinds: Seq<MutationKind>,
    depth: int,
    dictionary: Seq<Seq<u8>>,
)
    requires
        havoc_result(prefix, candidate, kinds, depth, dictionary),
        depth >= 1,
    ensures
        kinds.len() == depth || kinds.len() == depth + 1,
        kinds.len() == depth ==> candidate != prefix,
{
}

} // verus!
