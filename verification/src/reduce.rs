//! Making a failing list of operations smaller.

use crate::coverage::CoverageSet;
use vstd::prelude::*;

verus! {

/// What a list of operations costs.
pub trait CostModel<Op> {
    /// The cost of the operations, some number unless a model says which.
    open spec fn cost(&self, ops: Seq<Op>) -> u64 {
        arbitrary()
    }

    /// The cost of the operations.
    fn total_cost(&self, ops: &Vec<Op>) -> (cost: u64)
        ensures
            cost == self.cost(ops@),
    ;
}

/// Each operation costs one.
#[derive(Debug, Clone, Copy, PartialEq, Eq, Structural)]
pub struct UnitCost;

impl<Op> CostModel<Op> for UnitCost {
    open spec fn cost(&self, ops: Seq<Op>) -> u64 {
        ops.len() as u64
    }

    fn total_cost(&self, ops: &Vec<Op>) -> (cost: u64) {
        ops.len() as u64
    }
}

/// Makes other lists of operations out of one.
pub trait SequenceMutator<Op> {
    /// The lists may be made out of the operations: any lists, unless a mutator says which.
    open spec fn makes(ops: Seq<Op>, lists: Seq<Vec<Op>>) -> bool {
        true
    }

    /// The lists, in the order in which they are to be tried.
    fn mutate(&mut self, ops: &Vec<Op>) -> (lists: Vec<Vec<Op>>)
        ensures
            Self::makes(ops@, lists@),
    ;
}

/// Makes no list at all.
#[derive(Debug, Clone, Copy, PartialEq, Eq, Structural)]
pub struct NoopSequenceMutator;

impl<Op> SequenceMutator<Op> for NoopSequenceMutator {
    open spec fn makes(ops: Seq<Op>, lists: Seq<Vec<Op>>) -> bool {
        lists.len() == 0
    }

    fn mutate(&mut self, _ops: &Vec<Op>) -> (lists: Vec<Vec<Op>>) {
        Vec::new()
    }
}

/// The coverage that `candidate` has and `global` lacks.
pub fn coverage_delta(global: &CoverageSet, candidate: &CoverageSet) -> (delta: CoverageSet)
    ensures
        delta@ == candidate@.difference(global@),
{
    candidate.difference(global)
}

/// Whether a case belongs into the corpus: it fails, or it covers something new.
pub fn is_coverage_interesting(
    global: &CoverageSet,
    candidate: &CoverageSet,
    is_failure: bool,
) -> (interesting: bool)
    ensures
        interesting == (is_failure || !candidate@.subset_of(global@)),
{
    if is_failure {
        return true;
    }
    let delta = coverage_delta(global, candidate);
    proof {
        if candidate@.subset_of(global@) {
            assert(delta@ =~= Set::empty());
        } else {
            let id = choose|id: crate::coverage::CoverageId|
                candidate@.contains(id) && !global@.contains(id);
            assert(delta@.contains(id));
        }
    }
    !delta.is_empty()
}

/// The list without `len` operations from `start` on.
pub open spec fn cut<Op>(ops: Seq<Op>, start: int, len: int) -> Seq<Op> {
    ops.take(start) + ops.skip(start + len)
}

/// Cheaper, or as cheap and shorter.
pub open spec fn scores_less<Op, Cost: CostModel<Op>>(cost: Cost, a: Seq<Op>, b: Seq<Op>) -> bool {
    cost.cost(a) < cost.cost(b) || (cost.cost(a) == cost.cost(b) && a.len() < b.len())
}

/// `smaller` is `ops` without some operations, in the same order.
pub open spec fn is_part<Op>(smaller: Seq<Op>, ops: Seq<Op>) -> bool {
    exists|places: Seq<int>| #[trigger] are_places(places, smaller, ops)
}

/// The places in `ops` at which the operations of `smaller` stand.
pub open spec fn are_places<Op>(places: Seq<int>, smaller: Seq<Op>, ops: Seq<Op>) -> bool {
    &&& places.len() == smaller.len()
    &&& forall|i: int|
        0 <= i < places.len() ==> 0 <= #[trigger] places[i] < ops.len() && smaller[i]
            == ops[places[i]]
    &&& forall|i: int, j: int|
        0 <= i < j < places.len() ==> #[trigger] places[i] < #[trigger] places[j]
}

/// The predicate was asked of these operations, and said so.
pub open spec fn said<Op, Fails: Fn(&Vec<Op>) -> bool>(
    fails: Fails,
    ops: Seq<Op>,
    answer: bool,
) -> bool {
    exists|asked: Vec<Op>| asked@ == ops && #[trigger] call_ensures(fails, (&asked,), answer)
}

/// The predicate can be asked of any operations that score less than these.
pub open spec fn answers_below<Op, Cost: CostModel<Op>, Fails: Fn(&Vec<Op>) -> bool>(
    cost: Cost,
    fails: Fails,
    ops: Seq<Op>,
) -> bool {
    forall|asked: Vec<Op>|
        scores_less(cost, asked@, ops) ==> #[trigger] call_requires(fails, (&asked,))
}

/// The predicate can be asked of any operations that score less than these, or than a list that the
/// mutator may make.
pub open spec fn answers_rewrites<
    Op,
    Cost: CostModel<Op>,
    Fails: Fn(&Vec<Op>) -> bool,
    Transforms: SequenceMutator<Op>,
>(cost: Cost, fails: Fails, ops: Seq<Op>) -> bool {
    &&& answers_below(cost, fails, ops)
    &&& forall|best: Seq<Op>, lists: Seq<Vec<Op>>, i: int|
        #![trigger Transforms::makes(best, lists), lists[i]]
        Transforms::makes(best, lists) && 0 <= i < lists.len() ==> answers_below(
            cost,
            fails,
            lists[i]@,
        )
}

/// What the predicate said of which operations.
pub open spec fn verdicts<Op, Fails: Fn(&Vec<Op>) -> bool>(fails: Fails) -> spec_fn(
    Seq<Op>,
    bool,
) -> bool {
    |ops: Seq<Op>, answer: bool| said(fails, ops, answer)
}

/// Whatever the predicate says, `says` holds of it.
pub open spec fn is_heard<Op, Fails: Fn(&Vec<Op>) -> bool>(
    fails: Fails,
    says: spec_fn(Seq<Op>, bool) -> bool,
) -> bool {
    forall|asked: Vec<Op>, answer: bool| #[trigger]
        call_ensures(fails, (&asked,), answer) ==> says(asked@, answer)
}

/// To leave out the operation at `place` does not help: the list is no better without it, or it
/// does not fail any more.
pub open spec fn is_needed<Op, Cost: CostModel<Op>>(
    cost: Cost,
    says: spec_fn(Seq<Op>, bool) -> bool,
    ops: Seq<Op>,
    place: int,
) -> bool {
    !scores_less(cost, cut(ops, place, 1), ops) || says(cut(ops, place, 1), false)
}

/// A list out of which no operation can be left on its own.
pub open spec fn is_minimal<Op, Cost: CostModel<Op>>(
    cost: Cost,
    says: spec_fn(Seq<Op>, bool) -> bool,
    ops: Seq<Op>,
) -> bool {
    forall|place: int|
        0 <= place < ops.len() ==> #[trigger] is_needed(cost, says, ops, place)
}

/// A list that is as it was, or better and said to fail.
pub open spec fn keeps_failing<Op, Cost: CostModel<Op>>(
    cost: Cost,
    says: spec_fn(Seq<Op>, bool) -> bool,
    reduced: Seq<Op>,
    ops: Seq<Op>,
) -> bool {
    reduced == ops || (scores_less(cost, reduced, ops) && says(reduced, true))
}

/// What deletion leaves of a list: a part of it that fails as it did, and out of which no operation
/// can be left on its own.
pub open spec fn is_reduction<Op, Cost: CostModel<Op>>(
    cost: Cost,
    says: spec_fn(Seq<Op>, bool) -> bool,
    reduced: Seq<Op>,
    ops: Seq<Op>,
) -> bool {
    &&& is_part(reduced, ops)
    &&& keeps_failing(cost, says, reduced, ops)
    &&& ops.len() >= 2 ==> is_minimal(cost, says, reduced)
}

/// What deletion leaves of the candidate is no better than `best`, or does not fail.
pub open spec fn fails_to_help<Op, Cost: CostModel<Op>>(
    cost: Cost,
    says: spec_fn(Seq<Op>, bool) -> bool,
    best: Seq<Op>,
    candidate: Seq<Op>,
) -> bool {
    exists|reduced: Seq<Op>|
        #[trigger] is_reduction(cost, says, reduced, candidate) && (!scores_less(
            cost,
            reduced,
            best,
        ) || says(reduced, false))
}

/// None of the first `n` lists helps.
pub open spec fn none_helps<Op, Cost: CostModel<Op>>(
    cost: Cost,
    says: spec_fn(Seq<Op>, bool) -> bool,
    best: Seq<Op>,
    lists: Seq<Vec<Op>>,
    n: int,
) -> bool {
    forall|i: int| 0 <= i < n ==> fails_to_help(cost, says, best, (#[trigger] lists[i])@)
}

/// `better` is what deletion leaves of the list at `place`: it is better than `best` and fails. No
/// list before it helps.
pub open spec fn helps_first<Op, Cost: CostModel<Op>>(
    cost: Cost,
    says: spec_fn(Seq<Op>, bool) -> bool,
    best: Seq<Op>,
    lists: Seq<Vec<Op>>,
    place: int,
    better: Seq<Op>,
) -> bool {
    &&& 0 <= place < lists.len()
    &&& none_helps(cost, says, best, lists, place)
    &&& is_reduction(cost, says, better, lists[place]@)
    &&& scores_less(cost, better, best)
    &&& says(better, true)
}

/// The first of the lists that helps leads to `better`.
pub open spec fn some_helps<Op, Cost: CostModel<Op>>(
    cost: Cost,
    says: spec_fn(Seq<Op>, bool) -> bool,
    best: Seq<Op>,
    lists: Seq<Vec<Op>>,
    better: Seq<Op>,
) -> bool {
    exists|place: int| #[trigger] helps_first(cost, says, best, lists, place, better)
}

/// A rewrite of `best` leads to `better`.
pub open spec fn leads_to<
    Op,
    Cost: CostModel<Op>,
    Transforms: SequenceMutator<Op>,
>(cost: Cost, says: spec_fn(Seq<Op>, bool) -> bool, best: Seq<Op>, better: Seq<Op>) -> bool {
    exists|lists: Seq<Vec<Op>>|
        Transforms::makes(best, lists) && #[trigger] some_helps(cost, says, best, lists, better)
}

/// No rewrite of the list helps.
pub open spec fn leads_nowhere<
    Op,
    Cost: CostModel<Op>,
    Transforms: SequenceMutator<Op>,
>(cost: Cost, says: spec_fn(Seq<Op>, bool) -> bool, best: Seq<Op>) -> bool {
    exists|lists: Seq<Vec<Op>>|
        Transforms::makes(best, lists) && #[trigger] none_helps(
            cost,
            says,
            best,
            lists,
            lists.len() as int,
        )
}

/// The lists on the way from `ops`: what deletion leaves of it, then one rewrite after the other.
pub open spec fn is_way<
    Op,
    Cost: CostModel<Op>,
    Transforms: SequenceMutator<Op>,
>(cost: Cost, says: spec_fn(Seq<Op>, bool) -> bool, ops: Seq<Op>, way: Seq<Seq<Op>>) -> bool {
    &&& way.len() > 0
    &&& is_reduction(cost, says, way[0], ops)
    &&& forall|i: int|
        1 <= i < way.len() ==> leads_to::<Op, Cost, Transforms>(
            cost,
            says,
            way[i - 1],
            #[trigger] way[i],
        )
}

/// Deletion and rewrites bring `ops` to `reduced`, and no rewrite of it helps.
pub open spec fn is_rewritten<
    Op,
    Cost: CostModel<Op>,
    Transforms: SequenceMutator<Op>,
>(cost: Cost, says: spec_fn(Seq<Op>, bool) -> bool, reduced: Seq<Op>, ops: Seq<Op>) -> bool {
    &&& leads_nowhere::<Op, Cost, Transforms>(cost, says, reduced)
    &&& exists|way: Seq<Seq<Op>>| #[trigger]
        is_way::<Op, Cost, Transforms>(cost, says, ops, way) && way.last() == reduced
}

/// A predicate that never says both yes and no of the same operations.
pub open spec fn is_decided<Op>(says: spec_fn(Seq<Op>, bool) -> bool) -> bool {
    forall|ops: Seq<Op>| !(#[trigger] says(ops, true) && says(ops, false))
}

/// What is left of `ops` when each run of `chunk` operations from `index` on is left out, if that
/// helps.
pub open spec fn scanned<Op, Cost: CostModel<Op>>(
    cost: Cost,
    says: spec_fn(Seq<Op>, bool) -> bool,
    ops: Seq<Op>,
    index: int,
    chunk: int,
) -> Seq<Op>
    decreases ops.len(), ops.len() - index,
{
    let candidate = cut(ops, index, chunk);
    if index < 0 || chunk <= 0 || index + chunk > ops.len() {
        ops
    } else if scores_less(cost, candidate, ops) && says(candidate, true) {
        scanned(cost, says, candidate, index, chunk)
    } else {
        scanned(cost, says, ops, index + chunk, chunk)
    }
}

/// What is left of `ops` by runs of `chunk` operations, as often as they help, and then by ever
/// shorter ones.
pub open spec fn swept<Op, Cost: CostModel<Op>>(
    cost: Cost,
    says: spec_fn(Seq<Op>, bool) -> bool,
    ops: Seq<Op>,
    chunk: int,
) -> Seq<Op>
    decreases ops.len(), chunk,
{
    let rest = scanned(cost, says, ops, 0, chunk);
    if chunk <= 0 {
        ops
    } else if rest.len() < ops.len() {
        swept(cost, says, rest, chunk)
    } else {
        swept(cost, says, ops, chunk / 2)
    }
}

/// What deletion leaves of `ops` by a predicate that is decided.
pub open spec fn deleted<Op, Cost: CostModel<Op>>(
    cost: Cost,
    says: spec_fn(Seq<Op>, bool) -> bool,
    ops: Seq<Op>,
) -> Seq<Op> {
    if ops.len() < 2 {
        ops
    } else {
        swept(cost, says, ops, power_below(1, ops.len() as int))
    }
}

/// The contents of the lists.
pub open spec fn contents<Op>(lists: Seq<Vec<Op>>) -> Seq<Seq<Op>> {
    Seq::new(lists.len(), |i: int| lists[i]@)
}

/// A mutator that always makes the same lists out of the same operations.
pub open spec fn is_settled<Op, Transforms: SequenceMutator<Op>>() -> bool {
    forall|ops: Seq<Op>, a: Seq<Vec<Op>>, b: Seq<Vec<Op>>| #[trigger]
        Transforms::makes(ops, a) && #[trigger] Transforms::makes(ops, b) ==> contents(a)
            == contents(b)
}

/// The lists that a settled mutator makes out of the operations.
pub open spec fn rewrites<Op, Transforms: SequenceMutator<Op>>(ops: Seq<Op>) -> Seq<Seq<Op>> {
    contents(choose|lists: Seq<Vec<Op>>| Transforms::makes(ops, lists))
}

/// What deletion leaves of the first of the lists that helps, from `from` on.
pub open spec fn first_help<Op, Cost: CostModel<Op>>(
    cost: Cost,
    says: spec_fn(Seq<Op>, bool) -> bool,
    best: Seq<Op>,
    lists: Seq<Seq<Op>>,
    from: int,
) -> Option<Seq<Op>>
    decreases lists.len() - from,
{
    if from < 0 || from >= lists.len() {
        None
    } else {
        let rest = deleted(cost, says, lists[from]);
        if scores_less(cost, rest, best) && says(rest, true) {
            Some(rest)
        } else {
            first_help(cost, says, best, lists, from + 1)
        }
    }
}

/// Where the rewrites of `best` lead, one after the other, until none helps.
pub open spec fn rewritten_from<Op, Cost: CostModel<Op>, Transforms: SequenceMutator<Op>>(
    cost: Cost,
    says: spec_fn(Seq<Op>, bool) -> bool,
    best: Seq<Op>,
) -> Seq<Op>
    decreases cost.cost(best), best.len(),
{
    match first_help(cost, says, best, rewrites::<Op, Transforms>(best), 0) {
        Some(better) => if scores_less(cost, better, best) {
            rewritten_from::<Op, Cost, Transforms>(cost, says, better)
        } else {
            best
        },
        None => best,
    }
}

/// What deletion and rewrites leave of `ops` by a predicate that is decided and a mutator that is
/// settled.
pub open spec fn rewritten<Op, Cost: CostModel<Op>, Transforms: SequenceMutator<Op>>(
    cost: Cost,
    says: spec_fn(Seq<Op>, bool) -> bool,
    ops: Seq<Op>,
) -> Seq<Op> {
    rewritten_from::<Op, Cost, Transforms>(cost, says, deleted(cost, says, ops))
}

/// The very list that deletion and rewrites leave, where predicate and mutator fix it.
pub open spec fn is_outcome<Op, Cost: CostModel<Op>, Transforms: SequenceMutator<Op>>(
    cost: Cost,
    says: spec_fn(Seq<Op>, bool) -> bool,
    reduced: Seq<Op>,
    ops: Seq<Op>,
) -> bool {
    is_decided(says) && is_settled::<Op, Transforms>() ==> reduced == rewritten::<
        Op,
        Cost,
        Transforms,
    >(cost, says, ops)
}

proof fn lemma_scanned<Op, Cost: CostModel<Op>>(
    cost: Cost,
    says: spec_fn(Seq<Op>, bool) -> bool,
    ops: Seq<Op>,
    index: int,
    chunk: int,
)
    ensures
        keeps_failing(cost, says, scanned(cost, says, ops, index, chunk), ops),
    decreases ops.len(), ops.len() - index,
{
    if index >= 0 && chunk > 0 && index + chunk <= ops.len() {
        let candidate = cut(ops, index, chunk);
        if scores_less(cost, candidate, ops) && says(candidate, true) {
            lemma_scanned(cost, says, candidate, index, chunk);
        } else {
            lemma_scanned(cost, says, ops, index + chunk, chunk);
        }
    }
}

proof fn lemma_swept<Op, Cost: CostModel<Op>>(
    cost: Cost,
    says: spec_fn(Seq<Op>, bool) -> bool,
    ops: Seq<Op>,
    chunk: int,
)
    ensures
        keeps_failing(cost, says, swept(cost, says, ops, chunk), ops),
    decreases ops.len(), chunk,
{
    if chunk > 0 {
        let rest = scanned(cost, says, ops, 0, chunk);
        lemma_scanned(cost, says, ops, 0, chunk);
        if rest.len() < ops.len() {
            lemma_swept(cost, says, rest, chunk);
        } else {
            lemma_swept(cost, says, ops, chunk / 2);
        }
    }
}

/// What deletion leaves is the list as it was, or scores less and fails.
pub proof fn deletion_keeps_failing<Op, Cost: CostModel<Op>>(
    cost: Cost,
    says: spec_fn(Seq<Op>, bool) -> bool,
    ops: Seq<Op>,
)
    ensures
        keeps_failing(cost, says, deleted(cost, says, ops), ops),
        says(ops, true) ==> says(deleted(cost, says, ops), true),
{
    if ops.len() >= 2 {
        lemma_swept(cost, says, ops, power_below(1, ops.len() as int));
    }
}

/// Deletion leaves of the list something that scores less than `best` and fails.
pub open spec fn helps<Op, Cost: CostModel<Op>>(
    cost: Cost,
    says: spec_fn(Seq<Op>, bool) -> bool,
    best: Seq<Op>,
    list: Seq<Op>,
) -> bool {
    scores_less(cost, deleted(cost, says, list), best) && says(deleted(cost, says, list), true)
}

proof fn lemma_first_help<Op, Cost: CostModel<Op>>(
    cost: Cost,
    says: spec_fn(Seq<Op>, bool) -> bool,
    best: Seq<Op>,
    lists: Seq<Seq<Op>>,
    from: int,
)
    ensures
        match first_help(cost, says, best, lists, from) {
            Some(better) => scores_less(cost, better, best) && says(better, true),
            None => 0 <= from ==> forall|i: int|
                from <= i < lists.len() ==> !helps(cost, says, best, #[trigger] lists[i]),
        },
    decreases lists.len() - from,
{
    if 0 <= from < lists.len() {
        lemma_first_help(cost, says, best, lists, from + 1);
    }
}

proof fn lemma_rewritten_from<Op, Cost: CostModel<Op>, Transforms: SequenceMutator<Op>>(
    cost: Cost,
    says: spec_fn(Seq<Op>, bool) -> bool,
    best: Seq<Op>,
)
    ensures
        ({
            let end = rewritten_from::<Op, Cost, Transforms>(cost, says, best);
            &&& keeps_failing(cost, says, end, best)
            &&& first_help(cost, says, end, rewrites::<Op, Transforms>(end), 0) is None
        }),
    decreases cost.cost(best), best.len(),
{
    lemma_first_help(cost, says, best, rewrites::<Op, Transforms>(best), 0);
    if let Some(better) = first_help(cost, says, best, rewrites::<Op, Transforms>(best), 0) {
        lemma_rewritten_from::<Op, Cost, Transforms>(cost, says, better);
    }
}

/// Rewrites do no harm: what deletion and rewrites leave scores no worse than what deletion alone
/// leaves, and fails if the list did. No rewrite of it helps, so to go on changes nothing.
pub proof fn rewrites_do_no_harm<Op, Cost: CostModel<Op>, Transforms: SequenceMutator<Op>>(
    cost: Cost,
    says: spec_fn(Seq<Op>, bool) -> bool,
    ops: Seq<Op>,
)
    ensures
        ({
            let plain = deleted(cost, says, ops);
            let end = rewritten::<Op, Cost, Transforms>(cost, says, ops);
            &&& !scores_less(cost, plain, end)
            &&& keeps_failing(cost, says, end, plain)
            &&& keeps_failing(cost, says, end, ops)
            &&& says(ops, true) ==> says(end, true)
            &&& forall|i: int|
                0 <= i < rewrites::<Op, Transforms>(end).len() ==> !helps(
                    cost,
                    says,
                    end,
                    #[trigger] rewrites::<Op, Transforms>(end)[i],
                )
            &&& rewritten_from::<Op, Cost, Transforms>(cost, says, end) == end
        }),
{
    let end = rewritten::<Op, Cost, Transforms>(cost, says, ops);
    deletion_keeps_failing(cost, says, ops);
    lemma_rewritten_from::<Op, Cost, Transforms>(cost, says, deleted(cost, says, ops));
    lemma_first_help(cost, says, end, rewrites::<Op, Transforms>(end), 0);
}

/// Where a mutator makes no list, deletion and rewrites leave what deletion alone leaves.
pub proof fn without_rewrites_deletion_is_left<
    Op,
    Cost: CostModel<Op>,
    Transforms: SequenceMutator<Op>,
>(cost: Cost, says: spec_fn(Seq<Op>, bool) -> bool, ops: Seq<Op>)
    requires
        rewrites::<Op, Transforms>(deleted(cost, says, ops)).len() == 0,
    ensures
        rewritten::<Op, Cost, Transforms>(cost, says, ops) == deleted(cost, says, ops),
{
}

/// To keep a property and to keep failing is one thing: of two predicates that say the same, both
/// leave the same list. `reduced` is what [`reduce_with_cost_and_transforms`] left by the one,
/// `preserved` what [`reduce_preserving_with_transforms`] left by the other.
pub proof fn preserving_reduces_alike<
    Op,
    Cost: CostModel<Op>,
    Fails: Fn(&Vec<Op>) -> bool,
    Preserves: Fn(&Vec<Op>) -> bool,
    Transforms: SequenceMutator<Op>,
>(
    cost: Cost,
    fails: Fails,
    preserves: Preserves,
    ops: Seq<Op>,
    reduced: Seq<Op>,
    preserved: Seq<Op>,
)
    requires
        is_decided(verdicts::<Op, Fails>(fails)),
        is_settled::<Op, Transforms>(),
        forall|asked: Seq<Op>, answer: bool| #[trigger]
            said(fails, asked, answer) == said(preserves, asked, answer),
        is_outcome::<Op, Cost, Transforms>(cost, verdicts(fails), reduced, ops),
        is_outcome::<Op, Cost, Transforms>(cost, verdicts(preserves), preserved, ops),
    ensures
        reduced == preserved,
{
    assert(verdicts::<Op, Fails>(fails) =~= verdicts::<Op, Preserves>(preserves));
}

proof fn lemma_whole_is_part<Op>(ops: Seq<Op>)
    ensures
        is_part(ops, ops),
{
    let places = Seq::new(ops.len(), |i: int| i);
    assert(are_places(places, ops, ops));
}

proof fn lemma_cut_is_part<Op>(smaller: Seq<Op>, ops: Seq<Op>, start: int, len: int)
    requires
        is_part(smaller, ops),
        0 <= start,
        0 <= len,
        start + len <= smaller.len(),
    ensures
        is_part(cut(smaller, start, len), ops),
{
    let places = choose|places: Seq<int>| #[trigger] are_places(places, smaller, ops);
    assert(are_places(cut(places, start, len), cut(smaller, start, len), ops));
}

/// The largest power of two below `len`, or zero.
fn half_power(len: usize) -> (power: usize)
    ensures
        len >= 2 ==> 1 <= power < len,
        len < 2 ==> power == 0,
        len >= 2 ==> power == power_below(1, len as int),
{
    if len < 2 {
        return 0;
    }
    let mut power: usize = 1;
    while power < len - power
        invariant
            1 <= power < len,
            power_below(power as int, len as int) == power_below(1, len as int),
        decreases len - power,
    {
        power = power + power;
    }
    power
}

/// The largest number below `len` among `power`, its double and so on.
pub open spec fn power_below(power: int, len: int) -> int
    decreases len - power,
{
    if power >= 1 && 2 * power < len {
        power_below(2 * power, len)
    } else {
        power
    }
}

/// Takes `len` operations from `start` on out of a list.
fn take_out<Op>(ops: &mut Vec<Op>, start: usize, len: usize) -> (taken: Vec<Op>)
    requires
        start + len <= old(ops)@.len(),
    ensures
        final(ops)@ == cut(old(ops)@, start as int, len as int),
        taken@ == old(ops)@.subrange(start as int, start + len),
{
    let ghost before = ops@;
    let mut taken = ops.split_off(start);
    let mut rest = taken.split_off(len);
    ops.append(&mut rest);
    assert(ops@ =~= cut(before, start as int, len as int));
    assert(taken@ =~= before.subrange(start as int, start + len));
    taken
}

/// Puts operations back into a list.
fn put_back<Op>(ops: &mut Vec<Op>, start: usize, taken: Vec<Op>)
    requires
        start <= old(ops)@.len(),
    ensures
        final(ops)@ == old(ops)@.take(start as int) + taken@ + old(ops)@.skip(start as int),
{
    let ghost before = ops@;
    let ghost chunk = taken@;
    let mut taken = taken;
    let mut rest = ops.split_off(start);
    ops.append(&mut taken);
    ops.append(&mut rest);
    assert(ops@ =~= before.take(start as int) + chunk + before.skip(start as int));
}

/// Leaves out runs of operations as long as the list gets better and still fails.
pub(crate) fn reduce_by_deletion<Op, Cost: CostModel<Op>, Fails: Fn(&Vec<Op>) -> bool>(
    ops: Vec<Op>,
    cost: &Cost,
    fails: &Fails,
    Ghost(says): Ghost<spec_fn(Seq<Op>, bool) -> bool>,
) -> (reduced: Vec<Op>)
    requires
        answers_below(*cost, *fails, ops@),
        is_heard(*fails, says),
    ensures
        is_reduction(*cost, says, reduced@, ops@),
        is_decided(says) ==> reduced@ == deleted(*cost, says, ops@),
{
    let ghost given = ops@;
    let mut minimized = ops;
    let mut best_cost: u64 = cost.total_cost(&minimized);
    let mut chunk_len: usize = half_power(minimized.len());
    proof {
        lemma_whole_is_part(given);
    }
    while chunk_len > 0
        invariant
            answers_below(*cost, *fails, given),
            is_heard(*fails, says),
            is_part(minimized@, given),
            keeps_failing(*cost, says, minimized@, given),
            best_cost == cost.cost(minimized@),
            is_decided(says) ==> swept(
                *cost,
                says,
                minimized@,
                chunk_len as int,
            ) == deleted(*cost, says, given),
            chunk_len == 0 && given.len() >= 2 ==> is_minimal(*cost, says, minimized@),
        decreases minimized@.len(), chunk_len,
    {
        let mut index: usize = 0;
        let mut accepted: bool = false;
        let ghost before = minimized@;
        while index <= minimized.len() && chunk_len <= minimized.len() - index
            invariant
                answers_below(*cost, *fails, given),
                is_heard(*fails, says),
                chunk_len > 0,
                is_decided(says) ==> scanned(
                    *cost,
                    says,
                    minimized@,
                    index as int,
                    chunk_len as int,
                ) == scanned(*cost, says, before, 0, chunk_len as int),
                is_part(minimized@, given),
                keeps_failing(*cost, says, minimized@, given),
                best_cost == cost.cost(minimized@),
                accepted ==> minimized@.len() < before.len(),
                !accepted ==> minimized@ == before,
                !accepted && chunk_len == 1 ==> index <= minimized@.len(),
                !accepted && chunk_len == 1 ==> forall|place: int|
                    0 <= place < index ==> #[trigger] is_needed(
                        *cost,
                        says,
                        minimized@,
                        place,
                    ),
            decreases minimized@.len(), minimized@.len() - index,
        {
            let ghost whole = minimized@;
            let old_len: usize = minimized.len();
            let taken = take_out(&mut minimized, index, chunk_len);
            let candidate_cost: u64 = cost.total_cost(&minimized);
            let better: bool = candidate_cost < best_cost || (candidate_cost == best_cost
                && minimized.len() < old_len);
            assert(better == scores_less(*cost, minimized@, whole));
            let mut accept: bool = false;
            if better {
                accept = fails(&minimized);
                assert(call_ensures(*fails, (&minimized,), accept));
            }
            if accept {
                proof {
                    lemma_cut_is_part(whole, given, index as int, chunk_len as int);
                }
                best_cost = candidate_cost;
                accepted = true;
            } else {
                assert(chunk_len == 1 ==> is_needed(*cost, says, whole, index as int));
                put_back(&mut minimized, index, taken);
                assert(minimized@ =~= whole);
                index = index + chunk_len;
            }
        }
        if !accepted {
            proof {
                if chunk_len == 1 {
                    assert(index == minimized@.len());
                }
            }
            chunk_len = chunk_len / 2;
        }
    }
    minimized
}

/// Makes a failing list of operations smaller by leaving out runs of them.
pub fn reduce<Op, Fails: Fn(&Vec<Op>) -> bool>(ops: Vec<Op>, fails: &Fails) -> (reduced: Vec<Op>)
    requires
        answers_below(UnitCost, *fails, ops@),
    ensures
        is_reduction(UnitCost, verdicts(*fails), reduced@, ops@),
        is_decided(verdicts(*fails)) ==> reduced@ == deleted(UnitCost, verdicts(*fails), ops@),
{
    reduce_with_cost(ops, &UnitCost, fails)
}

/// Makes a failing list of operations cheaper by leaving out runs of them.
///
/// What is left stands in the order in which it stood. Either nothing was left out, or what is left
/// is cheaper (or as cheap and shorter) and was said to fail. No operation of it can be left out on
/// its own. The predicate is asked only of lists that are cheaper than the given one (or as cheap
/// and shorter).
pub fn reduce_with_cost<Op, Cost: CostModel<Op>, Fails: Fn(&Vec<Op>) -> bool>(
    ops: Vec<Op>,
    cost: &Cost,
    fails: &Fails,
) -> (reduced: Vec<Op>)
    requires
        answers_below(*cost, *fails, ops@),
    ensures
        is_reduction(*cost, verdicts(*fails), reduced@, ops@),
        is_decided(verdicts(*fails)) ==> reduced@ == deleted(*cost, verdicts(*fails), ops@),
{
    reduce_by_deletion(ops, cost, fails, Ghost(verdicts(*fails)))
}

/// The lists in the opposite order.
pub(crate) fn turned<Op>(lists: Vec<Vec<Op>>) -> (turned: Vec<Vec<Op>>)
    ensures
        turned@ == lists@.reverse(),
{
    let mut rest = lists;
    let mut turned: Vec<Vec<Op>> = Vec::with_capacity(rest.len());
    let total: usize = rest.len();
    let mut i: usize = 0;
    while i < total
        invariant
            i <= total,
            total == lists@.len(),
            rest@ == lists@.take(total - i),
            turned@ == lists@.skip(total - i).reverse(),
        decreases total - i,
    {
        match rest.pop() {
            Some(list) => {
                turned.push(list);
            },
            None => {},
        }
        i += 1;
        assert(rest@ =~= lists@.take(total - i));
        assert(turned@ =~= lists@.skip(total - i).reverse());
    }
    assert(lists@.skip(0) =~= lists@);
    turned
}

/// The first of the lists whose reduction is better than `best` and fails.
fn first_better<Op, Cost: CostModel<Op>, Fails: Fn(&Vec<Op>) -> bool>(
    candidates: Vec<Vec<Op>>,
    best: &Vec<Op>,
    cost: &Cost,
    fails: &Fails,
    Ghost(says): Ghost<spec_fn(Seq<Op>, bool) -> bool>,
) -> (found: Option<Vec<Op>>)
    requires
        is_heard(*fails, says),
        answers_below(*cost, *fails, best@),
        forall|i: int|
            0 <= i < candidates@.len() ==> answers_below(
                *cost,
                *fails,
                (#[trigger] candidates@[i])@,
            ),
    ensures
        match found {
            Some(found) => some_helps(*cost, says, best@, candidates@, found@),
            None => none_helps(
                *cost,
                says,
                best@,
                candidates@,
                candidates@.len() as int,
            ),
        },
        is_decided(says) ==> first_help(
            *cost,
            says,
            best@,
            contents(candidates@),
            0,
        ) == (match found {
            Some(found) => Some(found@),
            None => None,
        }),
{
    let best_cost: u64 = cost.total_cost(best);
    let total: usize = candidates.len();
    let mut ordered = turned(candidates);
    let mut i: usize = 0;
    while i < total
        invariant
            is_heard(*fails, says),
            answers_below(*cost, *fails, best@),
            forall|i: int|
                0 <= i < candidates@.len() ==> answers_below(
                    *cost,
                    *fails,
                    (#[trigger] candidates@[i])@,
                ),
            best_cost == cost.cost(best@),
            i <= total,
            total == candidates@.len(),
            ordered@ == candidates@.skip(i as int).reverse(),
            none_helps(*cost, says, best@, candidates@, i as int),
            is_decided(says) ==> first_help(
                *cost,
                says,
                best@,
                contents(candidates@),
                i as int,
            ) == first_help(*cost, says, best@, contents(candidates@), 0),
        decreases total - i,
    {
        match ordered.pop() {
            Some(candidate) => {
                assert(candidate == candidates@[i as int]);
                assert(contents(candidates@)[i as int] == candidate@);
                let reduced = reduce_by_deletion(candidate, cost, fails, Ghost(says));
                assert(is_reduction(*cost, says, reduced@, candidates@[i as int]@));
                let reduced_cost: u64 = cost.total_cost(&reduced);
                if reduced_cost < best_cost || (reduced_cost == best_cost && reduced.len()
                    < best.len()) {
                    let answer: bool = fails(&reduced);
                    assert(call_ensures(*fails, (&reduced,), answer));
                    if answer {
                        assert(helps_first(
                            *cost,
                            says,
                            best@,
                            candidates@,
                            i as int,
                            reduced@,
                        ));
                        assert(some_helps(*cost, says, best@, candidates@, reduced@));
                        return Some(reduced);
                    }
                }
                assert(fails_to_help(*cost, says, best@, candidates@[i as int]@));
            },
            None => {},
        }
        i += 1;
        assert(ordered@ =~= candidates@.skip(i as int).reverse());
    }
    None
}

/// Deletion, then one rewrite after the other until none helps.
pub(crate) fn reduce_by_rewrites<
    Op,
    Cost: CostModel<Op>,
    Fails: Fn(&Vec<Op>) -> bool,
    Transforms: SequenceMutator<Op>,
>(
    ops: Vec<Op>,
    cost: &Cost,
    fails: &Fails,
    transforms: &mut Transforms,
    Ghost(says): Ghost<spec_fn(Seq<Op>, bool) -> bool>,
) -> (reduced: Vec<Op>)
    requires
        answers_rewrites::<Op, Cost, Fails, Transforms>(*cost, *fails, ops@),
        is_heard(*fails, says),
    ensures
        keeps_failing(*cost, says, reduced@, ops@),
        is_rewritten::<Op, Cost, Transforms>(*cost, says, reduced@, ops@),
        is_outcome::<Op, Cost, Transforms>(*cost, says, reduced@, ops@),
{
    let ghost given = ops@;
    let mut minimized = reduce_by_deletion(ops, cost, fails, Ghost(says));
    let ghost mut way: Seq<Seq<Op>> = seq![minimized@];
    loop
        invariant
            is_heard(*fails, says),
            answers_rewrites::<Op, Cost, Fails, Transforms>(*cost, *fails, given),
            keeps_failing(*cost, says, minimized@, given),
            is_way::<Op, Cost, Transforms>(*cost, says, given, way),
            way.last() == minimized@,
            is_decided(says) && is_settled::<Op, Transforms>() ==> rewritten_from::<
                Op,
                Cost,
                Transforms,
            >(*cost, says, minimized@) == rewritten::<Op, Cost, Transforms>(
                *cost,
                says,
                given,
            ),
        ensures
            is_outcome::<Op, Cost, Transforms>(*cost, says, minimized@, given),
            leads_nowhere::<Op, Cost, Transforms>(*cost, says, minimized@),
        decreases cost.cost(minimized@), minimized@.len(),
    {
        let candidates = transforms.mutate(&minimized);
        proof {
            if is_settled::<Op, Transforms>() {
                let lists = choose|lists: Seq<Vec<Op>>| Transforms::makes(minimized@, lists);
                assert(Transforms::makes(minimized@, lists));
                assert(contents(candidates@) == rewrites::<Op, Transforms>(minimized@));
            }
        }
        match first_better(candidates, &minimized, cost, fails, Ghost(says)) {
            Some(better) => {
                proof {
                    assert(leads_to::<Op, Cost, Transforms>(
                        *cost,
                        says,
                        minimized@,
                        better@,
                    ));
                    let longer = way.push(better@);
                    assert forall|i: int| 1 <= i < longer.len() implies leads_to::<
                        Op,
                        Cost,
                        Transforms,
                    >(*cost, says, longer[i - 1], #[trigger] longer[i]) by {
                        if i < way.len() {
                            assert(longer[i] == way[i]);
                        }
                    }
                    way = longer;
                }
                minimized = better;
            },
            None => {
                break;
            },
        }
    }
    minimized
}

/// Makes a failing list of operations cheaper by leaving out runs of them, and by the rewrites of
/// `transforms`, each of which is reduced in turn.
///
/// Either nothing changes, or the result is cheaper (or as cheap and shorter) and was said to fail.
/// No rewrite of the result makes it any better.
pub fn reduce_with_cost_and_transforms<
    Op,
    Cost: CostModel<Op>,
    Fails: Fn(&Vec<Op>) -> bool,
    Transforms: SequenceMutator<Op>,
>(ops: Vec<Op>, cost: &Cost, fails: &Fails, transforms: &mut Transforms) -> (reduced: Vec<Op>)
    requires
        answers_rewrites::<Op, Cost, Fails, Transforms>(*cost, *fails, ops@),
    ensures
        keeps_failing(*cost, verdicts(*fails), reduced@, ops@),
        is_rewritten::<Op, Cost, Transforms>(*cost, verdicts(*fails), reduced@, ops@),
        is_outcome::<Op, Cost, Transforms>(*cost, verdicts(*fails), reduced@, ops@),
{
    reduce_by_rewrites(ops, cost, fails, transforms, Ghost(verdicts(*fails)))
}

/// Makes a list of operations cheaper while a predicate holds of it, by leaving out runs of them,
/// and by the rewrites of `transforms`, each of which is reduced in turn.
///
/// Either nothing changes, or the result is cheaper (or as cheap and shorter) and the predicate was
/// said to hold of it.
pub fn reduce_preserving_with_transforms<
    Op,
    Cost: CostModel<Op>,
    Preserves: Fn(&Vec<Op>) -> bool,
    Transforms: SequenceMutator<Op>,
>(ops: Vec<Op>, cost: &Cost, preserves: &Preserves, transforms: &mut Transforms) -> (reduced: Vec<
    Op,
>)
    requires
        answers_rewrites::<Op, Cost, Preserves, Transforms>(*cost, *preserves, ops@),
    ensures
        keeps_failing(*cost, verdicts(*preserves), reduced@, ops@),
        is_rewritten::<Op, Cost, Transforms>(*cost, verdicts(*preserves), reduced@, ops@),
        is_outcome::<Op, Cost, Transforms>(*cost, verdicts(*preserves), reduced@, ops@),
{
    reduce_with_cost_and_transforms(ops, cost, preserves, transforms)
}

/// The runs of one length, one behind the other.
pub open spec fn runs(len: int, chunk: int) -> Seq<(int, int)> {
    Seq::new((len / chunk) as nat, |i: int| (i * chunk, chunk))
}

/// The runs of ever smaller lengths, down to single operations.
pub open spec fn runs_from(len: int, chunk: int) -> Seq<(int, int)>
    decreases chunk,
{
    if chunk <= 1 {
        runs(len, 1)
    } else {
        runs(len, chunk) + runs_from(len, chunk / 2)
    }
}

/// The runs that are left out of a list, one at a time: long ones first.
pub open spec fn deletions(len: int) -> Seq<(int, int)> {
    if len < 2 {
        runs(len, 1)
    } else {
        runs_from(len, power_below(1, len))
    }
}

/// A copy of the operations, one by one.
pub open spec fn are_clones<Op: Clone>(ops: Seq<Op>, copies: Seq<Op>) -> bool {
    &&& copies.len() == ops.len()
    &&& forall|i: int| 0 <= i < ops.len() ==> cloned::<Op>(ops[i], #[trigger] copies[i])
}

/// The lists that are left when one run of operations is left out.
pub open spec fn are_deletions<Op: Clone>(ops: Seq<Op>, lists: Seq<Vec<Op>>) -> bool {
    let all = deletions(ops.len() as int);
    &&& lists.len() == all.len()
    &&& forall|i: int|
        0 <= i < lists.len() ==> are_clones(cut(ops, all[i].0, all[i].1), (#[trigger] lists[i])@)
}

/// A copy of the list without `len` operations from `start` on.
fn copy_without<Op: Clone>(ops: &Vec<Op>, start: usize, len: usize) -> (copy: Vec<Op>)
    requires
        start + len <= ops@.len(),
    ensures
        are_clones(cut(ops@, start as int, len as int), copy@),
{
    let ghost kept = cut(ops@, start as int, len as int);
    let mut copy: Vec<Op> = Vec::with_capacity(ops.len());
    let mut i: usize = 0;
    while i < start
        invariant
            i <= start,
            start + len <= ops@.len(),
            kept == cut(ops@, start as int, len as int),
            copy@.len() == i,
            forall|k: int| 0 <= k < i ==> cloned::<Op>(kept[k], #[trigger] copy@[k]),
        decreases start - i,
    {
        assert(kept[i as int] == ops@[i as int]);
        copy.push(ops[i].clone());
        i += 1;
    }
    let mut j: usize = start + len;
    while j < ops.len()
        invariant
            start + len <= j <= ops@.len(),
            kept == cut(ops@, start as int, len as int),
            copy@.len() == j - len,
            forall|k: int| 0 <= k < j - len ==> cloned::<Op>(kept[k], #[trigger] copy@[k]),
        decreases ops@.len() - j,
    {
        assert(kept[j - len] == ops@[j as int]);
        copy.push(ops[j].clone());
        j += 1;
    }
    copy
}

/// The lists that are left when one run of operations is left out: long runs first, then ever
/// shorter ones, down to single operations.
pub fn emit_deletion_candidates<Op: Clone>(ops: &Vec<Op>) -> (candidates: Vec<Vec<Op>>)
    ensures
        are_deletions(ops@, candidates@),
{
    let total: usize = ops.len();
    let ghost all = deletions(total as int);
    let mut candidates: Vec<Vec<Op>> = Vec::new();
    let mut chunk: usize = half_power(total);
    if chunk == 0 {
        chunk = 1;
    }
    let ghost mut done: Seq<(int, int)> = Seq::empty();
    assert(done + runs_from(total as int, chunk as int) =~= all);
    loop
        invariant_except_break
            all == done + runs_from(total as int, chunk as int),
        invariant
            total == ops@.len(),
            chunk >= 1,
            all == deletions(total as int),
            candidates@.len() == done.len(),
            forall|i: int|
                0 <= i < candidates@.len() ==> are_clones(
                    cut(ops@, done[i].0, done[i].1),
                    (#[trigger] candidates@[i])@,
                ),
        ensures
            candidates@.len() == all.len(),
            forall|i: int|
                0 <= i < candidates@.len() ==> are_clones(
                    cut(ops@, all[i].0, all[i].1),
                    (#[trigger] candidates@[i])@,
                ),
        decreases chunk,
    {
        let ghost before = done;
        let ghost part = runs(total as int, chunk as int);
        let count: usize = total / chunk;
        let mut i: usize = 0;
        let mut start: usize = 0;
        while i < count
            invariant
                total == ops@.len(),
                chunk >= 1,
                count == total / chunk,
                i <= count,
                start == i * chunk,
                start <= total,
                part == runs(total as int, chunk as int),
                candidates@.len() == before.len() + i,
                done == before + part.take(i as int),
                forall|k: int|
                    0 <= k < candidates@.len() ==> are_clones(
                        cut(ops@, done[k].0, done[k].1),
                        (#[trigger] candidates@[k])@,
                    ),
            decreases count - i,
        {
            assert(start + chunk <= total) by (nonlinear_arith)
                requires
                    start == i * chunk,
                    i + 1 <= count,
                    count == total / chunk,
                    chunk >= 1,
            ;
            let candidate = copy_without(ops, start, chunk);
            candidates.push(candidate);
            proof {
                let more = before + part.take(i + 1);
                assert(part[i as int] == (start as int, chunk as int));
                assert(more[before.len() + i] == (start as int, chunk as int));
                assert forall|k: int| 0 <= k < done.len() implies more[k] == done[k] by {}
                assert(done.len() == before.len() + i);
                done = more;
            }
            assert((i + 1) * chunk == i * chunk + chunk) by (nonlinear_arith);
            start = start + chunk;
            i += 1;
        }
        assert(part.take(count as int) =~= part);
        if chunk == 1 {
            assert(done =~= all);
            break;
        }
        assert(done + runs_from(total as int, (chunk / 2) as int) =~= all);
        chunk = chunk / 2;
    }
    candidates
}

} // verus!
