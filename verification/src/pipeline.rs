//! Deterministic runs over lists of operations.

use crate::reduce::{
    answers_below, deleted, is_decided, is_outcome, is_reduction, is_rewritten, reduce_by_deletion,
    reduce_by_rewrites, scores_less, CostModel, SequenceMutator,
};
use vstd::prelude::*;

verus! {

/// What cases are generated.
#[derive(Debug, Clone, Copy, PartialEq, Eq, Structural)]
pub struct FuzzConfig {
    pub base_seed: u64,
    pub seeds: u64,
    pub steps: usize,
}

impl FuzzConfig {
    pub open spec fn defaults() -> FuzzConfig {
        FuzzConfig { base_seed: 0, seeds: 64, steps: 256 }
    }
}

impl Default for FuzzConfig {
    fn default() -> (config: FuzzConfig)
        ensures
            config == FuzzConfig::defaults(),
    {
        FuzzConfig { base_seed: 0, seeds: 64, steps: 256 }
    }
}

/// One operation of a list that is replayed.
#[derive(Debug, Clone, Copy, PartialEq, Eq)]
pub struct Step<'a, Op> {
    pub index: usize,
    pub op: &'a Op,
}

impl<'a, Op> Step<'a, Op> {
    /// The place of the operation.
    pub fn index(&self) -> (index: usize)
        ensures
            index == self.index,
    {
        self.index
    }

    /// The operation.
    pub fn op(&self) -> (op: &'a Op)
        ensures
            op == self.op,
    {
        self.op
    }
}

/// A case that is generated from a seed. Its operations are drawn when they are asked for.
#[derive(Debug, Clone, PartialEq, Eq)]
pub struct GeneratedCase<Dist> {
    pub seed: u64,
    pub steps: usize,
    pub distribution: Dist,
}

impl<Dist> GeneratedCase<Dist> {
    /// The seed of the case.
    pub fn seed(&self) -> (seed: u64)
        ensures
            seed == self.seed,
    {
        self.seed
    }

    /// How many operations the case has.
    pub fn steps(&self) -> (steps: usize)
        ensures
            steps == self.steps,
    {
        self.steps
    }
}

/// Makes deterministic runs.
#[derive(Debug, Clone, Copy, PartialEq, Eq, Structural)]
pub struct Fuzzer;

impl Fuzzer {
    /// Cases whose operations are drawn from a distribution.
    pub fn sequences<Dist>(distribution: Dist) -> (builder: SequencesBuilder<Dist>)
        ensures
            builder.config == FuzzConfig::defaults(),
            builder.distribution == distribution,
    {
        SequencesBuilder { config: FuzzConfig::default(), distribution }
    }
}

/// Says which cases are generated.
pub struct SequencesBuilder<Dist> {
    pub config: FuzzConfig,
    pub distribution: Dist,
}

impl<Dist> SequencesBuilder<Dist> {
    /// The seed of the first case.
    pub fn base_seed(self, base_seed: u64) -> (builder: SequencesBuilder<Dist>)
        ensures
            builder.config == (FuzzConfig { base_seed, ..self.config }),
            builder.distribution == self.distribution,
    {
        let mut builder = self;
        builder.config.base_seed = base_seed;
        builder
    }

    /// How many cases there are.
    pub fn seeds(self, seeds: u64) -> (builder: SequencesBuilder<Dist>)
        ensures
            builder.config == (FuzzConfig { seeds, ..self.config }),
            builder.distribution == self.distribution,
    {
        let mut builder = self;
        builder.config.seeds = seeds;
        builder
    }

    /// How many operations each case has.
    pub fn steps(self, steps: usize) -> (builder: SequencesBuilder<Dist>)
        ensures
            builder.config == (FuzzConfig { steps, ..self.config }),
            builder.distribution == self.distribution,
    {
        let mut builder = self;
        builder.config.steps = steps;
        builder
    }

    /// The cases, from the first one on.
    pub fn into_cases(self) -> (cases: Sequences<Dist>)
        ensures
            cases.config == self.config,
            cases.distribution == self.distribution,
            cases.next_offset == 0,
    {
        Sequences { config: self.config, distribution: self.distribution, next_offset: 0 }
    }
}

/// The cases of a run, one after the other.
pub struct Sequences<Dist> {
    pub config: FuzzConfig,
    pub distribution: Dist,
    pub next_offset: u64,
}

/// The seed of the case at a place.
pub open spec fn seed_at(config: FuzzConfig, place: u64) -> u64 {
    ((config.base_seed + place) % 0x1_0000_0000_0000_0000) as u64
}

/// No two cases of a run have the same seed.
pub proof fn seeds_differ(config: FuzzConfig, a: u64, b: u64)
    requires
        a != b,
    ensures
        seed_at(config, a) != seed_at(config, b),
{
}

impl<Dist: Clone> Sequences<Dist> {
    /// The next case.
    pub fn next(&mut self) -> (case: Option<GeneratedCase<Dist>>)
        ensures
            final(self).config == old(self).config,
            final(self).distribution == old(self).distribution,
            match case {
                Some(case) => {
                    &&& old(self).next_offset < old(self).config.seeds
                    &&& case.seed == seed_at(old(self).config, old(self).next_offset)
                    &&& case.steps == old(self).config.steps
                    &&& cloned::<Dist>(old(self).distribution, case.distribution)
                    &&& final(self).next_offset == old(self).next_offset + 1
                },
                None => {
                    &&& old(self).next_offset >= old(self).config.seeds
                    &&& final(self).next_offset == old(self).next_offset
                },
            },
    {
        if self.next_offset >= self.config.seeds {
            return None;
        }
        let seed: u64 = self.config.base_seed.wrapping_add(self.next_offset);
        self.next_offset = self.next_offset + 1;
        Some(
            GeneratedCase {
                seed,
                steps: self.config.steps,
                distribution: self.distribution.clone(),
            },
        )
    }

    /// How many cases are left.
    pub fn remaining(&self) -> (remaining: u64)
        ensures
            remaining == if self.next_offset < self.config.seeds {
                self.config.seeds - self.next_offset
            } else {
                0
            },
    {
        self.config.seeds.saturating_sub(self.next_offset)
    }
}

/// A case, and what came of replaying it.
#[derive(Debug)]
pub struct CheckedCase<Dist> {
    pub case: GeneratedCase<Dist>,
    pub outcome: Result<(), String>,
}

impl<Dist> CheckedCase<Dist> {
    /// The case.
    pub fn case(&self) -> (case: &GeneratedCase<Dist>)
        ensures
            *case == self.case,
    {
        &self.case
    }

    /// What came of replaying it.
    pub fn outcome(&self) -> (outcome: &Result<(), String>)
        ensures
            *outcome == self.outcome,
    {
        &self.outcome
    }

    /// Whether it failed.
    pub fn is_failure(&self) -> (failure: bool)
        ensures
            failure == self.outcome is Err,
    {
        self.outcome.is_err()
    }

    /// The failure with the operations of the case, if it failed.
    pub fn into_failure<Op>(self, ops: Vec<Op>) -> (failed: Option<FailedCase<Op>>)
        ensures
            match failed {
                Some(failed) => self.outcome is Err && failed == (FailedCase {
                    seed: self.case.seed,
                    ops,
                    error: self.outcome->Err_0,
                }),
                None => self.outcome is Ok,
            },
    {
        match self.outcome {
            Ok(_) => None,
            Err(error) => Some(FailedCase { seed: self.case.seed, ops, error }),
        }
    }
}

/// A case that failed.
#[derive(Debug)]
pub struct FailedCase<Op> {
    pub seed: u64,
    pub ops: Vec<Op>,
    pub error: String,
}

impl<Op> FailedCase<Op> {
    /// The seed of the case.
    pub fn seed(&self) -> (seed: u64)
        ensures
            seed == self.seed,
    {
        self.seed
    }

    /// The operations of the case.
    pub fn ops(&self) -> (ops: &Vec<Op>)
        ensures
            *ops == self.ops,
    {
        &self.ops
    }

    /// The error of the first operation that failed.
    pub fn error(&self) -> (error: &String)
        ensures
            *error == self.error,
    {
        &self.error
    }

    /// The seed, the operations and the error.
    pub fn into_parts(self) -> (parts: (u64, Vec<Op>, String))
        ensures
            parts == (self.seed, self.ops, self.error),
    {
        (self.seed, self.ops, self.error)
    }
}

/// A case that failed, and a smaller one that fails too.
#[derive(Debug)]
pub struct MinimizedFailure<Op> {
    pub seed: u64,
    pub ops: Vec<Op>,
    pub error: String,
    pub minimized_ops: Vec<Op>,
    pub minimized_error: String,
}

impl<Op> MinimizedFailure<Op> {
    /// The seed of the case.
    pub fn seed(&self) -> (seed: u64)
        ensures
            seed == self.seed,
    {
        self.seed
    }

    /// The operations of the case.
    pub fn ops(&self) -> (ops: &Vec<Op>)
        ensures
            *ops == self.ops,
    {
        &self.ops
    }

    /// The error of the case.
    pub fn error(&self) -> (error: &String)
        ensures
            *error == self.error,
    {
        &self.error
    }

    /// The operations that are left.
    pub fn minimized_ops(&self) -> (ops: &Vec<Op>)
        ensures
            *ops == self.minimized_ops,
    {
        &self.minimized_ops
    }

    /// The error of the operations that are left.
    pub fn minimized_error(&self) -> (error: &String)
        ensures
            *error == self.minimized_error,
    {
        &self.minimized_error
    }
}

/// A run over the first operations of a list: each step starts from the state that the one before
/// it left.
pub open spec fn is_run<Op, State, Fold: Fn(State, Step<Op>) -> Result<State, String>>(
    ops: Seq<Op>,
    step: Fold,
    states: Seq<State>,
) -> bool {
    &&& 0 < states.len() <= ops.len() + 1
    &&& forall|i: int|
        0 <= i < states.len() - 1 ==> #[trigger] steps_to(step, states[i], ops, i, states[i + 1])
}

/// The step at a place leads from one state to another.
pub open spec fn steps_to<Op, State, Fold: Fn(State, Step<Op>) -> Result<State, String>>(
    step: Fold,
    before: State,
    ops: Seq<Op>,
    place: int,
    after: State,
) -> bool {
    call_ensures(
        step,
        (before, Step { index: place as usize, op: &ops[place] }),
        Ok::<State, String>(after),
    )
}

/// Every operation passed.
pub open spec fn passes<Op, State, Fold: Fn(State, Step<Op>) -> Result<State, String>>(
    ops: Seq<Op>,
    init: State,
    step: Fold,
) -> bool {
    exists|states: Seq<State>| #[trigger]
        is_run(ops, step, states) && states.len() == ops.len() + 1 && states[0] == init
}

/// An operation failed, and those before it passed.
pub open spec fn fails_with<Op, State, Fold: Fn(State, Step<Op>) -> Result<State, String>>(
    ops: Seq<Op>,
    init: State,
    step: Fold,
    error: String,
) -> bool {
    exists|states: Seq<State>| #[trigger]
        is_run(ops, step, states) && states.len() <= ops.len() && states[0] == init
            && call_ensures(
            step,
            (
                states.last(),
                Step { index: (states.len() - 1) as usize, op: &ops[states.len() - 1] },
            ),
            Err::<State, String>(error),
        )
}

/// A step can be taken from any state.
pub open spec fn takes_steps<Op, State, Fold: Fn(State, Step<Op>) -> Result<State, String>>(
    step: Fold,
) -> bool {
    forall|state: State, at: Step<Op>| #[trigger] call_requires(step, (state, at))
}

/// Replays operations, up to the first one that fails.
pub fn replay_ops<Op, State, Fold: Fn(State, Step<Op>) -> Result<State, String>>(
    ops: &Vec<Op>,
    init: State,
    step: &Fold,
) -> (outcome: Result<(), String>)
    requires
        takes_steps::<Op, State, Fold>(*step),
    ensures
        match outcome {
            Ok(_) => passes(ops@, init, *step),
            Err(error) => fails_with(ops@, init, *step, error),
        },
{
    let ghost mut states: Seq<State> = seq![init];
    let mut state = init;
    let mut i: usize = 0;
    while i < ops.len()
        invariant
            i <= ops@.len(),
            takes_steps::<Op, State, Fold>(*step),
            states.len() == i + 1,
            states.last() == state,
            states[0] == init,
            is_run(ops@, *step, states),
        decreases ops@.len() - i,
    {
        let at = Step { index: i, op: &ops[i] };
        match step(state, at) {
            Ok(next) => {
                proof {
                    let more = states.push(next);
                    assert forall|k: int| 0 <= k < more.len() - 1 implies #[trigger] steps_to(
                        *step,
                        more[k],
                        ops@,
                        k,
                        more[k + 1],
                    ) by {
                        if k < states.len() - 1 {
                            assert(steps_to(*step, states[k], ops@, k, states[k + 1]));
                        }
                    }
                    states = more;
                }
                state = next;
            },
            Err(error) => {
                assert(fails_with(ops@, init, *step, error)) by {
                    assert(is_run(ops@, *step, states));
                }
                return Err(error);
            },
        }
        i += 1;
    }
    assert(passes(ops@, init, *step)) by {
        assert(is_run(ops@, *step, states));
    }
    Ok(())
}

/// A replay of the operations failed, or did not.
pub open spec fn replay_says<Op, Replay: Fn(&Vec<Op>) -> Option<String>>(
    replay: Replay,
    ops: Vec<Op>,
    failed: bool,
) -> bool {
    if failed {
        exists|error: String| #[trigger] call_ensures(replay, (&ops,), Some(error))
    } else {
        call_ensures(replay, (&ops,), None)
    }
}

/// The operations can be replayed.
pub open spec fn can_replay<Op, Replay: Fn(&Vec<Op>) -> Option<String>>(
    replay: &Replay,
    ops: &Vec<Op>,
) -> bool {
    call_requires(*replay, (ops,))
}

/// The mutator may make these lists out of `best`, and one of them stands at `i`.
pub open spec fn is_made<Op, Transforms: SequenceMutator<Op>>(
    best: Seq<Op>,
    lists: Seq<Vec<Op>>,
    i: int,
) -> bool {
    Transforms::makes(best, lists) && 0 <= i < lists.len()
}

/// The operations score less than a list that the mutator may make.
pub open spec fn beats_rewrite<Op, Cost: CostModel<Op>, Transforms: SequenceMutator<Op>>(
    cost: Cost,
    ops: Seq<Op>,
) -> bool {
    exists|best: Seq<Op>, lists: Seq<Vec<Op>>, i: int| #[trigger]
        is_made::<Op, Transforms>(best, lists, i) && scores_less(cost, ops, lists[i]@)
}

/// What replays said of which operations.
pub open spec fn replay_verdicts<Op, Replay: Fn(&Vec<Op>) -> Option<String>>(
    replay: Replay,
) -> spec_fn(Seq<Op>, bool) -> bool {
    |ops: Seq<Op>, failed: bool|
        exists|asked: Vec<Op>| asked@ == ops && #[trigger] replay_says(replay, asked, failed)
}

/// What deletion leaves of the operations: the very list, where replays never contradict each other.
pub open spec fn is_left_by_deletion<Op, Cost: CostModel<Op>>(
    cost: Cost,
    says: spec_fn(Seq<Op>, bool) -> bool,
    left: Seq<Op>,
    ops: Seq<Op>,
) -> bool {
    &&& is_reduction(cost, says, left, ops)
    &&& is_decided(says) ==> left == deleted(cost, says, ops)
}

/// What deletion and rewrites leave of the operations: the very list, where neither replays nor the
/// mutator contradict themselves.
pub open spec fn is_left_by_rewrites<Op, Cost: CostModel<Op>, Transforms: SequenceMutator<Op>>(
    cost: Cost,
    says: spec_fn(Seq<Op>, bool) -> bool,
    left: Seq<Op>,
    ops: Seq<Op>,
) -> bool {
    &&& is_rewritten::<Op, Cost, Transforms>(cost, says, left, ops)
    &&& is_outcome::<Op, Cost, Transforms>(cost, says, left, ops)
}

/// What a failure was made into.
pub open spec fn is_minimized<Op, Replay: Fn(&Vec<Op>) -> Option<String>>(
    case: FailedCase<Op>,
    replay: Replay,
    minimized: MinimizedFailure<Op>,
) -> bool {
    &&& minimized.seed == case.seed
    &&& minimized.ops == case.ops
    &&& minimized.error == case.error
    &&& call_ensures(replay, (&minimized.minimized_ops,), Some(minimized.minimized_error))
}

fn has_error<Op, Replay: Fn(&Vec<Op>) -> Option<String>>(replay: &Replay, ops: &Vec<Op>) -> (failed:
    bool)
    requires
        can_replay(replay, ops),
    ensures
        replay_says(*replay, *ops, failed),
{
    match replay(ops) {
        Some(error) => {
            assert(call_ensures(*replay, (ops,), Some(error)));
            true
        },
        None => false,
    }
}

impl<Op> FailedCase<Op> {
    /// Makes the failure smaller by leaving out runs of operations. `copy` holds its operations once
    /// more, and is what is made smaller.
    ///
    /// Nothing comes of it if the operations that are left do not fail when they are replayed. Only
    /// `copy` itself and lists that score less are replayed.
    pub fn minimize<Cost: CostModel<Op>, Replay: Fn(&Vec<Op>) -> Option<String>>(
        self,
        copy: Vec<Op>,
        cost: &Cost,
        replay: &Replay,
    ) -> (minimized: Option<MinimizedFailure<Op>>)
        requires
            copy@ == self.ops@,
            forall|asked: Vec<Op>|
                asked@ == copy@ || scores_less(*cost, asked@, copy@) ==> #[trigger] call_requires(
                    *replay,
                    (&asked,),
                ),
        ensures
            match minimized {
                Some(minimized) => is_minimized(self, *replay, minimized) && is_left_by_deletion(
                    *cost,
                    replay_verdicts(*replay),
                    minimized.minimized_ops@,
                    copy@,
                ),
                None => exists|asked: Vec<Op>|
                    is_left_by_deletion(*cost, replay_verdicts(*replay), asked@, copy@)
                        && #[trigger] call_ensures(*replay, (&asked,), None),
            },
    {
        let fails = |ops: &Vec<Op>| -> (failed: bool)
            requires
                can_replay(replay, ops),
            ensures
                replay_says(*replay, *ops, failed),
            { has_error(replay, ops) };
        let minimized_ops = reduce_by_deletion(
            copy,
            cost,
            &fails,
            Ghost(replay_verdicts(*replay)),
        );
        match replay(&minimized_ops) {
            Some(minimized_error) => Some(
                MinimizedFailure {
                    seed: self.seed,
                    ops: self.ops,
                    error: self.error,
                    minimized_ops,
                    minimized_error,
                },
            ),
            None => None,
        }
    }

    /// Makes the failure smaller by leaving out runs of operations, and by the rewrites of
    /// `transforms`. `copy` holds its operations once more, and is what is made smaller.
    ///
    /// Nothing comes of it if the operations that are left do not fail when they are replayed. Only
    /// `copy` itself and lists that score less than it, or than a rewrite, are replayed.
    pub fn minimize_with_transforms<
        Cost: CostModel<Op>,
        Replay: Fn(&Vec<Op>) -> Option<String>,
        Transforms: SequenceMutator<Op>,
    >(
        self,
        copy: Vec<Op>,
        cost: &Cost,
        replay: &Replay,
        transforms: &mut Transforms,
    ) -> (minimized: Option<MinimizedFailure<Op>>)
        requires
            copy@ == self.ops@,
            forall|asked: Vec<Op>|
                asked@ == copy@ || scores_less(*cost, asked@, copy@) || beats_rewrite::<
                    Op,
                    Cost,
                    Transforms,
                >(*cost, asked@) ==> #[trigger] call_requires(*replay, (&asked,)),
        ensures
            match minimized {
                Some(minimized) => is_minimized(self, *replay, minimized) && is_left_by_rewrites::<
                    Op,
                    Cost,
                    Transforms,
                >(*cost, replay_verdicts(*replay), minimized.minimized_ops@, copy@),
                None => exists|asked: Vec<Op>|
                    is_left_by_rewrites::<Op, Cost, Transforms>(
                        *cost,
                        replay_verdicts(*replay),
                        asked@,
                        copy@,
                    ) && #[trigger] call_ensures(*replay, (&asked,), None),
            },
    {
        let fails = |ops: &Vec<Op>| -> (failed: bool)
            requires
                can_replay(replay, ops),
            ensures
                replay_says(*replay, *ops, failed),
            { has_error(replay, ops) };
        proof {
            assert forall|best: Seq<Op>, lists: Seq<Vec<Op>>, i: int|
                #![trigger Transforms::makes(best, lists), lists[i]]
                Transforms::makes(best, lists) && 0 <= i < lists.len() implies answers_below(
                *cost,
                fails,
                lists[i]@,
            ) by {
                assert forall|asked: Vec<Op>|
                    scores_less(*cost, asked@, lists[i]@) implies #[trigger] call_requires(
                    fails,
                    (&asked,),
                ) by {
                    assert(is_made::<Op, Transforms>(best, lists, i));
                    assert(beats_rewrite::<Op, Cost, Transforms>(*cost, asked@));
                }
            }
        }
        let minimized_ops = reduce_by_rewrites(
            copy,
            cost,
            &fails,
            transforms,
            Ghost(replay_verdicts(*replay)),
        );
        match replay(&minimized_ops) {
            Some(minimized_error) => Some(
                MinimizedFailure {
                    seed: self.seed,
                    ops: self.ops,
                    error: self.error,
                    minimized_ops,
                    minimized_error,
                },
            ),
            None => None,
        }
    }
}

} // verus!
