//! Schedules that are drawn from a case.
//!
//! A case opens one range. Every scheduling point with two or more runnable threads takes one child
//! of the range, and draws two variants in it: which thread runs, where zero stands for the one that
//! ran, and for how many edges. Random bytes that the program asks for are drawn in the same child.
//! Once the children are used up the answer is zero forever, so that a case of zeros runs every
//! thread to its end.

use crate::execution::{DrawKind, SemanticKind};
use crate::rng::{
    choices_lie_below, chooses, drawn, draws_add_up, draws_bytes, draws_on, lemma_nothing_drawn,
    lemma_records_draw_nothing, opens_range, with_item, with_semantic, with_sequence, CaseRng,
    ChildRng, Edge, RangeIter, RangeModel, RngModel,
};
use crate::scheduler::supervisor::{Decision, Scheduler, BUDGET_COUNT};
use vstd::prelude::*;

verus! {

/// The most decisions that a case makes, and one more.
pub const MAX_DECISIONS: usize = 64;

/// A scheduler whose decisions are drawn from a case.
pub struct CaseScheduler<Session> {
    pub rng: CaseRng<Session>,
    pub decisions: RangeIter,
    /// The child of the last decision.
    pub current: Option<ChildRng>,
    pub consumed: usize,
}

/// The generator after the child of the last decision is over.
pub open spec fn rng_closed(rng: RngModel, current: Option<ChildRng>) -> RngModel {
    match current {
        Some(child) => with_semantic(rng, child.start() as int, SemanticKind::Item),
        None => rng,
    }
}

/// The range after the child of the last decision is over.
pub open spec fn range_closed(
    range: RangeModel,
    rng: RngModel,
    current: Option<ChildRng>,
) -> RangeModel {
    match current {
        Some(child) => with_item(range, rng, child),
        None => range,
    }
}

/// A decision, drawn as two variants.
pub open spec fn decision_drawn(
    before: RngModel,
    after: RngModel,
    candidates: usize,
    decision: Decision,
) -> bool {
    exists|middle: RngModel|
        {
            &&& #[trigger] chooses(
                before,
                middle,
                candidates,
                SemanticKind::Variant,
                decision.pick,
            )
            &&& chooses(middle, after, BUDGET_COUNT, SemanticKind::Variant, decision.budget)
        }
}

/// The bytes that are given out while no child is open.
pub open spec fn constant_byte(i: int) -> u8 {
    ((i as u8).wrapping_mul(0x9d)) ^ 0x5au8
}

impl<Session> CaseScheduler<Session> {
    /// A scheduler for a case: the number of its decisions is drawn.
    pub fn new(rng: CaseRng<Session>) -> (scheduler: CaseScheduler<Session>)
        ensures
            opens_range(
                rng@,
                scheduler.rng@,
                Edge::Included(0),
                Edge::Excluded(MAX_DECISIONS),
                scheduler.decisions@,
            ),
            scheduler.current is None,
            scheduler.consumed == 0,
            scheduler.rng.session_of() == rng.session_of(),
            draws_on(rng, scheduler.rng),
    {
        let mut rng = rng;
        let decisions = rng.range(Edge::Included(0), Edge::Excluded(MAX_DECISIONS));
        CaseScheduler { rng, decisions, current: None, consumed: 0 }
    }

    /// Ends the child of the last decision.
    fn close_child(&mut self)
        ensures
            final(self).rng@ == rng_closed(old(self).rng@, old(self).current),
            final(self).decisions@ == range_closed(
                old(self).decisions@,
                old(self).rng@,
                old(self).current,
            ),
            final(self).current is None,
            final(self).consumed == old(self).consumed,
            final(self).rng.session_of() == old(self).rng.session_of(),
            final(self).rng.source() == old(self).rng.source(),
    {
        match self.current.take() {
            Some(child) => {
                child.close(&mut self.decisions, &mut self.rng);
            },
            None => {},
        }
    }

    /// Ends the schedule: the generator of the case, with the decisions recorded.
    pub fn finish(self) -> (rng: CaseRng<Session>)
        ensures
            rng@ == with_sequence(
                rng_closed(self.rng@, self.current),
                range_closed(self.decisions@, self.rng@, self.current),
            ),
            rng.session_of() == self.rng.session_of(),
            rng.source() == self.rng.source(),
    {
        let mut scheduler = self;
        scheduler.close_child();
        let mut rng = scheduler.rng;
        scheduler.decisions.close(&mut rng);
        rng
    }
}

impl<Session> Scheduler for CaseScheduler<Session> {
    fn decide(&mut self, candidates: usize) -> (decision: Decision)
        ensures
            ({
                let rng = rng_closed(old(self).rng@, old(self).current);
                let range = range_closed(
                    old(self).decisions@,
                    old(self).rng@,
                    old(self).current,
                );
                if range.index < range.len {
                    &&& decision_drawn(rng, final(self).rng@, candidates, decision)
                    &&& final(self).decisions@ == (RangeModel {
                        index: (range.index + 1) as usize,
                        ..range
                    })
                    &&& final(self).current is Some
                    &&& final(self).current->Some_0.start() == rng.trace.len()
                    &&& final(self).current->Some_0.place() == range.index
                    &&& decision.budget < BUDGET_COUNT
                    &&& 1 <= candidates <= 65535 ==> decision.pick < candidates
                    &&& final(self).consumed == (if old(self).consumed == usize::MAX {
                        usize::MAX as int
                    } else {
                        old(self).consumed + 1
                    })
                } else {
                    &&& decision == (Decision { pick: 0, budget: 0 })
                    &&& final(self).rng@ == rng
                    &&& final(self).decisions@ == range
                    &&& final(self).current is None
                    &&& final(self).consumed == old(self).consumed
                }
            }),
            final(self).rng.session_of() == old(self).rng.session_of(),
            draws_on(old(self).rng, final(self).rng),
    {
        self.close_child();
        proof {
            lemma_nothing_drawn(old(self).rng);
            lemma_records_draw_nothing(old(self).rng, old(self).rng, self.rng);
        }
        match self.decisions.next(&self.rng) {
            Some(child) => {
                let ghost before = self.rng@;
                let ghost closed = self.rng;
                let pick: usize = child.variant(&mut self.rng, candidates);
                let ghost middle = self.rng@;
                let ghost picked = self.rng;
                let budget: usize = child.variant(&mut self.rng, BUDGET_COUNT);
                proof {
                    draws_add_up(old(self).rng, closed, picked);
                    draws_add_up(old(self).rng, picked, self.rng);
                    choices_lie_below(before, middle, candidates, SemanticKind::Variant, pick);
                    choices_lie_below(
                        middle,
                        self.rng@,
                        BUDGET_COUNT,
                        SemanticKind::Variant,
                        budget,
                    );
                }
                self.consumed = self.consumed.saturating_add(1);
                self.current = Some(child);
                let decision = Decision { pick, budget };
                assert(chooses(
                    before,
                    middle,
                    candidates,
                    SemanticKind::Variant,
                    decision.pick,
                ));
                assert(chooses(
                    middle,
                    self.rng@,
                    BUDGET_COUNT,
                    SemanticKind::Variant,
                    decision.budget,
                ));
                assert(decision_drawn(before, self.rng@, candidates, decision));
                decision
            },
            None => Decision { pick: 0, budget: 0 },
        }
    }

    fn random_bytes(&mut self, len: usize) -> (bytes: Vec<u8>)
        ensures
            bytes@.len() == len,
            match old(self).current {
                Some(_) => {
                    &&& draws_bytes(
                        old(self).rng@,
                        final(self).rng@,
                        len as nat,
                        DrawKind::Bytes,
                    )
                    &&& bytes@ == drawn(old(self).rng@, final(self).rng@)
                },
                None => {
                    &&& final(self).rng@ == old(self).rng@
                    &&& bytes@ == Seq::new(len as nat, |i: int| constant_byte(i))
                },
            },
            final(self).current == old(self).current,
            final(self).decisions@ == old(self).decisions@,
            final(self).consumed == old(self).consumed,
            final(self).rng.session_of() == old(self).rng.session_of(),
            draws_on(old(self).rng, final(self).rng),
    {
        proof {
            lemma_nothing_drawn(self.rng);
        }
        if self.current.is_some() {
            return self.rng.fill_bytes(len);
        }
        let mut bytes: Vec<u8> = Vec::with_capacity(len);
        let mut i: usize = 0;
        while i < len
            invariant
                i <= len,
                bytes@.len() == i,
                forall|k: int| 0 <= k < i ==> #[trigger] bytes@[k] == constant_byte(k),
            decreases len - i,
        {
            bytes.push((i as u8).wrapping_mul(0x9d) ^ 0x5au8);
            i += 1;
        }
        assert(bytes@ =~= Seq::new(len as nat, |k: int| constant_byte(k)));
        bytes
    }
}

/// A case whose bytes are zeros decides as if there were no case: keep running, without a limit.
pub proof fn zero_bytes_decide_nothing(
    before: RngModel,
    after: RngModel,
    candidates: usize,
    decision: Decision,
)
    requires
        decision_drawn(before, after, candidates, decision),
        forall|i: int| before.trace.len() <= i < after.trace.len() ==> after.trace[i] == 0,
    ensures
        decision == (Decision { pick: 0, budget: 0 }),
{
    let middle = choose|middle: RngModel|
        {
            &&& #[trigger] chooses(
                before,
                middle,
                candidates,
                SemanticKind::Variant,
                decision.pick,
            )
            &&& chooses(middle, after, BUDGET_COUNT, SemanticKind::Variant, decision.budget)
        };
    assert forall|i: int| before.trace.len() <= i < middle.trace.len() implies middle.trace[i]
        == 0 by {
        assert(after.trace.take(middle.trace.len() as int)[i] == after.trace[i]);
    }
    lemma_zero_value(drawn(before, middle));
    lemma_zero_value(drawn(middle, after));
    vstd::arithmetic::div_mod::lemma_small_mod(0, crate::rng::choice_bound(candidates) as nat);
    vstd::arithmetic::div_mod::lemma_small_mod(0, crate::rng::choice_bound(BUDGET_COUNT) as nat);
}

proof fn lemma_zero_value(bytes: Seq<u8>)
    requires
        forall|i: int| 0 <= i < bytes.len() ==> bytes[i] == 0,
    ensures
        crate::targets::le_value(bytes) == 0,
    decreases bytes.len(),
{
    if bytes.len() > 0 {
        lemma_zero_value(bytes.skip(1));
    }
}

/// A decision goes by eight bytes of the case: the first two choose among the candidates, and the
/// fifth and sixth among the budgets.
pub proof fn decisions_go_by_the_bytes(
    before: RngModel,
    after: RngModel,
    candidates: usize,
    decision: Decision,
)
    requires
        decision_drawn(before, after, candidates, decision),
        1 <= candidates <= 65535,
        before.trace.len() + 8 <= crate::trace::MAX_PREFIX_LEN,
    ensures
        ({
            let n = before.trace.len() as int;
            &&& after.trace.len() == n + 8
            &&& decision.pick == (after.trace[n] + 256 * after.trace[n + 1]) % candidates as int
            &&& decision.budget == (after.trace[n + 4] + 256 * after.trace[n + 5]) % 22
        }),
{
    let middle = choose|middle: RngModel|
        #[trigger] chooses(
            before,
            middle,
            candidates,
            SemanticKind::Variant,
            decision.pick,
        ) && chooses(middle, after, BUDGET_COUNT, SemanticKind::Variant, decision.budget);
    let n = before.trace.len() as int;
    crate::rng::choices_go_by_two_bytes(
        before,
        middle,
        candidates,
        SemanticKind::Variant,
        decision.pick,
    );
    crate::rng::choices_go_by_two_bytes(
        middle,
        after,
        BUDGET_COUNT,
        SemanticKind::Variant,
        decision.budget,
    );
    assert(after.trace.take(n + 4)[n] == after.trace[n]);
    assert(after.trace.take(n + 4)[n + 1] == after.trace[n + 1]);
}

} // verus!
