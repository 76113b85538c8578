//! The cases that are kept.

use crate::coverage::CoverageId;
use crate::execution::{
    record_models, DrawRecord, ItemRecord, SequenceRecord, SequenceRecordModel,
};
use crate::order::{bytes_less, lemma_bytes_less, lemma_bytes_less_transitive, less_bytes};
use crate::score::{score_less, CaseCost, MinPathScore};
use crate::trace::{
    sequence_models, ByteAffinity, DrawSpan, ItemSpan, ScalarSpan, SequenceModel, SequenceSpan,
    Trace, TraceModel,
};
use vstd::prelude::*;

verus! {

/// The most cases that are kept.
pub const MAX_CORPUS_LEN: usize = 4096;

/// A case that is kept, with what was learned from it.
pub struct CorpusSeed {
    pub case: Trace,
    pub seed: u64,
    pub prefix: Vec<u8>,
    pub draws: Vec<DrawSpan>,
    pub scalars: Vec<ScalarSpan>,
    pub sequences: Vec<SequenceSpan>,
    pub coverage: Vec<CoverageId>,
    pub removed: Vec<CoverageId>,
    pub case_cost: CaseCost,
    pub score: usize,
    pub hit_count_weight: u64,
    pub path_len: usize,
    pub nonzero_bytes: usize,
    /// How much the case is worth as a parent: a key that orders as the energies do.
    pub energy: u64,
}

/// A case that is kept, by contents.
#[verifier::ext_equal]
pub struct SeedModel {
    pub case: TraceModel,
    pub seed: u64,
    pub prefix: Seq<u8>,
    pub draws: Seq<DrawSpan>,
    pub scalars: Seq<ScalarSpan>,
    pub sequences: Seq<SequenceModel>,
    pub coverage: Seq<CoverageId>,
    pub removed: Seq<CoverageId>,
    pub case_cost: CaseCost,
    pub score: usize,
    pub hit_count_weight: u64,
    pub path_len: usize,
    pub nonzero_bytes: usize,
    pub energy: u64,
}

impl View for CorpusSeed {
    type V = SeedModel;

    open spec fn view(&self) -> SeedModel {
        SeedModel {
            case: self.case@,
            seed: self.seed,
            prefix: self.prefix@,
            draws: self.draws@,
            scalars: self.scalars@,
            sequences: sequence_models(self.sequences@),
            coverage: self.coverage@,
            removed: self.removed@,
            case_cost: self.case_cost,
            score: self.score,
            hit_count_weight: self.hit_count_weight,
            path_len: self.path_len,
            nonzero_bytes: self.nonzero_bytes,
            energy: self.energy,
        }
    }
}

impl SeedModel {
    /// What the case is minimized by.
    pub open spec fn path_score(self) -> MinPathScore {
        MinPathScore {
            case_cost: self.case_cost,
            features: self.score,
            hit_count_weight: self.hit_count_weight,
            bytes: self.path_len,
            nonzero_bytes: self.nonzero_bytes,
        }
    }
}

impl CorpusSeed {
    /// What the case is minimized by.
    pub fn path_score(&self) -> (score: MinPathScore)
        ensures
            score == self@.path_score(),
    {
        MinPathScore::with_case_cost(
            self.case_cost,
            self.score,
            self.hit_count_weight,
            self.path_len,
            self.nonzero_bytes,
        )
    }
}

/// The contents of the cases.
pub open spec fn seed_models(corpus: Seq<CorpusSeed>) -> Seq<SeedModel> {
    corpus.map_values(|seed: CorpusSeed| seed@)
}

/// The span of a draw, in the form in which it is kept.
pub open spec fn draw_span(draw: DrawRecord) -> DrawSpan {
    DrawSpan {
        start: draw.start,
        end: sat_add(draw.start, draw.len),
        affinity: ByteAffinity::Any,
    }
}

pub open spec fn sat_add(a: usize, b: usize) -> usize {
    if a + b <= usize::MAX {
        (a + b) as usize
    } else {
        usize::MAX
    }
}

pub open spec fn draw_spans(draws: Seq<DrawRecord>) -> Seq<DrawSpan> {
    draws.map_values(|draw: DrawRecord| draw_span(draw))
}

pub open spec fn item_spans(items: Seq<ItemRecord>) -> Seq<ItemSpan> {
    items.map_values(
        |item: ItemRecord| ItemSpan { start: item.start, end: sat_add(item.start, item.len) },
    )
}

pub open spec fn sequence_span(sequence: SequenceRecordModel) -> SequenceModel {
    SequenceModel {
        length_start: sequence.length_start,
        length_len: sequence.length_len,
        items: item_spans(sequence.items),
    }
}

pub open spec fn sequence_spans(sequences: Seq<SequenceRecordModel>) -> Seq<SequenceModel> {
    sequences.map_values(|sequence: SequenceRecordModel| sequence_span(sequence))
}

/// The spans of the draws, in the form in which they are kept.
pub fn kept_draws(draws: &Vec<DrawRecord>) -> (spans: Vec<DrawSpan>)
    ensures
        spans@ == draw_spans(draws@),
{
    let mut spans: Vec<DrawSpan> = Vec::with_capacity(draws.len());
    let mut i: usize = 0;
    while i < draws.len()
        invariant
            i <= draws@.len(),
            spans@.len() == i,
            forall|k: int| 0 <= k < i ==> #[trigger] spans@[k] == draw_span(draws@[k]),
        decreases draws@.len() - i,
    {
        let draw = draws[i];
        spans.push(
            DrawSpan {
                start: draw.start,
                end: draw.start.saturating_add(draw.len),
                affinity: ByteAffinity::Any,
            },
        );
        i += 1;
    }
    assert(spans@ =~= draw_spans(draws@));
    spans
}

fn kept_items(items: &Vec<ItemRecord>) -> (spans: Vec<ItemSpan>)
    ensures
        spans@ == item_spans(items@),
{
    let mut spans: Vec<ItemSpan> = Vec::with_capacity(items.len());
    let mut i: usize = 0;
    while i < items.len()
        invariant
            i <= items@.len(),
            spans@.len() == i,
            forall|k: int| 0 <= k < i ==> #[trigger] spans@[k] == item_spans(items@)[k],
        decreases items@.len() - i,
    {
        let item = items[i];
        spans.push(ItemSpan { start: item.start, end: item.start.saturating_add(item.len) });
        i += 1;
    }
    assert(spans@ =~= item_spans(items@));
    spans
}

/// The spans of the sequences, in the form in which they are kept.
pub fn kept_sequences(sequences: &Vec<SequenceRecord>) -> (spans: Vec<SequenceSpan>)
    ensures
        sequence_models(spans@) == sequence_spans(record_models(sequences@)),
{
    let mut spans: Vec<SequenceSpan> = Vec::with_capacity(sequences.len());
    let mut i: usize = 0;
    while i < sequences.len()
        invariant
            i <= sequences@.len(),
            spans@.len() == i,
            forall|k: int| 0 <= k < i ==> (#[trigger] spans@[k])@ == sequence_span(sequences@[k]@),
        decreases sequences@.len() - i,
    {
        let items = kept_items(&sequences[i].items);
        spans.push(
            SequenceSpan {
                length_start: sequences[i].length_start,
                length_len: sequences[i].length_len,
                items,
            },
        );
        assert(spans@[i as int]@ =~= sequence_span(sequences@[i as int]@));
        i += 1;
    }
    assert(sequence_models(spans@) =~= sequence_spans(record_models(sequences@)));
    spans
}

/// The number of bytes other than zero.
pub open spec fn nonzero_count(bytes: Seq<u8>) -> int
    decreases bytes.len(),
{
    if bytes.len() == 0 {
        0
    } else {
        nonzero_count(bytes.drop_last()) + if bytes.last() != 0 {
            1int
        } else {
            0int
        }
    }
}

/// The number of bytes other than zero.
pub fn count_nonzero(bytes: &Vec<u8>) -> (count: usize)
    ensures
        count == nonzero_count(bytes@),
        count <= bytes@.len(),
{
    let mut count: usize = 0;
    let mut i: usize = 0;
    assert(bytes@.take(0) =~= Seq::<u8>::empty());
    while i < bytes.len()
        invariant
            i <= bytes@.len(),
            count <= i,
            count == nonzero_count(bytes@.take(i as int)),
        decreases bytes@.len() - i,
    {
        assert(bytes@.take(i + 1).drop_last() =~= bytes@.take(i as int));
        if bytes[i] != 0 {
            count += 1;
        }
        i += 1;
    }
    assert(bytes@.take(bytes@.len() as int) =~= bytes@);
    count
}

/// `a` is the better of two cases: by score, then by the number of draws, then by the bytes.
pub open spec fn better(a: SeedModel, b: SeedModel) -> bool {
    ||| score_less(a.path_score(), b.path_score())
    ||| a.path_score() == b.path_score() && a.draws.len() < b.draws.len()
    ||| a.path_score() == b.path_score() && a.draws.len() == b.draws.len() && bytes_less(
        a.prefix,
        b.prefix,
    )
}

proof fn lemma_better(a: SeedModel, b: SeedModel, c: SeedModel)
    ensures
        !better(a, a),
        better(a, b) ==> !better(b, a),
        !better(a, b) && !better(b, c) ==> !better(a, c),
{
    lemma_bytes_less(a.prefix, a.prefix);
    lemma_bytes_less(a.prefix, b.prefix);
    lemma_bytes_less(b.prefix, c.prefix);
    lemma_bytes_less(a.prefix, c.prefix);
    if bytes_less(c.prefix, b.prefix) && bytes_less(b.prefix, a.prefix) {
        lemma_bytes_less_transitive(c.prefix, b.prefix, a.prefix);
    }
}

/// The place of the best case, the first of several that are equally good.
pub open spec fn best_place(corpus: Seq<SeedModel>) -> int
    decreases corpus.len(),
{
    if corpus.len() <= 1 {
        0
    } else {
        let place = best_place(corpus.drop_last());
        if better(corpus.last(), corpus[place]) {
            corpus.len() - 1
        } else {
            place
        }
    }
}

/// The place of the worst case by score, the last of several that are equally bad.
pub open spec fn worst_place(corpus: Seq<SeedModel>) -> int
    decreases corpus.len(),
{
    if corpus.len() <= 1 {
        0
    } else {
        let place = worst_place(corpus.drop_last());
        if score_less(corpus.last().path_score(), corpus[place].path_score()) {
            place
        } else {
            corpus.len() - 1
        }
    }
}

/// The place of the case with the least energy, the first of several.
pub open spec fn weakest_place(corpus: Seq<SeedModel>) -> int
    decreases corpus.len(),
{
    if corpus.len() <= 1 {
        0
    } else {
        let place = weakest_place(corpus.drop_last());
        if corpus.last().energy < corpus[place].energy {
            corpus.len() - 1
        } else {
            place
        }
    }
}

/// No case is better than the best one.
pub proof fn best_is_best(corpus: Seq<SeedModel>)
    requires
        corpus.len() > 0,
    ensures
        0 <= best_place(corpus) < corpus.len(),
        forall|i: int|
            0 <= i < corpus.len() ==> !better(#[trigger] corpus[i], corpus[best_place(corpus)]),
        forall|i: int|
            0 <= i < corpus.len() ==> !score_less(
                (#[trigger] corpus[i]).path_score(),
                corpus[best_place(corpus)].path_score(),
            ),
    decreases corpus.len(),
{
    lemma_better(corpus[0], corpus[0], corpus[0]);
    if corpus.len() > 1 {
        let fewer = corpus.drop_last();
        best_is_best(fewer);
        let place = best_place(fewer);
        let chosen = corpus[best_place(corpus)];
        lemma_better(corpus.last(), corpus[place], chosen);
        assert forall|i: int| 0 <= i < corpus.len() implies !better(#[trigger] corpus[i], chosen) by {
            if i < fewer.len() {
                assert(fewer[i] == corpus[i]);
                assert(fewer[place] == corpus[place]);
                lemma_better(corpus[i], corpus[place], chosen);
            } else {
                lemma_better(corpus[i], corpus[i], corpus[i]);
            }
        }
    }
}

/// No case has a worse score than the worst one.
pub proof fn worst_is_worst(corpus: Seq<SeedModel>)
    requires
        corpus.len() > 0,
    ensures
        0 <= worst_place(corpus) < corpus.len(),
        forall|i: int|
            0 <= i < corpus.len() ==> !score_less(
                corpus[worst_place(corpus)].path_score(),
                (#[trigger] corpus[i]).path_score(),
            ),
    decreases corpus.len(),
{
    if corpus.len() > 1 {
        let fewer = corpus.drop_last();
        worst_is_worst(fewer);
        let place = worst_place(fewer);
        assert forall|i: int| 0 <= i < corpus.len() implies !score_less(
            corpus[worst_place(corpus)].path_score(),
            (#[trigger] corpus[i]).path_score(),
        ) by {
            if i < fewer.len() {
                assert(fewer[i] == corpus[i]);
                assert(fewer[place] == corpus[place]);
            }
        }
    }
}

/// No case has less energy than the weakest one.
pub proof fn weakest_is_weakest(corpus: Seq<SeedModel>)
    requires
        corpus.len() > 0,
    ensures
        0 <= weakest_place(corpus) < corpus.len(),
        forall|i: int|
            0 <= i < corpus.len() ==> corpus[weakest_place(corpus)].energy <= (
            #[trigger] corpus[i]).energy,
    decreases corpus.len(),
{
    if corpus.len() > 1 {
        let fewer = corpus.drop_last();
        weakest_is_weakest(fewer);
        let place = weakest_place(fewer);
        assert forall|i: int| 0 <= i < corpus.len() implies corpus[weakest_place(corpus)].energy
            <= (#[trigger] corpus[i]).energy by {
            if i < fewer.len() {
                assert(fewer[i] == corpus[i]);
                assert(fewer[place] == corpus[place]);
            }
        }
    }
}

/// Whether one case of the corpus is better than another.
fn is_better(a: &CorpusSeed, b: &CorpusSeed) -> (result: bool)
    ensures
        result == better(a@, b@),
{
    let left = a.path_score();
    let right = b.path_score();
    if left.is_less(&right) {
        return true;
    }
    if right.is_less(&left) {
        proof {
            crate::score::scores_are_ordered(left, right, left);
        }
        return false;
    }
    proof {
        crate::score::scores_are_ordered(left, right, left);
    }
    if a.draws.len() != b.draws.len() {
        return a.draws.len() < b.draws.len();
    }
    less_bytes(a.prefix.as_slice(), b.prefix.as_slice())
}

/// The place of the best case.
pub fn find_best(corpus: &Vec<CorpusSeed>) -> (place: Option<usize>)
    ensures
        match place {
            Some(place) => corpus@.len() > 0 && place == best_place(seed_models(corpus@)),
            None => corpus@.len() == 0,
        },
{
    if corpus.len() == 0 {
        return None;
    }
    let ghost models = seed_models(corpus@);
    let mut place: usize = 0;
    let mut i: usize = 1;
    while i < corpus.len()
        invariant
            1 <= i <= corpus@.len(),
            models == seed_models(corpus@),
            place < i,
            place == best_place(models.take(i as int)),
        decreases corpus@.len() - i,
    {
        proof {
            let more = models.take(i + 1);
            assert(more.drop_last() =~= models.take(i as int));
            assert(more.last() == corpus@[i as int]@);
            assert(more[place as int] == corpus@[place as int]@);
        }
        if is_better(&corpus[i], &corpus[place]) {
            place = i;
        }
        i += 1;
    }
    assert(models.take(models.len() as int) =~= models);
    Some(place)
}

/// The place of the worst case by score.
pub fn find_worst(corpus: &Vec<CorpusSeed>) -> (place: usize)
    requires
        corpus@.len() > 0,
    ensures
        place == worst_place(seed_models(corpus@)),
        place < corpus@.len(),
{
    let ghost models = seed_models(corpus@);
    let mut place: usize = 0;
    let mut i: usize = 1;
    while i < corpus.len()
        invariant
            1 <= i <= corpus@.len(),
            models == seed_models(corpus@),
            place < i,
            place == worst_place(models.take(i as int)),
        decreases corpus@.len() - i,
    {
        proof {
            let more = models.take(i + 1);
            assert(more.drop_last() =~= models.take(i as int));
            assert(more.last() == corpus@[i as int]@);
            assert(more[place as int] == corpus@[place as int]@);
        }
        if !corpus[i].path_score().is_less(&corpus[place].path_score()) {
            place = i;
        }
        i += 1;
    }
    assert(models.take(models.len() as int) =~= models);
    place
}

/// The place of the case with the least energy.
pub fn find_weakest(corpus: &Vec<CorpusSeed>) -> (place: usize)
    requires
        corpus@.len() > 0,
    ensures
        place == weakest_place(seed_models(corpus@)),
        place < corpus@.len(),
{
    let ghost models = seed_models(corpus@);
    let mut place: usize = 0;
    let mut i: usize = 1;
    while i < corpus.len()
        invariant
            1 <= i <= corpus@.len(),
            models == seed_models(corpus@),
            place < i,
            place == weakest_place(models.take(i as int)),
        decreases corpus@.len() - i,
    {
        proof {
            let more = models.take(i + 1);
            assert(more.drop_last() =~= models.take(i as int));
            assert(more.last() == corpus@[i as int]@);
            assert(more[place as int] == corpus@[place as int]@);
        }
        if corpus[i].energy < corpus[place].energy {
            place = i;
        }
        i += 1;
    }
    assert(models.take(models.len() as int) =~= models);
    place
}

/// The corpus without one case: the last case takes its place.
pub open spec fn without<T>(corpus: Seq<T>, place: int) -> Seq<T> {
    corpus.update(place, corpus.last()).drop_last()
}

/// The corpus, with one case less if there are too many: the worst one, or the weakest one.
pub open spec fn pruned(corpus: Seq<SeedModel>, by_score: bool) -> Seq<SeedModel> {
    if corpus.len() <= MAX_CORPUS_LEN {
        corpus
    } else if by_score {
        without(corpus, worst_place(corpus))
    } else {
        without(corpus, weakest_place(corpus))
    }
}

/// Drops a case if there are too many, and says whether there were.
pub fn prune_corpus(corpus: &mut Vec<CorpusSeed>, prune_by_worst_score: bool) -> (dropped: Option<usize>)
    ensures
        seed_models(final(corpus)@) == pruned(seed_models(old(corpus)@), prune_by_worst_score),
        match dropped {
            Some(place) => old(corpus)@.len() > MAX_CORPUS_LEN && place == if prune_by_worst_score {
                worst_place(seed_models(old(corpus)@))
            } else {
                weakest_place(seed_models(old(corpus)@))
            },
            None => old(corpus)@.len() <= MAX_CORPUS_LEN,
        },
{
    if corpus.len() <= MAX_CORPUS_LEN {
        return None;
    }
    let ghost models = seed_models(corpus@);
    let place: usize = if prune_by_worst_score {
        find_worst(corpus)
    } else {
        find_weakest(corpus)
    };
    let _dropped = corpus.swap_remove(place);
    assert(seed_models(corpus@) =~= without(models, place as int));
    Some(place)
}

/// A corpus that grew by one case within the limit is within the limit after it was pruned.
pub proof fn pruning_keeps_the_limit(corpus: Seq<SeedModel>, by_score: bool)
    requires
        corpus.len() <= MAX_CORPUS_LEN + 1,
    ensures
        pruned(corpus, by_score).len() <= MAX_CORPUS_LEN,
{
    if corpus.len() > 0 {
        worst_is_worst(corpus);
        weakest_is_weakest(corpus);
    }
}

/// To prune by score keeps a case of the best score.
pub proof fn pruning_keeps_the_best(corpus: Seq<SeedModel>)
    requires
        corpus.len() > 0,
    ensures
        exists|i: int|
            0 <= i < pruned(corpus, true).len() && (#[trigger] pruned(corpus, true)[i]).path_score()
                == corpus[best_place(corpus)].path_score(),
{
    best_is_best(corpus);
    worst_is_worst(corpus);
    let best = best_place(corpus);
    let worst = worst_place(corpus);
    let after = pruned(corpus, true);
    if corpus.len() <= MAX_CORPUS_LEN {
        assert(after[best].path_score() == corpus[best].path_score());
    } else if best != worst {
        if best < corpus.len() - 1 {
            assert(after[best] == corpus[best]);
        } else {
            assert(after[worst] == corpus[best]);
        }
    } else {
        let other: int = if worst == 0 {
            1
        } else {
            0
        };
        crate::score::scores_are_ordered(
            corpus[other].path_score(),
            corpus[best].path_score(),
            corpus[best].path_score(),
        );
        assert(!score_less(corpus[worst].path_score(), corpus[other].path_score()));
        assert(corpus[other].path_score() == corpus[best].path_score());
        if other < corpus.len() - 1 {
            assert(after[other] == corpus[other]);
        } else {
            assert(after[worst] == corpus[other]);
        }
    }
}

} // verus!
