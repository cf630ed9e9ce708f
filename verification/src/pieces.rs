//! The catalogue of pieces, and the weighted choice of the next piece.
use vstd::prelude::*;
use core::ops::Range;
use rand::distributions::Distribution;
use rand::distributions::WeightedError;
use rand::distributions::WeightedIndex;
use rand::rngs::ThreadRng;
use crate::piece::PieceFields;
use crate::piece::PieceShape;

verus! {

/// rand's `WeightedError`, the reason why no distribution could be made. It
/// is handed on as it is; nothing is claimed of it.
#[verifier::external_type_specification]
#[verifier::external_body]
pub struct ExWeightedError(WeightedError);

/// rand's `ThreadRng`, the handle of a thread's random number generator. It
/// is handed on as it is; nothing is claimed of it.
#[verifier::external_type_specification]
#[verifier::external_body]
pub struct ExThreadRng(ThreadRng);

/// rand's `WeightedIndex` over weights that are machine words. What is
/// inside it is not looked at here: `distribution_weights` names the weights
/// that it was made from.
#[verifier::external_body]
pub struct PieceDistribution {
    index: WeightedIndex<usize>,
}

/// The weights that a distribution was made from, in their order. A
/// `WeightedIndex` keeps their running sums and never changes them.
pub uninterp spec fn distribution_weights(distribution: PieceDistribution) -> Seq<usize>;

/// The sum of `weights`.
pub open spec fn total_weight(weights: Seq<usize>) -> int
    decreases weights.len(),
{
    if weights.len() == 0 {
        0
    } else {
        total_weight(weights.drop_last()) + weights.last()
    }
}

/// Whether a weighted choice can be made among `weights`: there is a weight,
/// not all weights are zero, and their sum is a machine word.
pub open spec fn can_choose(weights: Seq<usize>) -> bool {
    weights.len() > 0 && 0 < total_weight(weights) <= usize::MAX
}

/// Makes the distribution over `weights` with rand's `WeightedIndex::new`.
/// That function adds the weights up, which is why their sum must fit in a
/// machine word. For weights without a sign it fails in two cases only, where
/// there is no weight and where their sum is zero, and otherwise keeps the
/// running sums, from which the weights can be had back in their order.
#[verifier::external_body]
fn weighted_index(weights: &Vec<usize>) -> (res: Result<PieceDistribution, WeightedError>)
    requires
        total_weight(weights@) <= usize::MAX,
    ensures
        res is Ok <==> (weights@.len() > 0 && total_weight(weights@) > 0),
        res matches Ok(distribution) ==> distribution_weights(distribution) == weights@,
{
    match WeightedIndex::new(weights) {
        Ok(index) => Ok(PieceDistribution { index }),
        Err(error) => Err(error),
    }
}

/// rand's `thread_rng`: the handle of the thread's random number generator,
/// which the operating system seeds when the thread first asks for it; where
/// the system has no seed to give, the call panics. Nothing is claimed of the
/// handle.
pub assume_specification[ rand::thread_rng ]() -> (rng: ThreadRng)
;

/// Draws an index from `distribution` with rand's `sample`. `sample` draws a
/// number below the sum of the weights and returns the first index whose
/// running sum is above it: an index of a weight, and never of a weight that
/// is zero. Which one it is differs from call to call.
#[verifier::external_body]
fn sample_index(distribution: &PieceDistribution, rng: &mut ThreadRng) -> (index: usize)
    ensures
        index < distribution_weights(*distribution).len(),
        distribution_weights(*distribution)[index as int] > 0,
{
    distribution.index.sample(rng)
}

/// The weighted choice among the pieces of a part of the catalogue, together
/// with the place at which that part starts.
pub struct PieceChoice {
    distribution: PieceDistribution,
    offset: usize,
}

impl PieceChoice {
    /// The weights of the pieces to choose from, in their order.
    pub closed spec fn weights(&self) -> Seq<usize> {
        distribution_weights(self.distribution)
    }

    /// The place in the catalogue of the first piece to choose from.
    pub closed spec fn start(&self) -> int {
        self.offset as int
    }

    /// The invariant of a choice: the places of its pieces are machine words.
    #[verifier::type_invariant]
    pub closed spec fn wf(&self) -> bool {
        self.offset + distribution_weights(self.distribution).len() <= usize::MAX
    }

    /// Whether `place` can come out of a draw: it is the place of one of the
    /// pieces to choose from, and not of one with weight zero.
    pub open spec fn can_draw(&self, place: int) -> bool {
        &&& self.start() <= place < self.start() + self.weights().len()
        &&& self.weights()[place - self.start()] > 0
    }

    /// The place in the catalogue of the first piece to choose from.
    pub fn offset(&self) -> (offset: usize)
        ensures
            offset == self.start(),
    {
        self.offset
    }
}

/// The catalogue of pieces, each with the weight with which it is chosen.
pub struct Pieces {
    pieces: Vec<PieceFields>,
    distribution: Vec<usize>,
}

/// The mathematical content of a catalogue.
pub struct Catalogue {
    /// The pieces.
    pub pieces: Seq<PieceShape>,
    /// The weight of each piece, in the order of the pieces.
    pub weights: Seq<usize>,
}

impl View for Pieces {
    type V = Catalogue;

    closed spec fn view(&self) -> Catalogue {
        Catalogue {
            pieces: Seq::new(self.pieces@.len(), |i: int| self.pieces@[i]@),
            weights: self.distribution@,
        }
    }
}

impl Pieces {
    /// The weights of the pieces, in the order of the pieces.
    pub open spec fn weights(&self) -> Seq<usize> {
        self@.weights
    }

    /// The invariant of a catalogue: every piece has a weight.
    #[verifier::type_invariant]
    pub open spec fn wf(&self) -> bool {
        self@.weights.len() == self@.pieces.len()
    }

    /// The weights of the pieces in `range`, or of all pieces where there is
    /// no range.
    pub open spec fn range_weights(&self, range: Option<Range<usize>>) -> Seq<usize> {
        match range {
            Some(range) => self.weights().subrange(range.start as int, range.end as int),
            None => self.weights(),
        }
    }

    /// Whether `range` lies within the catalogue.
    pub open spec fn has_range(&self, range: Option<Range<usize>>) -> bool {
        range matches Some(range) ==> range.start <= range.end <= self.weights().len()
    }

    /// The number of pieces.
    pub fn len(&self) -> (n: usize)
        ensures
            n == self@.pieces.len(),
    {
        self.pieces.len()
    }

    /// The piece at `place`.
    pub fn get(&self, place: usize) -> (piece: &PieceFields)
        requires
            place < self@.pieces.len(),
        ensures
            piece@ == self@.pieces[place as int],
    {
        &self.pieces[place]
    }

    /// The catalogue of the pieces in `weighted_pieces`, each with the weight
    /// that stands beside it.
    pub fn new(weighted_pieces: Vec<(PieceFields, usize)>) -> (catalogue: Pieces)
        ensures
            catalogue.wf(),
            catalogue@.pieces.len() == weighted_pieces@.len(),
            forall|i: int|
                0 <= i < weighted_pieces@.len() ==> #[trigger] catalogue@.pieces[i]
                    == weighted_pieces@[i].0@,
            forall|i: int|
                0 <= i < weighted_pieces@.len() ==> #[trigger] catalogue@.weights[i]
                    == weighted_pieces@[i].1,
    {
        let mut pieces: Vec<PieceFields> = Vec::new();
        let mut distribution: Vec<usize> = Vec::new();
        let mut i: usize = 0;
        while i < weighted_pieces.len()
            invariant
                i <= weighted_pieces@.len(),
                pieces@.len() == i,
                distribution@.len() == i,
                forall|k: int| 0 <= k < i ==> (#[trigger] pieces@[k])@ == weighted_pieces@[k].0@,
                forall|k: int| 0 <= k < i ==> #[trigger] distribution@[k] == weighted_pieces@[k].1,
            decreases weighted_pieces@.len() - i,
        {
            pieces.push(weighted_pieces[i].0.clone());
            distribution.push(weighted_pieces[i].1);
            i += 1;
        }
        Pieces { pieces, distribution }
    }

    /// The weights of the pieces in `range`, if the range lies within the
    /// catalogue and a weighted choice can be made among these weights.
    fn choosable_weights(&self, range: &Option<Range<usize>>) -> (weights: Option<Vec<usize>>)
        ensures
            weights is Some <==> self.has_range(*range) && can_choose(self.range_weights(*range)),
            weights matches Some(w) ==> w@ == self.range_weights(*range),
    {
        let (start, end) = match range {
            Some(range) => (range.start, range.end),
            None => (0, self.distribution.len()),
        };
        if start > end || end > self.distribution.len() {
            return None;
        }
        let ghost all = self.range_weights(*range);
        let mut weights: Vec<usize> = Vec::new();
        let mut total: usize = 0;
        let mut i: usize = start;
        while i < end
            invariant
                start <= i <= end <= self.distribution@.len(),
                all == self.weights().subrange(start as int, end as int),
                all == self.range_weights(*range),
                weights@ == all.take(i - start),
                total == total_weight(weights@),
            decreases end - i,
        {
            let weight: usize = self.distribution[i];
            proof {
                let more = all.take(i - start + 1);
                assert(more.drop_last() =~= all.take(i - start));
                lemma_total_weight_grows(more, all);
            }
            if weight > usize::MAX - total {
                return None;
            }
            total += weight;
            weights.push(weight);
            i += 1;
        }
        assert(all.take(end - start) =~= all);
        if weights.len() == 0 || total == 0 {
            return None;
        }
        Some(weights)
    }

    /// Whether `get_distribution` can be asked for `range`: the range lies
    /// within the catalogue and a weighted choice can be made among its
    /// weights.
    pub fn can_get_distribution(&self, range: &Option<Range<usize>>) -> (can: bool)
        ensures
            can <==> self.has_range(*range) && can_choose(self.range_weights(*range)),
    {
        self.choosable_weights(range).is_some()
    }

    /// The weighted choice among the pieces in `range`, or among all pieces
    /// where there is no range.
    pub fn get_distribution(&self, range: Option<Range<usize>>) -> (choice: PieceChoice)
        requires
            self.has_range(range),
            can_choose(self.range_weights(range)),
        ensures
            choice.wf(),
            choice.weights() == self.range_weights(range),
            choice.start() == (match range {
                Some(range) => range.start,
                None => 0,
            }),
            choice.start() + choice.weights().len() <= self.weights().len(),
    {
        let weights = self.choosable_weights(&range).unwrap();
        let offset: usize = match range {
            Some(range) => range.start,
            None => 0,
        };
        let count: usize = self.distribution.len();
        assert(offset + weights@.len() <= count);
        PieceChoice { distribution: weighted_index(&weights).unwrap(), offset }
    }
}

/// The number of pieces that are handed to the player at a time.
pub const PIECES_PER_FILL: usize = 3;

/// The places in the catalogue of the pieces that the player gets next. New
/// pieces are due when the level runs, that is when it has started and is
/// not stopped, and none of the last pieces is waiting to be put; then
/// `PIECES_PER_FILL` places are drawn from `choice`.
pub fn fill_piece_queue(stopped: bool, started: bool, waiting: usize, choice: &PieceChoice) -> (places:
    Vec<usize>)
    ensures
        places@.len() == (if !stopped && started && waiting == 0 {
            PIECES_PER_FILL
        } else {
            0
        }),
        forall|k: int| 0 <= k < places@.len() ==> choice.can_draw(#[trigger] places@[k] as int),
{
    proof {
        use_type_invariant(choice);
    }
    let mut places: Vec<usize> = Vec::new();
    if !stopped && started && waiting == 0 {
        let mut rng = rand::thread_rng();
        let mut i: usize = 0;
        while i < PIECES_PER_FILL
            invariant
                i <= PIECES_PER_FILL,
                choice.wf(),
                places@.len() == i,
                forall|k: int|
                    0 <= k < places@.len() ==> choice.can_draw(#[trigger] places@[k] as int),
            decreases PIECES_PER_FILL - i,
        {
            let drawn: usize = sample_index(&choice.distribution, &mut rng);
            places.push(choice.offset + drawn);
            i += 1;
        }
    }
    places
}

/// The sum of a part of the weights that starts at the first is at most the
/// sum of all of them.
proof fn lemma_total_weight_grows(part: Seq<usize>, all: Seq<usize>)
    requires
        part.len() <= all.len(),
        part =~= all.take(part.len() as int),
    ensures
        total_weight(part) <= total_weight(all),
    decreases all.len(),
{
    if part.len() < all.len() {
        lemma_total_weight_grows(part, all.drop_last());
    } else {
        assert(part =~= all);
    }
}

} // verus!
