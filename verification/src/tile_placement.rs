//! The steps of a game turn that act on the board: dropping a piece, and
//! working off the clears that placements have queued.
use vstd::prelude::*;
use crate::board::Board;
use crate::board::BoardClear;
use crate::board::BoardClearQueue;
use crate::card::MAX_CARDS;
use crate::coords::TilePos;
use crate::grid::Grid;

verus! {

/// The number of cards that one clear earns, as long as the player may take
/// more.
pub const CARDS_PER_CLEAR: usize = 2;

/// The number of cards that a player who holds `card_count` cards may still
/// take.
pub open spec fn card_allowance(card_count: int) -> int {
    if card_count >= MAX_CARDS {
        0
    } else {
        MAX_CARDS - card_count
    }
}

/// The cards that `clears` earn a player who may take `allowance` more: one
/// entry per card, which is the clear that earned it. Every clear earns
/// `CARDS_PER_CLEAR` cards, oldest clear first, until the allowance is used
/// up.
pub open spec fn earned_cards(clears: Seq<BoardClear>, allowance: int) -> Seq<BoardClear> {
    let all = CARDS_PER_CLEAR * clears.len();
    let count = if allowance < all {
        allowance
    } else {
        all
    };
    Seq::new(count as nat, |i: int| clears[i / (CARDS_PER_CLEAR as int)])
}

/// The indices of the cells that `clears` reset on the board `g`, clear after
/// clear.
pub open spec fn cleared_targets(g: Grid, clears: Seq<BoardClear>) -> Seq<usize>
    decreases clears.len(),
{
    if clears.len() == 0 {
        Seq::empty()
    } else {
        cleared_targets(g, clears.drop_last()) + g.clear_targets(clears.last())
    }
}

/// What working off the queue of clears brought about.
#[derive(Debug)]
pub struct ClearOutcome {
    /// One entry for each card that the player earns: the clear that earned
    /// it.
    pub cards: Vec<BoardClear>,
    /// The indices of the cells that were reset, clear after clear.
    pub cleared_indices: Vec<usize>,
}

/// Puts `piece` on the board at `coords`, if there is such a position and
/// the piece can go there, and queues the clears that this brings about.
/// Says whether the piece was put.
pub fn drop_piece(
    board: &mut Board,
    queue: &mut BoardClearQueue,
    coords: Option<TilePos>,
    piece: &[usize],
) -> (placed: bool)
    requires
        old(board)@.tiled(),
    ensures
        final(board).wf(),
        placed <==> (coords matches Some(at) && old(board)@.place_error(
            at.x as int,
            at.y as int,
            piece@,
        ) is None),
        !placed ==> final(board)@ == old(board)@ && final(queue)@ == old(queue)@,
        placed ==> final(board)@ == old(board)@.place_cells(
            coords->0.x as int,
            coords->0.y as int,
            piece@,
        ) && final(queue)@ == old(queue)@ + old(board)@.place_events(
            coords->0.x as int,
            coords->0.y as int,
            piece@,
        ),
{
    proof {
        use_type_invariant(&*board);
    }
    match coords {
        None => false,
        Some(at) => match board.place_piece(at.x as usize, at.y as usize, piece) {
            Err(_) => false,
            Ok(cleared) => {
                queue.extend(&cleared);
                true
            },
        },
    }
}

/// Works off the queue of clears for a player who holds `card_count` cards:
/// every clear earns the player cards, as far as the player may take more,
/// and resets the cells of its row, column or section.
pub fn process_clear_queue(queue: &mut BoardClearQueue, board: &mut Board, card_count: usize) -> (outcome:
    ClearOutcome)
    requires
        old(board)@.tiled(),
        forall|k: int| 0 <= k < old(queue)@.len() ==> old(board)@.has_line(#[trigger] old(queue)@[k]),
    ensures
        final(queue)@ == Seq::<BoardClear>::empty(),
        final(board).wf(),
        outcome.cards@ == earned_cards(old(queue)@, card_allowance(card_count as int)),
        outcome.cleared_indices@ == cleared_targets(old(board)@, old(queue)@),
        final(board)@ == old(board)@.clear_indices(outcome.cleared_indices@),
        old(queue)@.len() == 0 ==> outcome.cards@.len() == 0 && outcome.cleared_indices@.len() == 0
            && final(board)@ == old(board)@,
{
    let ghost clears = queue@;
    let ghost start = board@;
    let ghost allowance = card_allowance(card_count as int);
    let mut cards: Vec<BoardClear> = Vec::new();
    let mut cleared_indices: Vec<usize> = Vec::new();
    let mut allowed: usize = if card_count >= MAX_CARDS {
        0
    } else {
        MAX_CARDS - card_count
    };
    let ghost mut done: int = 0;
    proof {
        use_type_invariant(&*board);
        assert(clears.skip(0) =~= clears);
        assert(start.clear_indices(cleared_indices@).cells =~= start.cells);
    }
    loop
        invariant
            board.wf(),
            board@.tiled(),
            start.wf(),
            start.tiled(),
            forall|k: int| 0 <= k < clears.len() ==> start.has_line(#[trigger] clears[k]),
            0 <= done <= clears.len(),
            queue@ == clears.skip(done),
            allowance == card_allowance(card_count as int),
            cards@ == earned_cards(clears.take(done), allowance),
            allowed == allowance - cards@.len(),
            cleared_indices@ == cleared_targets(start, clears.take(done)),
            board@ == start.clear_indices(cleared_indices@),
        ensures
            done == clears.len(),
            queue@ == Seq::<BoardClear>::empty(),
            board.wf(),
            cards@ == earned_cards(clears.take(done), allowance),
            cleared_indices@ == cleared_targets(start, clears.take(done)),
            board@ == start.clear_indices(cleared_indices@),
        decreases clears.len() - done,
    {
        let clear = match queue.queue.pop_front() {
            None => {
                break ;
            },
            Some(clear) => clear,
        };
        let ghost cards_before = cards@;
        let mut n: usize = 0;
        while n < CARDS_PER_CLEAR
            invariant
                n <= CARDS_PER_CLEAR,
                cards_before.len() + allowed + (cards@.len() - cards_before.len()) == allowance,
                cards@.len() - cards_before.len() <= n,
                cards@.len() - cards_before.len() < n ==> allowed == 0,
                cards@ == cards_before + Seq::new(
                    (cards@.len() - cards_before.len()) as nat,
                    |i: int| clear,
                ),
            decreases CARDS_PER_CLEAR - n,
        {
            if allowed > 0 {
                cards.push(clear);
                allowed -= 1;
            }
            n += 1;
        }
        let ghost targets = start.clear_targets(clear);
        let ghost indices_before = cleared_indices@;
        let mut indices: Vec<usize> = match clear {
            BoardClear::Row(row) => board.clear_row(row),
            BoardClear::Column(col) => board.clear_column(col),
            BoardClear::Section { section_index, .. } => board.clear_section(section_index),
        };
        cleared_indices.append(&mut indices);
        proof {
            let more = clears.take(done + 1);
            assert(more.drop_last() =~= clears.take(done));
            assert(board@.cells =~= start.clear_indices(cleared_indices@).cells) by {
                assert forall|i: int| 0 <= i < start.cells.len() implies #[trigger] board@.cells[i]
                    == start.clear_indices(cleared_indices@).cells[i] by {
                    lemma_contains_index(indices_before, targets, i as usize);
                }
            }
            done = done + 1;
        }
    }
    proof {
        assert(clears.take(done) =~= clears);
    }
    ClearOutcome { cards, cleared_indices }
}

/// The state of a game turn: the board, and the clears that wait to be
/// worked off. Whoever runs the game owns one and hands it to the steps of
/// the turn.
#[derive(Debug)]
pub struct Simulation {
    /// The board.
    pub board: Board,
    /// The clears that placements have brought about, oldest first.
    pub clear_queue: BoardClearQueue,
}

impl Simulation {
    /// A game on `board`, with no clear waiting.
    pub fn new(board: Board) -> (simulation: Simulation)
        ensures
            simulation.board == board,
            simulation.clear_queue@ == Seq::<BoardClear>::empty(),
    {
        Simulation { board, clear_queue: BoardClearQueue::default() }
    }

    /// Puts `piece` on the board at `coords` and queues the clears, as
    /// `drop_piece` does.
    pub fn drop_piece(&mut self, coords: Option<TilePos>, piece: &[usize]) -> (placed: bool)
        requires
            old(self).board@.tiled(),
        ensures
            placed <==> (coords matches Some(at) && old(self).board@.place_error(
                at.x as int,
                at.y as int,
                piece@,
            ) is None),
            !placed ==> final(self).board@ == old(self).board@ && final(self).clear_queue@ == old(
                self,
            ).clear_queue@,
            placed ==> final(self).board@ == old(self).board@.place_cells(
                coords->0.x as int,
                coords->0.y as int,
                piece@,
            ) && final(self).clear_queue@ == old(self).clear_queue@ + old(self).board@.place_events(
                coords->0.x as int,
                coords->0.y as int,
                piece@,
            ),
    {
        drop_piece(&mut self.board, &mut self.clear_queue, coords, piece)
    }

    /// Works off the queue of clears for a player who holds `card_count`
    /// cards, as `process_clear_queue` does.
    pub fn process_clear_queue(&mut self, card_count: usize) -> (outcome: ClearOutcome)
        requires
            old(self).board@.tiled(),
            forall|k: int|
                0 <= k < old(self).clear_queue@.len() ==> old(self).board@.has_line(
                    #[trigger] old(self).clear_queue@[k],
                ),
        ensures
            final(self).clear_queue@ == Seq::<BoardClear>::empty(),
            outcome.cards@ == earned_cards(old(self).clear_queue@, card_allowance(card_count as int)),
            outcome.cleared_indices@ == cleared_targets(old(self).board@, old(self).clear_queue@),
            final(self).board@ == old(self).board@.clear_indices(outcome.cleared_indices@),
            old(self).clear_queue@.len() == 0 ==> outcome.cards@.len() == 0
                && outcome.cleared_indices@.len() == 0 && final(self).board@ == old(self).board@,
    {
        process_clear_queue(&mut self.clear_queue, &mut self.board, card_count)
    }
}

/// An element of two sequences put together is an element of one of them.
proof fn lemma_contains_index(a: Seq<usize>, b: Seq<usize>, x: usize)
    ensures
        (a + b).contains(x) <==> a.contains(x) || b.contains(x),
{
    if a.contains(x) {
        let i = choose|i: int| 0 <= i < a.len() && a[i] == x;
        assert((a + b)[i] == x);
    }
    if b.contains(x) {
        let i = choose|i: int| 0 <= i < b.len() && b[i] == x;
        assert((a + b)[a.len() + i] == x);
    }
    if (a + b).contains(x) {
        let i = choose|i: int| 0 <= i < (a + b).len() && (a + b)[i] == x;
        if i < a.len() {
            assert(a[i] == x);
        } else {
            assert(b[i - a.len()] == x);
        }
    }
}

} // verus!
