//! What holds of the board's operations, for every board.
use vstd::prelude::*;
use crate::board::BoardClear;
use crate::board::PlaceError;
use crate::grid::Grid;
use crate::grid::lemma_block;
use crate::grid::lemma_index;
use crate::grid::lemma_place_step;
use crate::grid::lemma_position;
use crate::grid::lemma_section_cells;
use crate::grid::lemma_section_in_grid;
use crate::grid::lemma_section_index;
use crate::grid::lemma_section_origin;
use crate::grid::lemma_target;

verus! {

/// The cells of a section are the same whether the section is looked up by
/// its number or by any position that lies in it, and such a position gives
/// the number back.
pub proof fn lemma_section_round_trip(g: Grid, index: int, x: int, y: int)
    requires
        g.wf(),
        g.tiled(),
        g.is_section(index),
        g.same_section(x, y, g.section_origin(index).0, g.section_origin(index).1),
    ensures
        g.in_grid(x, y),
        g.section_index(x, y) == index,
        g.section_indices(g.section_origin(index).0, g.section_origin(index).1)
            == g.section_indices(x, y),
{
    let o = g.section_origin(index);
    lemma_section_origin(g, index);
    lemma_section_in_grid(g, x, y, o.0, o.1);
}

/// Every position of a section has the number of that section, and the
/// positions with that number are the positions of the section.
pub proof fn lemma_section_members(g: Grid, index: int, c: int, r: int)
    requires
        g.wf(),
        g.tiled(),
        g.is_section(index),
        g.in_grid(c, r),
    ensures
        g.same_section(c, r, g.section_origin(index).0, g.section_origin(index).1)
            <==> g.section_index(c, r) == index,
{
    let s = g.section_size as int;
    let o = g.section_origin(index);
    lemma_section_origin(g, index);
    lemma_block(g.width as int, s, c);
    lemma_block(g.height as int, s, r);
    if g.same_section(c, r, o.0, o.1) {
        lemma_section_in_grid(g, c, r, o.0, o.1);
    }
    if g.section_index(c, r) == index {
        lemma_section_index(g, c, r);
    }
}

/// Occupying the cell at index `t` changes that cell and no other.
pub proof fn lemma_occupy_cell(g: Grid, t: int, c: int, r: int)
    requires
        g.wf(),
        0 <= t < g.cells.len(),
        g.in_grid(c, r),
    ensures
        g.occupy(t).cell(c, r) == (g.cell(c, r) || (c == t % (g.width as int) && r == t / (
        g.width as int))),
{
    lemma_index(g, c, r);
    lemma_position(g, t);
}

/// An element of two sequences put together is an element of one of them.
proof fn lemma_contains_add(a: Seq<BoardClear>, b: Seq<BoardClear>, x: BoardClear)
    ensures
        (a + b).contains(x) <==> a.contains(x) || b.contains(x),
{
    if a.contains(x) {
        let i = choose|i: int| 0 <= i < a.len() && a[i] == x;
        assert((a + b)[i] == x);
    }
    if b.contains(x) {
        let i = choose|i: int| 0 <= i < b.len() && b[i] == x;
        assert((a + b)[a.len() + i] == x);
    }
    if (a + b).contains(x) {
        let i = choose|i: int| 0 <= i < (a + b).len() && (a + b)[i] == x;
        if i < a.len() {
            assert(a[i] == x);
        } else {
            assert(b[i - a.len()] == x);
        }
    }
}

/// Two sequences without repetition that share no element give a sequence
/// without repetition when put together.
proof fn lemma_distinct_add(a: Seq<BoardClear>, b: Seq<BoardClear>)
    requires
        a.no_duplicates(),
        b.no_duplicates(),
        forall|x: BoardClear| !(a.contains(x) && b.contains(x)),
    ensures
        (a + b).no_duplicates(),
{
    assert forall|i: int, j: int| 0 <= i < (a + b).len() && 0 <= j < (a + b).len() && i != j implies (
    a + b)[i] != (a + b)[j] by {
        if i < a.len() && j >= a.len() {
            assert(a.contains(a[i]));
        }
        if j < a.len() && i >= a.len() {
            assert(a.contains(a[j]));
        }
    }
}

/// The measures of a well-formed board are machine words.
pub proof fn lemma_measures(g: Grid)
    requires
        g.wf(),
    ensures
        g.width <= usize::MAX,
        g.height <= usize::MAX,
        g.sections_across() * g.sections_down() <= usize::MAX,
{
    let w = g.width as int;
    let h = g.height as int;
    let s = g.section_size as int;
    assert(w <= w * h && h <= w * h) by (nonlinear_arith)
        requires
            w > 0,
            h > 0,
    ;
    assert(0 <= w / s <= w && 0 <= h / s <= h) by (nonlinear_arith)
        requires
            w > 0,
            h > 0,
            s > 0,
    ;
    assert((w / s) * (h / s) <= w * h) by (nonlinear_arith)
        requires
            0 <= w / s <= w,
            0 <= h / s <= h,
    ;
}

/// What is full stays full when cells are occupied.
pub proof fn lemma_full_stays_full(before: Grid, after: Grid, clear: BoardClear)
    requires
        before.wf(),
        before.tiled(),
        before.grows_to(after),
        before.has_line(clear),
        before.line_full(clear),
    ensures
        after.line_full(clear),
{
    match clear {
        BoardClear::Row(row) => {
            assert forall|c: int| 0 <= c < after.width implies #[trigger] after.cell(
                c,
                row as int,
            ) by {
                lemma_index(before, c, row as int);
                assert(before.cell(c, row as int));
            }
        },
        BoardClear::Column(col) => {
            assert forall|r: int| 0 <= r < after.height implies #[trigger] after.cell(
                col as int,
                r,
            ) by {
                lemma_index(before, col as int, r);
                assert(before.cell(col as int, r));
            }
        },
        BoardClear::Section { section_index, .. } => {
            let o = before.section_origin(section_index as int);
            lemma_section_origin(before, section_index as int);
            assert forall|c: int, r: int| after.same_section(c, r, o.0, o.1) implies #[trigger] after.cell(
            c, r) by {
                lemma_section_in_grid(before, c, r, o.0, o.1);
                lemma_index(before, c, r);
                assert(before.cell(c, r));
            }
        },
    }
}

/// Occupying one cell fills up exactly the rows, columns and sections that
/// the clears reported for that cell name: a clear is reported if and only if
/// its row, column or section was not full before and is full afterwards.
pub proof fn lemma_cell_events(g: Grid, t: int, clear: BoardClear)
    requires
        g.wf(),
        g.tiled(),
        0 <= t < g.cells.len(),
    ensures
        g.cell_events(t).contains(clear) <==> g.newly_full(g.occupy(t), clear),
{
    let w = g.width as int;
    let ct = t % w;
    let rt = t / w;
    let after = g.occupy(t);
    lemma_position(g, t);
    lemma_measures(g);
    lemma_section_index(g, ct, rt);
    let column: Seq<BoardClear> = if !g.column_full(ct) && after.column_full(ct) {
        seq![BoardClear::Column(ct as usize)]
    } else {
        seq![]
    };
    let line_across: Seq<BoardClear> = if !g.row_full(rt) && after.row_full(rt) {
        seq![BoardClear::Row(rt as usize)]
    } else {
        seq![]
    };
    let st = g.section_index(ct, rt);
    let section: Seq<BoardClear> = if !g.section_full(ct, rt) && after.section_full(ct, rt) {
        seq![BoardClear::Section { section_index: st as usize, used_special: false }]
    } else {
        seq![]
    };
    lemma_contains_add(column + line_across, section, clear);
    lemma_contains_add(column, line_across, clear);
    assert(column.contains(clear) <==> clear == BoardClear::Column(ct as usize)
        && !g.column_full(ct) && after.column_full(ct)) by {
        if column.len() > 0 {
            assert(column[0] == BoardClear::Column(ct as usize));
        }
    }
    assert(line_across.contains(clear) <==> clear == BoardClear::Row(rt as usize) && !g.row_full(rt)
        && after.row_full(rt)) by {
        if line_across.len() > 0 {
            assert(line_across[0] == BoardClear::Row(rt as usize));
        }
    }
    assert(section.contains(clear) <==> clear == (BoardClear::Section {
        section_index: st as usize,
        used_special: false,
    }) && !g.section_full(ct, rt) && after.section_full(ct, rt)) by {
        if section.len() > 0 {
            assert(section[0] == BoardClear::Section {
                section_index: st as usize,
                used_special: false,
            });
        }
    }
    match clear {
        BoardClear::Row(row) => {
            if row < g.height && row != rt && after.row_full(row as int) {
                assert forall|c: int| 0 <= c < g.width implies #[trigger] g.cell(c, row as int) by {
                    lemma_occupy_cell(g, t, c, row as int);
                }
            }
        },
        BoardClear::Column(col) => {
            if col < g.width && col != ct && after.column_full(col as int) {
                assert forall|r: int| 0 <= r < g.height implies #[trigger] g.cell(col as int, r) by {
                    lemma_occupy_cell(g, t, col as int, r);
                }
            }
        },
        BoardClear::Section { section_index, .. } => {
            if g.is_section(section_index as int) {
                let o = g.section_origin(section_index as int);
                lemma_section_origin(g, section_index as int);
                lemma_section_members(g, section_index as int, ct, rt);
                if section_index == st {
                    assert forall|c: int, r: int|
                        g.same_section(c, r, o.0, o.1) == g.same_section(c, r, ct, rt) by {
                        lemma_section_in_grid(g, ct, rt, o.0, o.1);
                    }
                } else if after.section_full(o.0, o.1) {
                    assert forall|c: int, r: int| g.same_section(c, r, o.0, o.1) implies #[trigger] g.cell(
                    c, r) by {
                        lemma_section_in_grid(g, c, r, o.0, o.1);
                        lemma_section_members(g, section_index as int, c, r);
                        lemma_occupy_cell(g, t, c, r);
                    }
                }
            }
        },
    }
}

/// No clear is reported twice for one cell.
pub proof fn lemma_cell_events_distinct(g: Grid, t: int)
    ensures
        g.cell_events(t).no_duplicates(),
{
}

/// Putting a piece fills up exactly the rows, columns and sections that the
/// reported clears name, and reports each of them once: a clear is reported
/// if and only if its row, column or section was not full before the piece
/// was put and is full afterwards.
pub proof fn lemma_place_events(g: Grid, x: int, y: int, piece: Seq<usize>)
    requires
        g.wf(),
        g.tiled(),
        0 <= x,
        0 <= y,
        !g.any_out_of_bounds(x, y, piece),
    ensures
        g.place_cells(x, y, piece).wf(),
        g.grows_to(g.place_cells(x, y, piece)),
        forall|clear: BoardClear| #[trigger]
            g.place_events(x, y, piece).contains(clear) <==> g.newly_full(
                g.place_cells(x, y, piece),
                clear,
            ),
        g.place_events(x, y, piece).no_duplicates(),
    decreases piece.len(),
{
    let after = g.place_cells(x, y, piece);
    let events = g.place_events(x, y, piece);
    if piece.len() == 0 {
        assert(after.cells =~= g.cells);
    } else {
        let init = piece.drop_last();
        let k = piece.len() - 1;
        let t = g.target(x, y, piece.last() as int);
        assert forall|j: int| 0 <= j < init.len() implies !g.out_of_bounds(
            x,
            y,
            #[trigger] init[j] as int,
        ) by {
            assert(init[j] == piece[j]);
        }
        lemma_target(g, x, y, piece[k] as int);
        lemma_place_events(g, x, y, init);
        let mid = g.place_cells(x, y, init);
        let first = g.place_events(x, y, init);
        let last = mid.cell_events(t);
        assert(piece.take(k + 1) =~= piece);
        lemma_place_step(g, x, y, piece, k);
        lemma_cell_events_distinct(mid, t);
        assert forall|clear: BoardClear| #[trigger]
            events.contains(clear) <==> g.newly_full(after, clear) by {
            lemma_contains_add(first, last, clear);
            lemma_cell_events(mid, t, clear);
            if g.has_line(clear) {
                if g.line_full(clear) {
                    lemma_full_stays_full(g, mid, clear);
                }
                if mid.line_full(clear) {
                    lemma_full_stays_full(mid, after, clear);
                }
            }
        }
        assert forall|clear: BoardClear| !(first.contains(clear) && last.contains(clear)) by {
            lemma_cell_events(mid, t, clear);
        }
        lemma_distinct_add(first, last);
    }
}

/// The cells that a clear resets are the cells of the row, column or section
/// that it names, and they are cells of the board.
pub proof fn lemma_clear_targets(g: Grid, clear: BoardClear, c: int, r: int)
    requires
        g.wf(),
        g.tiled(),
        g.has_line(clear),
        g.in_grid(c, r),
    ensures
        g.clear_targets(clear).contains(g.index(c, r) as usize) <==> g.on_line(clear, c, r),
        forall|k: int|
            0 <= k < g.clear_targets(clear).len() ==> #[trigger] g.clear_targets(clear)[k]
                < g.cells.len(),
{
    let i = g.index(c, r);
    let targets = g.clear_targets(clear);
    lemma_index(g, c, r);
    lemma_measures(g);
    match clear {
        BoardClear::Row(row) => {
            assert forall|k: int| 0 <= k < targets.len() implies #[trigger] targets[k]
                < g.cells.len() by {
                lemma_index(g, k, row as int);
            }
            if r == row {
                assert(targets[c] == i as usize);
            }
            if targets.contains(i as usize) {
                let k = choose|k: int| 0 <= k < targets.len() && targets[k] == i as usize;
                lemma_index(g, k, row as int);
            }
        },
        BoardClear::Column(col) => {
            assert forall|k: int| 0 <= k < targets.len() implies #[trigger] targets[k]
                < g.cells.len() by {
                lemma_index(g, col as int, k);
            }
            if c == col {
                assert(targets[r] == i as usize);
            }
            if targets.contains(i as usize) {
                let k = choose|k: int| 0 <= k < targets.len() && targets[k] == i as usize;
                lemma_index(g, col as int, k);
            }
        },
        BoardClear::Section { section_index, .. } => {
            let o = g.section_origin(section_index as int);
            lemma_section_origin(g, section_index as int);
            lemma_section_cells(g, o.0, o.1);
            lemma_section_members(g, section_index as int, c, r);
            assert forall|k: int| 0 <= k < targets.len() implies #[trigger] targets[k]
                < g.cells.len() by {
                assert(0 <= g.section_cell(o.0, o.1, k) < g.width * g.height);
            }
            if g.same_section(c, r, o.0, o.1) {
                assert(targets[g.section_offset(c, r)] == i as usize);
            }
            if targets.contains(i as usize) {
                let k = choose|k: int| 0 <= k < targets.len() && targets[k] == i as usize;
                assert(0 <= g.section_cell(o.0, o.1, k) < g.width * g.height);
            }
        },
    }
}

/// Clearing a row, a column or a section resets exactly its cells: afterwards
/// a cell is occupied if and only if it was occupied before and does not lie
/// in what was cleared.
pub proof fn lemma_clear_line(g: Grid, clear: BoardClear, c: int, r: int)
    requires
        g.wf(),
        g.tiled(),
        g.has_line(clear),
        g.in_grid(c, r),
    ensures
        g.clear_indices(g.clear_targets(clear)).wf(),
        g.clear_indices(g.clear_targets(clear)).cell(c, r) == (g.cell(c, r) && !g.on_line(
            clear,
            c,
            r,
        )),
{
    lemma_clear_targets(g, clear, c, r);
    lemma_index(g, c, r);
}

/// Clearing the whole board leaves no cell occupied.
pub proof fn lemma_clear_all(g: Grid, i: int)
    requires
        g.wf(),
        0 <= i < g.cells.len(),
    ensures
        g.clear_all().wf(),
        !g.clear_all().cells[i],
{
}

/// A piece that has been put cannot be put again at the same position: its
/// cells are on the board, and they are taken.
pub proof fn lemma_placed_is_taken(g: Grid, x: int, y: int, piece: Seq<usize>)
    requires
        g.wf(),
        0 <= x,
        0 <= y,
        piece.len() > 0,
        g.place_error(x, y, piece) is None,
    ensures
        g.place_cells(x, y, piece).place_error(x, y, piece) == Some(PlaceError::Taken),
{
    let after = g.place_cells(x, y, piece);
    assert forall|k: int| 0 <= k < piece.len() implies !after.out_of_bounds(
        x,
        y,
        #[trigger] piece[k] as int,
    ) by {
        assert(!g.out_of_bounds(x, y, piece[k] as int));
    }
    lemma_target(g, x, y, piece[0] as int);
}

/// Clearing the same cells a second time changes nothing, and neither does
/// clearing cells of which none is occupied.
pub proof fn lemma_clear_again(g: Grid, indices: Seq<usize>)
    requires
        g.cells.len() <= usize::MAX,
    ensures
        g.clear_indices(indices).clear_indices(indices) == g.clear_indices(indices),
        (forall|k: int| 0 <= k < indices.len() && indices[k] < g.cells.len() ==> !g.cells[indices[k] as int])
            ==> g.clear_indices(indices) == g,
{
    assert(g.clear_indices(indices).clear_indices(indices).cells =~= g.clear_indices(
        indices,
    ).cells);
    if forall|k: int| 0 <= k < indices.len() && indices[k] < g.cells.len() ==> !g.cells[indices[k] as int] {
        assert forall|i: int| 0 <= i < g.cells.len() implies g.clear_indices(indices).cells[i]
            == g.cells[i] by {
            if indices.contains(i as usize) {
                let k = choose|k: int| 0 <= k < indices.len() && indices[k] == i as usize;
                assert(!g.cells[indices[k] as int]);
            }
        }
        assert(g.clear_indices(indices).cells =~= g.cells);
    }
}

} // verus!
