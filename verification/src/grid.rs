//! The mathematical model of a board: a row-major grid of cells, its rows,
//! columns and sections, and what a placement does to it.
use vstd::prelude::*;
use vstd::arithmetic::div_mod::lemma_fundamental_div_mod;
use vstd::arithmetic::div_mod::lemma_fundamental_div_mod_converse;
use crate::board::BoardClear;
use crate::board::PlaceError;

verus! {

/// A board as a mathematical value.
pub struct Grid {
    /// Number of columns.
    pub width: nat,
    /// Number of rows.
    pub height: nat,
    /// Side of a section, in cells.
    pub section_size: nat,
    /// Occupancy of the cells, row by row from the top left.
    pub cells: Seq<bool>,
}

impl Grid {
    /// The invariant of a board: no dimension is zero, the area of a section
    /// divides the area of the board, and there is one cell per position, with
    /// an index that fits in a machine word.
    pub open spec fn wf(self) -> bool {
        &&& self.width > 0
        &&& self.height > 0
        &&& self.section_size > 0
        &&& (self.width * self.height) % (self.section_size * self.section_size) == 0
        &&& self.cells.len() == self.width * self.height
        &&& self.cells.len() <= usize::MAX
    }

    /// Whether `after` has the measures of this board and every cell occupied
    /// that is occupied here.
    pub open spec fn grows_to(self, after: Grid) -> bool {
        &&& after.width == self.width
        &&& after.height == self.height
        &&& after.section_size == self.section_size
        &&& after.cells.len() == self.cells.len()
        &&& forall|i: int| 0 <= i < self.cells.len() && self.cells[i] ==> after.cells[i]
    }

    /// Whether the section size divides both dimensions, so that the sections
    /// are whole squares that cover the board without overlap.
    #[verifier::inline]
    pub open spec fn tiled(self) -> bool {
        self.width % self.section_size == 0 && self.height % self.section_size == 0
    }

    /// Whether `(col, row)` is a position of the board.
    #[verifier::inline]
    pub open spec fn in_grid(self, col: int, row: int) -> bool {
        0 <= col < self.width && 0 <= row < self.height
    }

    /// The index of the cell at `(col, row)`.
    #[verifier::inline]
    pub open spec fn index(self, col: int, row: int) -> int {
        row * self.width + col
    }

    /// Whether the cell at `(col, row)` is occupied.
    pub open spec fn cell(self, col: int, row: int) -> bool {
        self.cells[self.index(col, row)]
    }

    /// Whether every cell of row `row` is occupied.
    pub open spec fn row_full(self, row: int) -> bool {
        forall|c: int| 0 <= c < self.width ==> #[trigger] self.cell(c, row)
    }

    /// Whether every cell of column `col` is occupied.
    pub open spec fn column_full(self, col: int) -> bool {
        forall|r: int| 0 <= r < self.height ==> #[trigger] self.cell(col, r)
    }

    /// Whether `(c, r)` lies in the same section as `(col, row)`.
    pub open spec fn same_section(self, c: int, r: int, col: int, row: int) -> bool {
        let s = self.section_size as int;
        &&& (col / s) * s <= c < (col / s) * s + s
        &&& (row / s) * s <= r < (row / s) * s + s
    }

    /// Whether every cell of the section that holds `(col, row)` is occupied.
    pub open spec fn section_full(self, col: int, row: int) -> bool {
        forall|c: int, r: int|
            self.same_section(c, r, col, row) ==> #[trigger] self.cell(c, r)
    }

    /// Whether no cell of the section that holds `(col, row)` is occupied.
    pub open spec fn section_empty(self, col: int, row: int) -> bool {
        forall|c: int, r: int|
            self.same_section(c, r, col, row) ==> !#[trigger] self.cell(c, r)
    }

    /// Number of sections side by side.
    #[verifier::inline]
    pub open spec fn sections_across(self) -> int {
        self.width as int / self.section_size as int
    }

    /// Number of sections one below the other.
    #[verifier::inline]
    pub open spec fn sections_down(self) -> int {
        self.height as int / self.section_size as int
    }

    /// Whether `index` numbers a section of the board.
    #[verifier::inline]
    pub open spec fn is_section(self, index: int) -> bool {
        0 <= index < self.sections_across() * self.sections_down()
    }

    /// The number of the section that holds `(col, row)`: sections are counted
    /// row by row from the top left.
    #[verifier::inline]
    pub open spec fn section_index(self, col: int, row: int) -> int {
        self.sections_across() * (row / self.section_size as int) + col / self.section_size as int
    }

    /// The top left position of section `index`.
    #[verifier::inline]
    pub open spec fn section_origin(self, index: int) -> (int, int) {
        (
            (index % self.sections_across()) * self.section_size,
            (index / self.sections_across()) * self.section_size,
        )
    }

    /// The indices of the cells of column `col`, from the top.
    pub open spec fn column_indices(self, col: int) -> Seq<usize> {
        Seq::new(self.height, |r: int| self.index(col, r) as usize)
    }

    /// The indices of the cells of row `row`, from the left.
    pub open spec fn row_indices(self, row: int) -> Seq<usize> {
        Seq::new(self.width, |c: int| self.index(c, row) as usize)
    }

    /// The index of the `k`-th cell, in row-major order, of the section that
    /// holds `(col, row)`.
    pub open spec fn section_cell(self, col: int, row: int, k: int) -> int {
        let s = self.section_size as int;
        self.index((col / s) * s + k % s, (row / s) * s + k / s)
    }

    /// The place of `(col, row)` among the cells of its section, counted row
    /// by row.
    #[verifier::inline]
    pub open spec fn section_offset(self, col: int, row: int) -> int {
        let s = self.section_size as int;
        (row % s) * s + col % s
    }

    /// The indices of the cells of the section that holds `(col, row)`, row by
    /// row.
    pub open spec fn section_indices(self, col: int, row: int) -> Seq<usize> {
        let s = self.section_size as int;
        Seq::new(
            self.section_size * self.section_size,
            |k: int| (((row / s) * s + k / s) * self.width + (col / s) * s + k % s) as usize,
        )
    }

    /// The index at which the offset `f` of a piece lands when the piece is
    /// put at `(x, y)`.
    #[verifier::inline]
    pub open spec fn target(self, x: int, y: int, f: int) -> int {
        f + x + y * self.width
    }

    /// Whether the offset `f` of a piece put at `(x, y)` leaves the board:
    /// past its last cell, over its right edge, or below its last row.
    pub open spec fn out_of_bounds(self, x: int, y: int, f: int) -> bool {
        ||| self.target(x, y, f) >= self.width * self.height
        ||| f % (self.width as int) + x >= self.width
        ||| y >= self.height
    }

    /// Whether some offset of `piece` put at `(x, y)` leaves the board.
    pub open spec fn any_out_of_bounds(self, x: int, y: int, piece: Seq<usize>) -> bool {
        exists|k: int| 0 <= k < piece.len() && self.out_of_bounds(x, y, #[trigger] piece[k] as int)
    }

    /// Whether some offset of `piece` put at `(x, y)` lands on an occupied
    /// cell.
    pub open spec fn any_taken(self, x: int, y: int, piece: Seq<usize>) -> bool {
        exists|k: int|
            0 <= k < piece.len() && self.cells[self.target(x, y, #[trigger] piece[k] as int)]
    }

    /// Why `piece` cannot be put at `(x, y)`, if it cannot: leaving the board
    /// counts before landing on an occupied cell.
    pub open spec fn place_error(self, x: int, y: int, piece: Seq<usize>) -> Option<PlaceError> {
        if self.any_out_of_bounds(x, y, piece) {
            Some(PlaceError::OutOfBounds)
        } else if self.any_taken(x, y, piece) {
            Some(PlaceError::Taken)
        } else {
            None
        }
    }

    /// The board with the cell at index `i` occupied.
    pub open spec fn occupy(self, i: int) -> Grid {
        Grid { cells: self.cells.update(i, true), ..self }
    }

    /// Whether some offset of `piece` put at `(x, y)` lands on index `i`.
    pub open spec fn covers(self, x: int, y: int, piece: Seq<usize>, i: int) -> bool {
        exists|k: int| 0 <= k < piece.len() && self.target(x, y, #[trigger] piece[k] as int) == i
    }

    /// The board with every cell that `piece` covers at `(x, y)` occupied.
    pub open spec fn place_cells(self, x: int, y: int, piece: Seq<usize>) -> Grid {
        Grid {
            cells: Seq::new(
                self.cells.len(),
                |i: int| self.cells[i] || self.covers(x, y, piece, i),
            ),
            ..self
        }
    }

    /// The clears that occupying the cell at index `i` brings about: of its
    /// column, its row and its section, in this order, each one only if it
    /// was not full before and is full afterwards.
    pub open spec fn cell_events(self, i: int) -> Seq<BoardClear> {
        let col = i % (self.width as int);
        let row = i / (self.width as int);
        let after = self.occupy(i);
        let column = if !self.column_full(col) && after.column_full(col) {
            seq![BoardClear::Column(col as usize)]
        } else {
            seq![]
        };
        let line_across = if !self.row_full(row) && after.row_full(row) {
            seq![BoardClear::Row(row as usize)]
        } else {
            seq![]
        };
        let section = if !self.section_full(col, row) && after.section_full(col, row) {
            seq![
                BoardClear::Section {
                    section_index: self.section_index(col, row) as usize,
                    used_special: false,
                },
            ]
        } else {
            seq![]
        };
        column + line_across + section
    }

    /// The clears that putting `piece` at `(x, y)` brings about: the offsets
    /// are occupied one after the other in the order given, and each adds the
    /// clears that it completes on the board as the offsets before it left it.
    pub open spec fn place_events(self, x: int, y: int, piece: Seq<usize>) -> Seq<BoardClear>
        decreases piece.len(),
    {
        if piece.len() == 0 {
            seq![]
        } else {
            let init = piece.drop_last();
            self.place_events(x, y, init) + self.place_cells(x, y, init).cell_events(
                self.target(x, y, piece.last() as int),
            )
        }
    }

    /// The board with every cell whose index is in `indices` unoccupied, and
    /// every other cell as it was.
    pub open spec fn clear_indices(self, indices: Seq<usize>) -> Grid {
        Grid {
            cells: Seq::new(
                self.cells.len(),
                |i: int| self.cells[i] && !indices.contains(i as usize),
            ),
            ..self
        }
    }

    /// The indices of the cells of the row, column or section that `clear`
    /// names.
    pub open spec fn clear_targets(self, clear: BoardClear) -> Seq<usize> {
        match clear {
            BoardClear::Row(row) => self.row_indices(row as int),
            BoardClear::Column(col) => self.column_indices(col as int),
            BoardClear::Section { section_index, .. } => self.section_indices(
                self.section_origin(section_index as int).0,
                self.section_origin(section_index as int).1,
            ),
        }
    }

    /// Whether `clear` names a row, a column or a section of the board.
    pub open spec fn has_line(self, clear: BoardClear) -> bool {
        match clear {
            BoardClear::Row(row) => row < self.height,
            BoardClear::Column(col) => col < self.width,
            BoardClear::Section { section_index, .. } => self.is_section(section_index as int),
        }
    }

    /// Whether the position `(col, row)` lies in the row, column or section
    /// that `clear` names.
    pub open spec fn on_line(self, clear: BoardClear, col: int, row: int) -> bool {
        match clear {
            BoardClear::Row(r) => row == r,
            BoardClear::Column(c) => col == c,
            BoardClear::Section { section_index, .. } => self.section_index(col, row)
                == section_index,
        }
    }

    /// Whether every cell of the row, column or section that `clear` names is
    /// occupied.
    pub open spec fn line_full(self, clear: BoardClear) -> bool {
        match clear {
            BoardClear::Row(row) => self.row_full(row as int),
            BoardClear::Column(col) => self.column_full(col as int),
            BoardClear::Section { section_index, .. } => self.section_full(
                self.section_origin(section_index as int).0,
                self.section_origin(section_index as int).1,
            ),
        }
    }

    /// Whether `clear` names a row, column or section of this board that is
    /// not full here and is full on the board `after`, and does not claim a
    /// special effect.
    pub open spec fn newly_full(self, after: Grid, clear: BoardClear) -> bool {
        &&& self.has_line(clear)
        &&& !(clear matches BoardClear::Section { used_special: true, .. })
        &&& !self.line_full(clear)
        &&& after.line_full(clear)
    }

    /// The board with every cell unoccupied.
    pub open spec fn clear_all(self) -> Grid {
        Grid { cells: Seq::new(self.cells.len(), |i: int| false), ..self }
    }
}

/// A position of the grid has an index below the number of cells, and the
/// index gives the position back.
pub proof fn lemma_index(g: Grid, col: int, row: int)
    requires
        g.width > 0,
        g.in_grid(col, row),
    ensures
        0 <= g.index(col, row) < g.width * g.height,
        g.index(col, row) / (g.width as int) == row,
        g.index(col, row) % (g.width as int) == col,
{
    let w = g.width as int;
    let h = g.height as int;
    assert(0 <= row * w + col < w * h) by (nonlinear_arith)
        requires
            0 <= col < w,
            0 <= row < h,
    ;
    lemma_fundamental_div_mod_converse(row * w + col, w, row, col);
}

/// An index below the number of cells is the index of one position.
pub proof fn lemma_position(g: Grid, i: int)
    requires
        g.width > 0,
        0 <= i < g.width * g.height,
    ensures
        g.in_grid(i % (g.width as int), i / (g.width as int)),
        g.index(i % (g.width as int), i / (g.width as int)) == i,
{
    let w = g.width as int;
    let h = g.height as int;
    lemma_fundamental_div_mod(i, w);
    assert(0 <= i / w < h) by (nonlinear_arith)
        requires
            0 <= i < w * h,
            w > 0,
            i == w * (i / w) + i % w,
            0 <= i % w < w,
    ;
}

/// On a tiled board the section of a position lies within the board.
pub proof fn lemma_section_in_grid(g: Grid, c: int, r: int, col: int, row: int)
    requires
        g.section_size > 0,
        g.tiled(),
        g.in_grid(col, row),
        g.same_section(c, r, col, row),
    ensures
        g.in_grid(c, r),
        c / (g.section_size as int) == col / (g.section_size as int),
        r / (g.section_size as int) == row / (g.section_size as int),
{
    let s = g.section_size as int;
    lemma_block(g.width as int, s, col);
    lemma_block(g.height as int, s, row);
    lemma_fundamental_div_mod_converse(c, s, col / s, c - (col / s) * s);
    lemma_fundamental_div_mod_converse(r, s, row / s, r - (row / s) * s);
}

/// A coordinate below a multiple `n` of `s` lies in a block of `s`
/// coordinates that ends at or before `n`.
pub proof fn lemma_block(n: int, s: int, c: int)
    requires
        s > 0,
        n % s == 0,
        0 <= c < n,
    ensures
        0 <= (c / s) * s <= c < (c / s) * s + s <= n,
        0 <= c / s < n / s,
{
    lemma_fundamental_div_mod(c, s);
    lemma_fundamental_div_mod(n, s);
    assert(0 <= c / s < n / s && (c / s) * s + s <= n) by (nonlinear_arith)
        requires
            s > 0,
            0 <= c < n,
            n == s * (n / s),
            c == s * (c / s) + c % s,
            0 <= c % s < s,
    ;
}

/// On a tiled board every position lies in a section with a number, and the
/// origin of that section is the top left position of the position's block.
pub proof fn lemma_section_index(g: Grid, col: int, row: int)
    requires
        g.wf(),
        g.tiled(),
        g.in_grid(col, row),
    ensures
        g.is_section(g.section_index(col, row)),
        g.sections_across() * g.sections_down() <= g.width * g.height,
        g.section_origin(g.section_index(col, row)) == (
            (col / (g.section_size as int)) * g.section_size,
            (row / (g.section_size as int)) * g.section_size,
        ),
{
    let s = g.section_size as int;
    let w = g.width as int;
    let h = g.height as int;
    let a = w / s;
    let d = h / s;
    let cs = col / s;
    let rs = row / s;
    lemma_block(w, s, col);
    lemma_block(h, s, row);
    lemma_fundamental_div_mod(w, s);
    lemma_fundamental_div_mod(h, s);
    assert(0 <= a * rs + cs < a * d && a * d <= w * h && a * rs == rs * a) by (nonlinear_arith)
        requires
            0 <= cs < a,
            0 <= rs < d,
            s > 0,
            w == s * a,
            h == s * d,
    ;
    lemma_fundamental_div_mod_converse(a * rs + cs, a, rs, cs);
}

/// On a tiled board the origin of a section is a position of the board that
/// lies in that section, at the top left of its block.
pub proof fn lemma_section_origin(g: Grid, index: int)
    requires
        g.wf(),
        g.tiled(),
        g.is_section(index),
    ensures
        g.sections_across() > 0,
        g.in_grid(g.section_origin(index).0, g.section_origin(index).1),
        g.section_index(g.section_origin(index).0, g.section_origin(index).1) == index,
        (g.section_origin(index).0 / (g.section_size as int)) * g.section_size
            == g.section_origin(index).0,
        (g.section_origin(index).1 / (g.section_size as int)) * g.section_size
            == g.section_origin(index).1,
        g.section_origin(index).0 + g.section_size <= g.width,
        g.section_origin(index).1 + g.section_size <= g.height,
{
    let s = g.section_size as int;
    let w = g.width as int;
    let h = g.height as int;
    let a = w / s;
    let d = h / s;
    lemma_fundamental_div_mod(w, s);
    lemma_fundamental_div_mod(h, s);
    assert(a > 0 && d > 0) by (nonlinear_arith)
        requires
            w > 0,
            h > 0,
            s > 0,
            w == s * a,
            h == s * d,
    ;
    let sx = index % a;
    let sy = index / a;
    lemma_fundamental_div_mod(index, a);
    assert(0 <= sy < d) by (nonlinear_arith)
        requires
            0 <= index < a * d,
            a > 0,
            index == a * sy + sx,
            0 <= sx < a,
    ;
    assert(0 <= sx * s && sx * s + s <= w && 0 <= sy * s && sy * s + s <= h) by (nonlinear_arith)
        requires
            0 <= sx < a,
            0 <= sy < d,
            s > 0,
            w == s * a,
            h == s * d,
    ;
    lemma_fundamental_div_mod_converse(sx * s, s, sx, 0);
    lemma_fundamental_div_mod_converse(sy * s, s, sy, 0);
}

/// The `k`-th cell of a section lies in that section, and every position of
/// the section is the `k`-th cell for one `k`.
pub proof fn lemma_section_cells(g: Grid, col: int, row: int)
    requires
        g.wf(),
        g.tiled(),
        g.in_grid(col, row),
    ensures
        forall|k: int|
            0 <= k < g.section_size * g.section_size ==> 0 <= #[trigger] g.section_cell(
                col,
                row,
                k,
            ) < g.width * g.height,
        forall|k: int|
            0 <= k < g.section_size * g.section_size ==> g.same_section(
                #[trigger] g.section_cell(col, row, k) % (g.width as int),
                g.section_cell(col, row, k) / (g.width as int),
                col,
                row,
            ),
        forall|c: int, r: int| #[trigger]
            g.same_section(c, r, col, row) ==> 0 <= g.section_offset(c, r) < g.section_size
                * g.section_size && g.section_cell(col, row, g.section_offset(c, r)) == g.index(
                c,
                r,
            ),
{
    let s = g.section_size as int;
    let c0 = (col / s) * s;
    let r0 = (row / s) * s;
    assert forall|k: int| 0 <= k < s * s implies 0 <= #[trigger] g.section_cell(col, row, k)
        < g.width * g.height && g.same_section(
        g.section_cell(col, row, k) % (g.width as int),
        g.section_cell(col, row, k) / (g.width as int),
        col,
        row,
    ) by {
        lemma_fundamental_div_mod(k, s);
        assert(0 <= k / s < s) by (nonlinear_arith)
            requires
                0 <= k < s * s,
                s > 0,
                k == s * (k / s) + k % s,
                0 <= k % s < s,
        ;
        lemma_section_in_grid(g, c0 + k % s, r0 + k / s, col, row);
        lemma_index(g, c0 + k % s, r0 + k / s);
    }
    assert forall|c: int, r: int| #[trigger] g.same_section(c, r, col, row) implies 0
        <= g.section_offset(c, r) < s * s && g.section_cell(col, row, g.section_offset(c, r))
        == g.index(c, r) by {
        lemma_section_in_grid(g, c, r, col, row);
        lemma_fundamental_div_mod(c, s);
        lemma_fundamental_div_mod(r, s);
        assert(s * (c / s) == (c / s) * s && s * (r / s) == (r / s) * s) by (nonlinear_arith);
        let k = g.section_offset(c, r);
        assert(0 <= k < s * s) by (nonlinear_arith)
            requires
                k == (r % s) * s + c % s,
                0 <= r % s < s,
                0 <= c % s < s,
        ;
        lemma_fundamental_div_mod_converse(k, s, r % s, c % s);
    }
}

/// Where an offset of a piece lands, when it does not leave the board: in the
/// column of the offset moved right by `x`, in the row of the offset moved
/// down by `y`.
pub proof fn lemma_target(g: Grid, x: int, y: int, f: int)
    requires
        g.width > 0,
        0 <= x,
        0 <= y,
        0 <= f,
        !g.out_of_bounds(x, y, f),
    ensures
        0 <= g.target(x, y, f) < g.width * g.height,
        g.target(x, y, f) % (g.width as int) == (f + x) % (g.width as int),
        g.target(x, y, f) % (g.width as int) == f % (g.width as int) + x,
        g.target(x, y, f) / (g.width as int) == f / (g.width as int) + y,
        g.in_grid(g.target(x, y, f) % (g.width as int), g.target(x, y, f) / (g.width as int)),
        g.index(g.target(x, y, f) % (g.width as int), g.target(x, y, f) / (g.width as int))
            == g.target(x, y, f),
{
    let w = g.width as int;
    lemma_fundamental_div_mod(f, w);
    assert(f + x + y * w == (f / w + y) * w + (f % w + x) && f + x == (f / w) * w + (f % w + x)
        && 0 <= f / w && 0 <= y * w) by (nonlinear_arith)
        requires
            f == w * (f / w) + f % w,
            0 <= f % w,
            0 <= f,
            w > 0,
            0 <= y,
    ;
    lemma_fundamental_div_mod_converse(f + x + y * w, w, f / w + y, f % w + x);
    lemma_fundamental_div_mod_converse(f + x, w, f / w, f % w + x);
    lemma_position(g, g.target(x, y, f));
}

/// Putting a piece one offset at a time: the board after the first `k + 1`
/// offsets is the board after the first `k` with one more cell occupied.
pub proof fn lemma_place_step(g: Grid, x: int, y: int, piece: Seq<usize>, k: int)
    requires
        0 <= k < piece.len(),
        0 <= g.target(x, y, piece[k] as int) < g.cells.len(),
    ensures
        piece.take(k + 1).drop_last() == piece.take(k),
        piece.take(k + 1).last() == piece[k],
        g.place_cells(x, y, piece.take(k + 1)) == g.place_cells(x, y, piece.take(k)).occupy(
            g.target(x, y, piece[k] as int),
        ),
        g.place_events(x, y, piece.take(k + 1)) == g.place_events(x, y, piece.take(k))
            + g.place_cells(x, y, piece.take(k)).cell_events(g.target(x, y, piece[k] as int)),
{
    let t = g.target(x, y, piece[k] as int);
    let more = piece.take(k + 1);
    let less = piece.take(k);
    assert(more.drop_last() =~= less);
    let a = g.place_cells(x, y, more);
    let b = g.place_cells(x, y, less).occupy(t);
    assert forall|i: int| 0 <= i < g.cells.len() implies a.cells[i] == b.cells[i] by {
        if g.covers(x, y, more, i) {
            let j = choose|j: int| 0 <= j < more.len() && g.target(x, y, #[trigger] more[j] as int) == i;
            if j < k {
                assert(g.target(x, y, less[j] as int) == i);
            }
        }
        if g.covers(x, y, less, i) {
            let j = choose|j: int| 0 <= j < less.len() && g.target(x, y, #[trigger] less[j] as int) == i;
            assert(g.target(x, y, more[j] as int) == i);
        }
        if i == t {
            assert(g.target(x, y, more[k] as int) == i);
        }
    }
    assert(a.cells =~= b.cells);
}

/// Putting no offset at all leaves the board as it is.
pub proof fn lemma_place_none(g: Grid, x: int, y: int, piece: Seq<usize>)
    ensures
        g.place_cells(x, y, piece.take(0)) == g,
        g.place_events(x, y, piece.take(0)) == Seq::<BoardClear>::empty(),
{
    assert(g.place_cells(x, y, piece.take(0)).cells =~= g.cells);
}

} // verus!
