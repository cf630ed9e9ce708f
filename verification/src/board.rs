//! The board: occupancy of a grid, placement of pieces, detection of full
//! rows, columns and sections, and clearing them.
use vstd::prelude::*;
use core::ops::Range;
use std::collections::VecDeque;
use vstd::arithmetic::div_mod::lemma_fundamental_div_mod;
use vstd::arithmetic::div_mod::lemma_fundamental_div_mod_converse;
use crate::coords::TilePos;
use crate::grid::Grid;
use crate::grid::lemma_block;
use crate::grid::lemma_index;
use crate::grid::lemma_place_none;
use crate::grid::lemma_place_step;
use crate::grid::lemma_section_cells;
use crate::grid::lemma_section_index;
use crate::grid::lemma_section_origin;
use crate::grid::lemma_target;
use crate::laws::lemma_measures;
use crate::laws::lemma_place_events;
use crate::config::ConfigError;

verus! {

/// A row, a column or a section that a placement has filled up.
#[derive(Debug, Clone, Copy, PartialEq, Eq, Structural)]
pub enum BoardClear {
    /// The row with this number, counted from the top.
    Row(usize),
    /// The column with this number, counted from the left.
    Column(usize),
    /// The section with this number, counted row by row from the top left.
    Section {
        /// The number of the section.
        section_index: usize,
        /// Whether the clear was brought about by a special effect and not
        /// by a placement.
        used_special: bool,
    },
}

/// Why a piece cannot be put where it was asked to go.
#[derive(Debug, Clone, Copy, PartialEq, Eq, Structural)]
pub enum PlaceError {
    /// A cell that the piece would cover is occupied already.
    Taken,
    /// A cell of the piece would lie outside the board.
    OutOfBounds,
}

/// Columns and rows of the board of the game.
pub const BOARD_SIZE: usize = 9;

/// Side of a section of the board of the game.
pub const SECTION_SIZE: usize = 3;

/// A grid of cells, each occupied or not, cut into square sections.
#[derive(Debug)]
pub struct Board {
    width: usize,
    height: usize,
    section_size: usize,
    fields: Vec<bool>,
}

impl View for Board {
    type V = Grid;

    closed spec fn view(&self) -> Grid {
        Grid {
            width: self.width as nat,
            height: self.height as nat,
            section_size: self.section_size as nat,
            cells: self.fields@,
        }
    }
}

/// Whether sections of side `section_size` can cover a board of `width` by
/// `height` cells: no dimension is zero and the area of a section divides
/// the area of the board.
#[verifier::inline]
pub open spec fn valid_dimensions(width: int, height: int, section_size: int) -> bool {
    &&& width > 0
    &&& height > 0
    &&& section_size > 0
    &&& (width * height) % (section_size * section_size) == 0
}

impl Board {
    /// The invariant of a board, which the constructors establish and every
    /// method keeps.
    #[verifier::type_invariant]
    pub open spec fn wf(&self) -> bool {
        self@.wf()
    }

    /// A board of `width` by `height` cells, none of them occupied.
    pub fn new(width: usize, height: usize, section_size: usize) -> (res: Result<
        Board,
        ConfigError,
    >)
        requires
            width * height <= usize::MAX,
        ensures
            res is Ok <==> valid_dimensions(width as int, height as int, section_size as int),
            res matches Err(e) ==> e == ConfigError::InvalidDimensions,
            res matches Ok(b) ==> {
                &&& b.wf()
                &&& b@.width == width
                &&& b@.height == height
                &&& b@.section_size == section_size
                &&& forall|i: int| 0 <= i < b@.cells.len() ==> !b@.cells[i]
            },
    {
        let count: usize = width * height;
        let fields: Vec<bool> = vec![false; count];
        Board::with_fields(width, height, section_size, fields)
    }

    /// A board of `width` by `height` cells with the occupancy given in
    /// `fields`, row by row.
    pub fn with_fields(width: usize, height: usize, section_size: usize, fields: Vec<bool>) -> (res:
        Result<Board, ConfigError>)
        ensures
            res is Ok <==> valid_dimensions(width as int, height as int, section_size as int)
                && fields@.len() == width * height,
            res matches Err(e) ==> e == (if valid_dimensions(
                width as int,
                height as int,
                section_size as int,
            ) {
                ConfigError::InvalidFieldCount
            } else {
                ConfigError::InvalidDimensions
            }),
            res matches Ok(b) ==> {
                &&& b.wf()
                &&& b@.width == width
                &&& b@.height == height
                &&& b@.section_size == section_size
                &&& b@.cells == fields@
            },
    {
        if width == 0 || height == 0 || section_size == 0 {
            return Err(ConfigError::InvalidDimensions);
        }
        assert(width * height <= 0xffff_ffff_ffff_ffff * 0xffff_ffff_ffff_ffff && section_size
            * section_size <= 0xffff_ffff_ffff_ffff * 0xffff_ffff_ffff_ffff) by (nonlinear_arith)
            requires
                0 <= width <= 0xffff_ffff_ffff_ffff,
                0 <= height <= 0xffff_ffff_ffff_ffff,
                0 <= section_size <= 0xffff_ffff_ffff_ffff,
        ;
        assert(section_size * section_size > 0) by (nonlinear_arith)
            requires
                section_size > 0,
        ;
        let area: u128 = (width as u128) * (height as u128);
        let section_area: u128 = (section_size as u128) * (section_size as u128);
        if area % section_area != 0 {
            return Err(ConfigError::InvalidDimensions);
        }
        if fields.len() as u128 != area {
            return Err(ConfigError::InvalidFieldCount);
        }
        Ok(Board { width, height, section_size, fields })
    }

    /// Number of columns.
    pub fn width(&self) -> (w: usize)
        ensures
            w == self@.width,
    {
        self.width
    }

    /// Number of rows.
    pub fn height(&self) -> (h: usize)
        ensures
            h == self@.height,
    {
        self.height
    }

    /// Side of a section, in cells.
    pub fn section_size(&self) -> (s: usize)
        ensures
            s == self@.section_size,
    {
        self.section_size
    }

    /// Whether the section size divides both dimensions, so that the sections
    /// are whole squares that cover the board.
    pub fn is_tiled(&self) -> (tiled: bool)
        ensures
            tiled == self@.tiled(),
    {
        proof {
            use_type_invariant(&*self);
        }
        self.width % self.section_size == 0 && self.height % self.section_size == 0
    }

    /// The number of sections of the board.
    pub fn section_count(&self) -> (count: usize)
        ensures
            count == self@.sections_across() * self@.sections_down(),
    {
        proof {
            use_type_invariant(&*self);
            lemma_measures(self@);
        }
        (self.width / self.section_size) * (self.height / self.section_size)
    }

    /// Whether `clear` names a row, a column or a section of the board.
    pub fn has_line(&self, clear: &BoardClear) -> (has: bool)
        ensures
            has == self@.has_line(*clear),
    {
        proof {
            use_type_invariant(&*self);
        }
        match clear {
            BoardClear::Row(row) => *row < self.height,
            BoardClear::Column(col) => *col < self.width,
            BoardClear::Section { section_index, .. } => *section_index < self.section_count(),
        }
    }

    /// The occupancy of the cells, row by row from the top left.
    pub fn fields(&self) -> (fields: &[bool])
        ensures
            fields@ == self@.cells,
    {
        self.fields.as_slice()
    }

    /// Whether the cell at `index` is occupied.
    pub fn is_occupied(&self, index: usize) -> (b: bool)
        requires
            index < self@.cells.len(),
        ensures
            b == self@.cells[index as int],
    {
        self.fields[index]
    }

    /// Whether every cell of row `row` is occupied.
    pub fn row_done(&self, row: usize) -> (done: bool)
        requires
            row < self@.height,
        ensures
            done == self@.row_full(row as int),
    {
        proof {
            use_type_invariant(&*self);
        }
        let mut col: usize = 0;
        while col < self.width
            invariant
                self.wf(),
                row < self.height,
                col <= self.width,
                forall|c: int| 0 <= c < col ==> #[trigger] self@.cell(c, row as int),
            decreases self.width - col,
        {
            proof {
                lemma_index(self@, col as int, row as int);
            }
            if !self.fields[row * self.width + col] {
                assert(!self@.cell(col as int, row as int));
                return false;
            }
            col += 1;
        }
        true
    }

    /// Whether every cell of column `column` is occupied.
    pub fn column_done(&self, column: usize) -> (done: bool)
        requires
            column < self@.width,
        ensures
            done == self@.column_full(column as int),
    {
        proof {
            use_type_invariant(&*self);
        }
        let mut row: usize = 0;
        while row < self.height
            invariant
                self.wf(),
                column < self.width,
                row <= self.height,
                forall|r: int| 0 <= r < row ==> #[trigger] self@.cell(column as int, r),
            decreases self.height - row,
        {
            proof {
                lemma_index(self@, column as int, row as int);
            }
            if !self.fields[row * self.width + column] {
                assert(!self@.cell(column as int, row as int));
                return false;
            }
            row += 1;
        }
        true
    }

    /// Whether `piece` can be put with its origin at `(x, y)`: every cell of
    /// it must lie on the board, which is looked at first, and be unoccupied.
    pub fn can_place_piece(&self, x: usize, y: usize, piece: &[usize]) -> (res: Result<
        (),
        PlaceError,
    >)
        ensures
            res is Ok <==> self@.place_error(x as int, y as int, piece@) is None,
            res matches Err(e) ==> self@.place_error(x as int, y as int, piece@) == Some(e),
    {
        proof {
            use_type_invariant(&*self);
        }
        let mut res: Result<(), PlaceError> = Ok(());
        let mut k: usize = 0;
        while k < piece.len()
            invariant
                self.wf(),
                k <= piece@.len(),
                forall|j: int|
                    0 <= j < k ==> !self@.out_of_bounds(x as int, y as int, #[trigger] piece@[j] as int),
                res is Ok <==> forall|j: int|
                    0 <= j < k ==> !self@.cells[self@.target(
                        x as int,
                        y as int,
                        #[trigger] piece@[j] as int,
                    )],
                res matches Err(e) ==> e == PlaceError::Taken,
            decreases piece@.len() - k,
        {
            let field: usize = piece[k];
            if y >= self.height || x >= self.width - field % self.width {
                return Err(PlaceError::OutOfBounds);
            }
            proof {
                lemma_index(self@, x as int, y as int);
            }
            let origin: usize = y * self.width + x;
            if field >= self.fields.len() - origin {
                return Err(PlaceError::OutOfBounds);
            }
            if self.fields[field + origin] {
                res = Err(PlaceError::Taken);
            }
            k += 1;
        }
        res
    }

    /// The indices of the cells of column `col`, from the top.
    pub fn get_column(&self, col: usize) -> (indices: Vec<usize>)
        requires
            col < self@.width,
        ensures
            indices@ == self@.column_indices(col as int),
    {
        proof {
            use_type_invariant(&*self);
        }
        let mut indices: Vec<usize> = Vec::new();
        let mut row: usize = 0;
        while row < self.height
            invariant
                self.wf(),
                col < self.width,
                row <= self.height,
                indices@.len() == row,
                forall|r: int| 0 <= r < row ==> indices@[r] == self@.index(col as int, r),
            decreases self.height - row,
        {
            proof {
                lemma_index(self@, col as int, row as int);
            }
            indices.push(row * self.width + col);
            row += 1;
        }
        indices
    }

    /// The indices of the cells of row `row`, as a range.
    pub fn get_row_range(&self, row: usize) -> (range: Range<usize>)
        requires
            row < self@.height,
        ensures
            range.start == row * self@.width,
            range.end == row * self@.width + self@.width,
    {
        proof {
            use_type_invariant(&*self);
            lemma_index(self@, self.width as int - 1, row as int);
        }
        let from: usize = row * self.width;
        from..from + self.width
    }

    /// The number of the section that holds `(x, y)`, and the indices of its
    /// cells, row by row.
    pub fn get_section(&self, x: usize, y: usize) -> (section: (usize, Vec<usize>))
        requires
            self@.tiled(),
            x < self@.width,
            y < self@.height,
        ensures
            section.0 == self@.section_index(x as int, y as int),
            section.1@ == self@.section_indices(x as int, y as int),
    {
        proof {
            use_type_invariant(&*self);
        }
        let size: usize = self.section_size;
        let row: usize = y / size;
        let col: usize = x / size;
        proof {
            lemma_block(self.width as int, size as int, x as int);
            lemma_block(self.height as int, size as int, y as int);
            lemma_section_index(self@, x as int, y as int);
            lemma_section_cells(self@, x as int, y as int);
        }
        let top: usize = row * size;
        let left: usize = col * size;
        let mut indices: Vec<usize> = Vec::new();
        let mut dy: usize = 0;
        while dy < size
            invariant
                self.wf(),
                self@.tiled(),
                self@.in_grid(x as int, y as int),
                size == self.section_size,
                top == (y as int / size as int) * size,
                left == (x as int / size as int) * size,
                top + size <= self.height,
                left + size <= self.width,
                dy <= size,
                indices@.len() == dy * size,
                forall|k: int|
                    0 <= k < indices@.len() ==> indices@[k] == self@.section_cell(
                        x as int,
                        y as int,
                        k,
                    ),
            decreases size - dy,
        {
            let mut dx: usize = 0;
            while dx < size
                invariant
                    self.wf(),
                    self@.tiled(),
                    self@.in_grid(x as int, y as int),
                    size == self.section_size,
                    top == (y as int / size as int) * size,
                    left == (x as int / size as int) * size,
                    top + size <= self.height,
                    left + size <= self.width,
                    dy < size,
                    dx <= size,
                    indices@.len() == dy * size + dx,
                    forall|k: int|
                        0 <= k < indices@.len() ==> indices@[k] == self@.section_cell(
                            x as int,
                            y as int,
                            k,
                        ),
                decreases size - dx,
            {
                proof {
                    lemma_index(self@, left + dx, top + dy);
                    lemma_fundamental_div_mod_converse(
                        dy * size + dx,
                        size as int,
                        dy as int,
                        dx as int,
                    );
                }
                indices.push((top + dy) * self.width + left + dx);
                dx += 1;
            }
            assert((dy + 1) * size == dy * size + size) by (nonlinear_arith);
            dy += 1;
        }
        ((self.width / size) * row + col, indices)
    }

    /// The top left position of the section with number `index`. For a number
    /// past the last section the position is below the board.
    pub fn get_section_coords_from_section_index(&self, index: usize) -> (coords: (usize, usize))
        requires
            self@.sections_across() > 0,
            self@.section_origin(index as int).1 <= usize::MAX,
        ensures
            (coords.0 as int, coords.1 as int) == self@.section_origin(index as int),
            self@.tiled() && self@.is_section(index as int) ==> self@.in_grid(
                coords.0 as int,
                coords.1 as int,
            ) && self@.section_index(coords.0 as int, coords.1 as int) == index,
    {
        proof {
            use_type_invariant(&*self);
        }
        let across: usize = self.width / self.section_size;
        proof {
            if self@.tiled() && self@.is_section(index as int) {
                lemma_section_origin(self@, index as int);
            }
            let a = across as int;
            let s = self.section_size as int;
            let w = self.width as int;
            let sx = (index as int) % a;
            lemma_fundamental_div_mod(w, s);
            assert(0 <= sx * s <= w) by (nonlinear_arith)
                requires
                    0 <= sx < a,
                    a == w / s,
                    s > 0,
                    w == s * (w / s) + w % s,
                    0 <= w % s,
            ;
        }
        let x: usize = (index % across) * self.section_size;
        let y: usize = (index / across) * self.section_size;
        (x, y)
    }

    /// The indices of the cells of the section with number `index`, row by
    /// row.
    pub fn get_section_by_section_index(&self, index: usize) -> (indices: Vec<usize>)
        requires
            self@.tiled(),
            self@.is_section(index as int),
        ensures
            indices@ == self@.section_indices(
                self@.section_origin(index as int).0,
                self@.section_origin(index as int).1,
            ),
    {
        proof {
            use_type_invariant(&*self);
            lemma_section_origin(self@, index as int);
        }
        let coords = self.get_section_coords_from_section_index(index);
        self.get_section(coords.0, coords.1).1
    }

    /// Whether every cell of the section that holds `(x, y)` is `occupied`.
    fn section_all(&self, x: usize, y: usize, occupied: bool) -> (all: bool)
        requires
            self@.tiled(),
            x < self@.width,
            y < self@.height,
        ensures
            all == (forall|c: int, r: int|
                self@.same_section(c, r, x as int, y as int) ==> #[trigger] self@.cell(c, r)
                    == occupied),
    {
        proof {
            use_type_invariant(&*self);
        }
        let size: usize = self.section_size;
        proof {
            lemma_block(self.width as int, size as int, x as int);
            lemma_block(self.height as int, size as int, y as int);
        }
        let top: usize = (y / size) * size;
        let left: usize = (x / size) * size;
        let mut dy: usize = 0;
        while dy < size
            invariant
                self.wf(),
                size == self.section_size,
                top == (y as int / size as int) * size,
                left == (x as int / size as int) * size,
                top + size <= self.height,
                left + size <= self.width,
                dy <= size,
                forall|c: int, r: int|
                    left <= c < left + size && top <= r < top + dy ==> #[trigger] self@.cell(c, r)
                        == occupied,
            decreases size - dy,
        {
            let mut dx: usize = 0;
            while dx < size
                invariant
                    self.wf(),
                    size == self.section_size,
                    top == (y as int / size as int) * size,
                    left == (x as int / size as int) * size,
                    top + size <= self.height,
                    left + size <= self.width,
                    dy < size,
                    dx <= size,
                    forall|c: int, r: int|
                        left <= c < left + size && top <= r < top + dy ==> #[trigger] self@.cell(
                            c,
                            r,
                        ) == occupied,
                    forall|c: int|
                        left <= c < left + dx ==> #[trigger] self@.cell(c, top + dy) == occupied,
                decreases size - dx,
            {
                proof {
                    lemma_index(self@, left + dx, top + dy);
                }
                if self.fields[(top + dy) * self.width + left + dx] != occupied {
                    assert(self@.cell(left + dx, top + dy) != occupied);
                    return false;
                }
                dx += 1;
            }
            dy += 1;
        }
        true
    }

    /// The number of the section that holds `(x, y)`, and whether every cell
    /// of that section is occupied.
    pub fn section_done(&self, x: usize, y: usize) -> (done: (usize, bool))
        requires
            self@.tiled(),
            x < self@.width,
            y < self@.height,
        ensures
            done.0 == self@.section_index(x as int, y as int),
            done.1 == self@.section_full(x as int, y as int),
    {
        proof {
            use_type_invariant(&*self);
            lemma_block(self.width as int, self.section_size as int, x as int);
            lemma_block(self.height as int, self.section_size as int, y as int);
            lemma_section_index(self@, x as int, y as int);
        }
        let index: usize = (self.width / self.section_size) * (y / self.section_size) + x
            / self.section_size;
        (index, self.section_all(x, y, true))
    }

    /// Whether no cell of the section with number `section_index` is
    /// occupied.
    pub fn is_section_empty(&self, section_index: usize) -> (empty: bool)
        requires
            self@.tiled(),
            self@.is_section(section_index as int),
        ensures
            empty == self@.section_empty(
                self@.section_origin(section_index as int).0,
                self@.section_origin(section_index as int).1,
            ),
    {
        proof {
            use_type_invariant(&*self);
            lemma_section_origin(self@, section_index as int);
        }
        let coords = self.get_section_coords_from_section_index(section_index);
        self.section_all(coords.0, coords.1, false)
    }

    /// The index of the cell at `coords`.
    pub fn tile_coords_to_tile_index(&self, coords: TilePos) -> (index: usize)
        requires
            coords.y * self@.width + coords.x <= usize::MAX,
        ensures
            index == self@.index(coords.x as int, coords.y as int),
    {
        (coords.y as usize) * self.width + (coords.x as usize)
    }

    /// Puts `piece` with its origin at `(x, y)`, if `can_place_piece` allows
    /// it: occupies its cells one after the other and reports, in this order,
    /// each column, row and section that one of them fills up.
    pub fn place_piece(&mut self, x: usize, y: usize, piece: &[usize]) -> (res: Result<
        Vec<BoardClear>,
        PlaceError,
    >)
        requires
            old(self)@.tiled(),
        ensures
            final(self).wf(),
            res is Ok <==> old(self)@.place_error(x as int, y as int, piece@) is None,
            res matches Err(e) ==> old(self)@.place_error(x as int, y as int, piece@) == Some(e)
                && final(self)@ == old(self)@,
            res matches Ok(cleared) ==> final(self)@ == old(self)@.place_cells(
                x as int,
                y as int,
                piece@,
            ) && cleared@ == old(self)@.place_events(x as int, y as int, piece@),
            res matches Ok(cleared) ==> cleared@.no_duplicates() && forall|clear: BoardClear| #[trigger]
                cleared@.contains(clear) <==> old(self)@.newly_full(final(self)@, clear),
    {
        proof {
            use_type_invariant(&*self);
        }
        match self.can_place_piece(x, y, piece) {
            Err(e) => {
                return Err(e);
            },
            Ok(()) => {},
        }
        let ghost start = self@;
        let mut cleared: Vec<BoardClear> = Vec::new();
        let mut k: usize = 0;
        proof {
            lemma_place_none(start, x as int, y as int, piece@);
        }
        while k < piece.len()
            invariant
                self.wf(),
                self@.tiled(),
                start.wf(),
                start.place_error(x as int, y as int, piece@) is None,
                k <= piece@.len(),
                self@ == start.place_cells(x as int, y as int, piece@.take(k as int)),
                cleared@ == start.place_events(x as int, y as int, piece@.take(k as int)),
            decreases piece@.len() - k,
        {
            let field: usize = piece[k];
            proof {
                lemma_target(start, x as int, y as int, field as int);
                lemma_place_step(start, x as int, y as int, piece@, k as int);
            }
            let col: usize = (field + x) % self.width;
            let row: usize = field / self.width + y;
            let col_done: bool = self.column_done(col);
            let row_done: bool = self.row_done(row);
            let section_done: (usize, bool) = self.section_done(col, row);
            let ghost before = self@;
            let ghost events = cleared@;
            self.fields[row * self.width + col] = true;
            assert(self@ == before.occupy(start.target(x as int, y as int, field as int)));
            if !col_done && self.column_done(col) {
                cleared.push(BoardClear::Column(col));
            }
            if !row_done && self.row_done(row) {
                cleared.push(BoardClear::Row(row));
            }
            if !section_done.1 && self.section_done(col, row).1 {
                cleared.push(BoardClear::Section { section_index: section_done.0, used_special: false });
            }
            assert(cleared@ =~= events + before.cell_events(
                start.target(x as int, y as int, field as int),
            ));
            k += 1;
        }
        proof {
            assert(piece@.take(k as int) =~= piece@);
            lemma_place_events(start, x as int, y as int, piece@);
        }
        Ok(cleared)
    }

    /// Marks every cell whose index is in `indices` as unoccupied.
    fn clear_cells(&mut self, indices: &Vec<usize>)
        requires
            forall|k: int| 0 <= k < indices@.len() ==> indices@[k] < old(self)@.cells.len(),
        ensures
            final(self).wf(),
            final(self)@ == old(self)@.clear_indices(indices@),
    {
        proof {
            use_type_invariant(&*self);
        }
        let ghost start = self@;
        let mut k: usize = 0;
        assert(self@.cells =~= start.clear_indices(indices@.take(0)).cells);
        while k < indices.len()
            invariant
                self.wf(),
                k <= indices@.len(),
                forall|j: int| 0 <= j < indices@.len() ==> indices@[j] < start.cells.len(),
                self@ == start.clear_indices(indices@.take(k as int)),
            decreases indices@.len() - k,
        {
            self.fields[indices[k]] = false;
            proof {
                let less = indices@.take(k as int);
                let more = indices@.take(k as int + 1);
                assert forall|i: int| 0 <= i < start.cells.len() implies self@.cells[i]
                    == start.clear_indices(more).cells[i] by {
                    if less.contains(i as usize) {
                        let j = choose|j: int| 0 <= j < less.len() && less[j] == i as usize;
                        assert(more[j] == i as usize);
                    }
                    if more.contains(i as usize) {
                        let j = choose|j: int| 0 <= j < more.len() && more[j] == i as usize;
                        if j < k {
                            assert(less[j] == i as usize);
                        }
                    }
                    if i == indices@[k as int] {
                        assert(more[k as int] == i as usize);
                    }
                }
                assert(self@.cells =~= start.clear_indices(more).cells);
            }
            k += 1;
        }
        assert(indices@.take(k as int) =~= indices@);
    }

    /// Marks every cell of column `column` as unoccupied, and returns the
    /// indices of these cells, from the top.
    pub fn clear_column(&mut self, column: usize) -> (indices: Vec<usize>)
        requires
            column < old(self)@.width,
        ensures
            final(self).wf(),
            indices@ == old(self)@.column_indices(column as int),
            final(self)@ == old(self)@.clear_indices(indices@),
    {
        proof {
            use_type_invariant(&*self);
        }
        let indices = self.get_column(column);
        proof {
            assert forall|k: int| 0 <= k < indices@.len() implies indices@[k]
                < self@.cells.len() by {
                lemma_index(self@, column as int, k);
            }
        }
        self.clear_cells(&indices);
        indices
    }

    /// Marks every cell of row `row` as unoccupied, and returns the indices
    /// of these cells, from the left.
    pub fn clear_row(&mut self, row: usize) -> (indices: Vec<usize>)
        requires
            row < old(self)@.height,
        ensures
            final(self).wf(),
            indices@ == old(self)@.row_indices(row as int),
            final(self)@ == old(self)@.clear_indices(indices@),
    {
        proof {
            use_type_invariant(&*self);
        }
        let range = self.get_row_range(row);
        let mut indices: Vec<usize> = Vec::new();
        let mut i: usize = range.start;
        while i < range.end
            invariant
                self.wf(),
                row < self@.height,
                range.start == row * self@.width,
                range.end == row * self@.width + self@.width,
                range.start <= i <= range.end,
                indices@.len() == i - range.start,
                forall|c: int| 0 <= c < indices@.len() ==> indices@[c] == self@.index(c, row as int),
            decreases range.end - i,
        {
            indices.push(i);
            i += 1;
        }
        proof {
            assert forall|k: int| 0 <= k < indices@.len() implies indices@[k]
                < self@.cells.len() by {
                lemma_index(self@, k, row as int);
            }
        }
        self.clear_cells(&indices);
        indices
    }

    /// Marks every cell of the section with number `section` as unoccupied,
    /// and returns the indices of these cells, row by row.
    pub fn clear_section(&mut self, section: usize) -> (indices: Vec<usize>)
        requires
            old(self)@.tiled(),
            old(self)@.is_section(section as int),
        ensures
            final(self).wf(),
            indices@ == old(self)@.section_indices(
                old(self)@.section_origin(section as int).0,
                old(self)@.section_origin(section as int).1,
            ),
            final(self)@ == old(self)@.clear_indices(indices@),
    {
        proof {
            use_type_invariant(&*self);
        }
        let indices = self.get_section_by_section_index(section);
        proof {
            let origin = self@.section_origin(section as int);
            lemma_section_origin(self@, section as int);
            lemma_section_cells(self@, origin.0, origin.1);
            assert forall|k: int| 0 <= k < indices@.len() implies indices@[k]
                < self@.cells.len() by {
                assert(0 <= self@.section_cell(origin.0, origin.1, k) < self@.width
                    * self@.height);
            }
        }
        self.clear_cells(&indices);
        indices
    }

    /// Marks every cell of the board as unoccupied.
    pub fn clear(&mut self)
        ensures
            final(self).wf(),
            final(self)@ == old(self)@.clear_all(),
    {
        proof {
            use_type_invariant(&*self);
        }
        let mut i: usize = 0;
        while i < self.fields.len()
            invariant
                self.wf(),
                self@.width == old(self)@.width,
                self@.height == old(self)@.height,
                self@.section_size == old(self)@.section_size,
                i <= self@.cells.len(),
                forall|j: int| 0 <= j < i ==> !self@.cells[j],
            decreases self@.cells.len() - i,
        {
            self.fields[i] = false;
            i += 1;
        }
        assert(self@.cells =~= old(self)@.clear_all().cells);
    }
}

impl Default for Board {
    /// The board of the game: nine by nine cells in sections of three by
    /// three, none of them occupied.
    fn default() -> (board: Board)
        ensures
            board.wf(),
            board@.tiled(),
            board@.width == BOARD_SIZE,
            board@.height == BOARD_SIZE,
            board@.section_size == SECTION_SIZE,
            forall|i: int| 0 <= i < board@.cells.len() ==> !board@.cells[i],
    {
        Board::new(BOARD_SIZE, BOARD_SIZE, SECTION_SIZE).unwrap()
    }
}

/// The clears that placements have brought about and that nobody has acted
/// on yet, oldest first.
#[derive(Debug)]
pub struct BoardClearQueue {
    /// The clears, in the order in which they were reported.
    pub queue: VecDeque<BoardClear>,
}

impl View for BoardClearQueue {
    type V = Seq<BoardClear>;

    open spec fn view(&self) -> Seq<BoardClear> {
        self.queue@
    }
}

impl BoardClearQueue {
    /// Queues `clears` behind the clears that wait already, in their order.
    pub fn extend(&mut self, clears: &Vec<BoardClear>)
        ensures
            final(self)@ == old(self)@ + clears@,
    {
        let ghost before = self@;
        let mut k: usize = 0;
        while k < clears.len()
            invariant
                k <= clears@.len(),
                self@ == before + clears@.take(k as int),
            decreases clears@.len() - k,
        {
            self.queue.push_back(clears[k]);
            k += 1;
        }
    }
}

impl Default for BoardClearQueue {
    /// The empty queue.
    fn default() -> (queue: BoardClearQueue)
        ensures
            queue@ == Seq::<BoardClear>::empty(),
    {
        BoardClearQueue { queue: VecDeque::new() }
    }
}

} // verus!
