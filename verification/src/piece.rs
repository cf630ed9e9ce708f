//! Piece geometry: the cells of a piece as offsets into a row-major grid.
use vstd::prelude::*;
use crate::config::ConfigError;

verus! {

/// The offset `f`, counted in rows of `width` cells, as an offset into rows
/// of `padded_width` cells: every full row before it grows by the difference.
pub open spec fn remap_offset(f: int, width: int, padded_width: int) -> int {
    f + (f / width) * (padded_width - width)
}

/// The largest element of `s`, and 0 for the empty sequence.
pub open spec fn max_offset(s: Seq<usize>) -> int
    decreases s.len(),
{
    if s.len() == 0 {
        0
    } else {
        let rest = max_offset(s.drop_last());
        if s.last() >= rest {
            s.last() as int
        } else {
            rest
        }
    }
}

/// `max_offset` is an upper bound of the sequence, and one of its elements.
pub proof fn lemma_max_offset(s: Seq<usize>)
    ensures
        forall|i: int| 0 <= i < s.len() ==> s[i] <= max_offset(s),
        s.len() > 0 ==> exists|i: int| 0 <= i < s.len() && s[i] == max_offset(s),
        s.len() == 0 ==> max_offset(s) == 0,
    decreases s.len(),
{
    if s.len() > 0 {
        let init = s.drop_last();
        lemma_max_offset(init);
        assert forall|i: int| 0 <= i < s.len() implies s[i] <= max_offset(s) by {
            if i < init.len() {
                assert(init[i] == s[i]);
            }
        }
        if s.last() >= max_offset(init) {
            assert(s[s.len() - 1] == max_offset(s));
        } else {
            let j = choose|j: int| 0 <= j < init.len() && init[j] == max_offset(init);
            assert(s[j] == max_offset(s));
        }
    }
}

/// Whether the remapped offsets of `fields`, and the height they give, fit
/// in a machine word.
pub open spec fn offsets_fit(fields: Seq<usize>, width: int, padded_width: int) -> bool {
    forall|i: int|
        0 <= i < fields.len() ==> {
            let r = #[trigger] remap_offset(fields[i] as int, width, padded_width);
            r <= usize::MAX && r / padded_width < usize::MAX
        }
}

/// The mathematical content of a piece.
pub struct PieceShape {
    /// Columns of the piece's own bounding box.
    pub width: nat,
    /// Columns of the grid that the offsets count in.
    pub padded_width: nat,
    /// Rows that the piece spans.
    pub height: nat,
    /// The occupied cells, as offsets into rows of `padded_width` cells.
    pub fields: Seq<usize>,
}

impl PieceShape {
    /// The invariant of a piece: it has a cell, is no wider than its grid, and
    /// its height is that of the row of its largest offset.
    pub open spec fn wf(self) -> bool {
        &&& 0 < self.width <= self.padded_width
        &&& self.fields.len() > 0
        &&& self.height == max_offset(self.fields) / (self.padded_width as int) + 1
    }
}

/// The cells of a piece, as offsets into a grid of a given width.
pub struct PieceFields {
    width: usize,
    padded_width: usize,
    height: usize,
    fields: Vec<usize>,
}

impl View for PieceFields {
    type V = PieceShape;

    closed spec fn view(&self) -> PieceShape {
        PieceShape {
            width: self.width as nat,
            padded_width: self.padded_width as nat,
            height: self.height as nat,
            fields: self.fields@,
        }
    }
}

impl PieceFields {
    /// The invariant of a piece, which `new` establishes.
    #[verifier::type_invariant]
    pub open spec fn wf(&self) -> bool {
        self@.wf()
    }
}

impl Clone for PieceFields {
    /// A piece with the same cells.
    fn clone(&self) -> (copy: PieceFields)
        ensures
            copy@ == self@,
    {
        proof {
            use_type_invariant(self);
        }
        PieceFields {
            width: self.width,
            padded_width: self.padded_width,
            height: self.height,
            fields: self.fields.clone(),
        }
    }
}

impl PieceFields {
    /// Whether `new` can be asked for these parameters: a piece with cells has
    /// a width, and, if it is no wider than its grid, its remapped offsets and
    /// the height that they give fit in a machine word.
    pub fn can_build(fields: &[usize], width: usize, padded_width: usize) -> (can: bool)
        ensures
            can == ((width > 0 || fields@.len() == 0) && (width <= padded_width ==> offsets_fit(
                fields@,
                width as int,
                padded_width as int,
            ))),
    {
        if fields.len() == 0 || width > padded_width {
            return true;
        }
        if width == 0 {
            return false;
        }
        let extra: usize = padded_width - width;
        let mut i: usize = 0;
        while i < fields.len()
            invariant
                0 < width <= padded_width,
                extra == padded_width - width,
                i <= fields@.len(),
                forall|k: int|
                    0 <= k < i ==> {
                        let r = #[trigger] remap_offset(
                            fields@[k] as int,
                            width as int,
                            padded_width as int,
                        );
                        r <= usize::MAX && r / (padded_width as int) < usize::MAX
                    },
            decreases fields@.len() - i,
        {
            let f: usize = fields[i];
            let rows: usize = f / width;
            assert(rows * extra == (f as int / width as int) * (padded_width as int - width as int)
                && rows * extra >= 0) by (nonlinear_arith)
                requires
                    rows == f as int / width as int,
                    extra == padded_width as int - width as int,
                    width > 0,
                    extra >= 0,
                    f >= 0,
            ;
            let fits: bool = match rows.checked_mul(extra) {
                None => false,
                Some(shift) => match f.checked_add(shift) {
                    None => false,
                    Some(r) => r / padded_width < usize::MAX,
                },
            };
            if !fits {
                assert(!({
                    let r = remap_offset(fields@[i as int] as int, width as int, padded_width as int);
                    r <= usize::MAX && r / (padded_width as int) < usize::MAX
                }));
                return false;
            }
            i += 1;
        }
        true
    }

    /// Builds a piece from offsets counted in rows of `width` cells, for use
    /// on a grid of `padded_width` columns.
    pub fn new(fields: &[usize], width: usize, padded_width: usize) -> (res: Result<
        PieceFields,
        ConfigError,
    >)
        requires
            width > 0 || fields@.len() == 0,
            width <= padded_width ==> offsets_fit(fields@, width as int, padded_width as int),
        ensures
            res is Err <==> width > padded_width || fields@.len() == 0,
            res matches Err(e) ==> e == ConfigError::InvalidGeometry,
            res matches Ok(p) ==> {
                &&& p@.wf()
                &&& p@.width == width
                &&& p@.padded_width == padded_width
                &&& p@.fields.len() == fields@.len()
                &&& forall|i: int|
                    0 <= i < fields@.len() ==> #[trigger] p@.fields[i] == remap_offset(
                        fields@[i] as int,
                        width as int,
                        padded_width as int,
                    )
            },
    {
        if width > padded_width || fields.len() == 0 {
            return Err(ConfigError::InvalidGeometry);
        }
        let extra: usize = padded_width - width;
        let mut remapped: Vec<usize> = Vec::new();
        let mut max: usize = 0;
        let mut i: usize = 0;
        while i < fields.len()
            invariant
                0 < width <= padded_width,
                extra == padded_width - width,
                offsets_fit(fields@, width as int, padded_width as int),
                i <= fields@.len(),
                remapped@.len() == i,
                forall|k: int|
                    0 <= k < i ==> remapped@[k] == remap_offset(
                        fields@[k] as int,
                        width as int,
                        padded_width as int,
                    ),
                max == max_offset(remapped@),
            decreases fields@.len() - i,
        {
            let f: usize = fields[i];
            let rows: usize = f / width;
            assert(rows * extra == (f as int / width as int) * (padded_width as int - width as int)
                && (f as int / width as int) * (padded_width as int - width as int) >= 0)
                by (nonlinear_arith)
                requires
                    rows == f as int / width as int,
                    extra == padded_width as int - width as int,
                    width > 0,
                    extra >= 0,
                    f >= 0,
            ;
            assert(remap_offset(f as int, width as int, padded_width as int) <= usize::MAX);
            let r: usize = f + rows * extra;
            let ghost before = remapped@;
            remapped.push(r);
            assert(remapped@.drop_last() == before);
            if r >= max {
                max = r;
            }
            i += 1;
        }
        proof {
            lemma_max_offset(remapped@);
            let j = choose|j: int| 0 <= j < remapped@.len() && remapped@[j] == max_offset(remapped@);
            assert(remap_offset(fields@[j] as int, width as int, padded_width as int) == max);
        }
        let height: usize = max / padded_width + 1;
        Ok(PieceFields { width, padded_width, height, fields: remapped })
    }

    /// The occupied cells, as offsets into rows of `get_padded_width()` cells.
    pub fn get_fields(&self) -> (fields: &[usize])
        ensures
            fields@ == self@.fields,
    {
        self.fields.as_slice()
    }

    /// The position of every cell within the grid of the piece, column first,
    /// in the order of the cells.
    pub fn get_field_coords(&self) -> (coords: Vec<(usize, usize)>)
        ensures
            coords@.len() == self@.fields.len(),
            forall|i: int|
                0 <= i < coords@.len() ==> (#[trigger] coords@[i]).0 == self@.fields[i] as int % (
                self@.padded_width as int) && coords@[i].1 == self@.fields[i] as int / (
                self@.padded_width as int),
    {
        proof {
            use_type_invariant(self);
        }
        let mut coords: Vec<(usize, usize)> = Vec::new();
        let mut i: usize = 0;
        while i < self.fields.len()
            invariant
                self.padded_width > 0,
                i <= self.fields@.len(),
                coords@.len() == i,
                forall|k: int|
                    0 <= k < i ==> (#[trigger] coords@[k]).0 == self.fields@[k] as int % (
                    self.padded_width as int) && coords@[k].1 == self.fields@[k] as int / (
                    self.padded_width as int),
            decreases self.fields@.len() - i,
        {
            let f: usize = self.fields[i];
            coords.push((f % self.padded_width, f / self.padded_width));
            i += 1;
        }
        coords
    }

    /// The width of the grid that the offsets count in.
    pub fn get_padded_width(&self) -> (w: usize)
        ensures
            w == self@.padded_width,
    {
        self.padded_width
    }

    /// The width of the piece's own bounding box.
    pub fn get_width(&self) -> (w: usize)
        ensures
            w == self@.width,
    {
        self.width
    }

    /// The number of rows that the piece spans: one more than the row of its
    /// largest offset.
    pub fn get_height(&self) -> (h: usize)
        ensures
            h == self@.height,
            h == max_offset(self@.fields) / (self@.padded_width as int) + 1,
    {
        proof {
            use_type_invariant(self);
        }
        self.height
    }
}

} // verus!
