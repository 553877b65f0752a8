//! A rectangular grid of typed cells, addressable in the absolute
//! coordinates of the workbook sheet it was cut from.

use vstd::prelude::*;

verus! {

/// One spreadsheet cell: free text, a numeric value (carried as the
/// raw bit pattern of the instrument's binary64 sample), or empty.
#[derive(Debug, PartialEq)]
pub enum Cell {
    Empty,
    Text(String),
    Number(u64),
}

/// Ghost image of a cell: text is abstracted to its character sequence.
pub enum CellV {
    Empty,
    Text(Seq<char>),
    Number(u64),
}

impl View for Cell {
    type V = CellV;

    open spec fn view(&self) -> CellV {
        match self {
            Cell::Empty => CellV::Empty,
            Cell::Text(s) => CellV::Text(s@),
            Cell::Number(n) => CellV::Number(*n),
        }
    }
}

impl Clone for Cell {
    fn clone(&self) -> (r: Self)
        ensures
            r@ == self@,
    {
        match self {
            Cell::Empty => Cell::Empty,
            Cell::Text(s) => Cell::Text(s.clone()),
            Cell::Number(n) => Cell::Number(*n),
        }
    }
}

/// A rectangular block of cells.  `abs_row`/`abs_col` keep the
/// position of the block's top-left cell in the coordinates of the
/// sheet it was originally cut from, so that a sub-range stays
/// addressable in absolute coordinates.
#[derive(Debug, PartialEq)]
pub struct MyRange {
    rows: Vec<Vec<Cell>>,
    abs_row: usize,
    abs_col: usize,
}

impl MyRange {
    pub closed spec fn nrows(self) -> int {
        self.rows@.len() as int
    }

    pub closed spec fn ncols(self) -> int {
        if self.rows@.len() == 0 {
            0
        } else {
            self.rows@[0]@.len() as int
        }
    }

    pub closed spec fn abs(self) -> (int, int) {
        (self.abs_row as int, self.abs_col as int)
    }

    /// The cell at a position relative to the block's own top-left.
    pub closed spec fn cell(self, r: int, c: int) -> CellV {
        self.rows@[r]@[c]@
    }

    /// Well-formed: rectangular, and the absolute end coordinates stay
    /// representable.
    pub closed spec fn wf(self) -> bool {
        &&& forall|i: int|
            0 <= i < self.rows@.len() ==> (#[trigger] self.rows@[i])@.len() == self.ncols()
        &&& self.abs_row + self.nrows() <= usize::MAX
        &&& self.abs_col + self.ncols() <= usize::MAX
    }

    /// Wrap a rectangular block of cells, rooted at the sheet origin.
    pub fn new(rows: Vec<Vec<Cell>>) -> (r: MyRange)
        requires
            forall|i: int|
                0 <= i < rows@.len() ==> (#[trigger] rows@[i])@.len() == rows@[0]@.len(),
        ensures
            r.wf(),
            r.abs() == (0int, 0int),
            r.nrows() == rows@.len(),
            r.ncols() == (if rows@.len() == 0 { 0int } else { rows@[0]@.len() as int }),
            forall|i: int, j: int|
                0 <= i < r.nrows() && 0 <= j < r.ncols() ==> r.cell(i, j) == (
                #[trigger] rows@[i]@[j])@,
    {
        let h = rows.len();
        let w = if h > 0 {
            rows[0].len()
        } else {
            0
        };
        MyRange { rows, abs_row: 0, abs_col: 0 }
    }

    /// Number of rows in the block.
    pub fn num_rows(&self) -> (r: usize)
        ensures
            r == self.nrows(),
    {
        self.rows.len()
    }

    /// Number of columns in the block.
    pub fn num_cols(&self) -> (r: usize)
        ensures
            r == self.ncols(),
    {
        if self.rows.len() == 0 {
            0
        } else {
            self.rows[0].len()
        }
    }

    /// The absolute coordinates of the block's top-left cell.
    pub fn abs_pos(&self) -> (p: (usize, usize))
        requires
            self.wf(),
        ensures
            p.0 == self.abs().0,
            p.1 == self.abs().1,
            p.0 + self.nrows() <= usize::MAX,
            p.1 + self.ncols() <= usize::MAX,
    {
        (self.abs_row, self.abs_col)
    }

    /// The absolute coordinates of the block's bottom-right cell.
    pub fn end(&self) -> (e: (usize, usize))
        requires
            self.wf(),
            self.nrows() > 0,
            self.ncols() > 0,
        ensures
            e.0 == self.abs().0 + self.nrows() - 1,
            e.1 == self.abs().1 + self.ncols() - 1,
    {
        let h = self.rows.len();
        let w = self.rows[0].len();
        (self.abs_row + (h - 1), self.abs_col + (w - 1))
    }

    /// The cell at a relative position; `None` outside the block.
    pub fn get(&self, r: usize, c: usize) -> (res: Option<&Cell>)
        requires
            self.wf(),
        ensures
            match res {
                Some(cell) => 0 <= r < self.nrows() && 0 <= c < self.ncols() && cell@
                    == self.cell(r as int, c as int),
                None => r >= self.nrows() || c >= self.ncols(),
            },
    {
        if r < self.rows.len() {
            let row = &self.rows[r];
            if c < row.len() {
                return Some(&row[c]);
            }
        }
        None
    }

    /// Cut the rectangle from relative position `start` down to the
    /// absolute position `end`, inclusive.  The sub-range's end bound
    /// never exceeds its parent's.
    pub fn sub_range(&self, start: (usize, usize), end: (usize, usize)) -> (r: MyRange)
        requires
            self.wf(),
            start.0 < self.nrows(),
            start.1 < self.ncols(),
            self.abs().0 + start.0 <= end.0 <= self.abs().0 + self.nrows() - 1,
            self.abs().1 + start.1 <= end.1 <= self.abs().1 + self.ncols() - 1,
        ensures
            r.wf(),
            r.abs() == (self.abs().0 + start.0, self.abs().1 + start.1),
            r.nrows() == end.0 - (self.abs().0 + start.0) + 1,
            r.ncols() == end.1 - (self.abs().1 + start.1) + 1,
            forall|i: int, j: int|
                0 <= i < r.nrows() && 0 <= j < r.ncols() ==> #[trigger] r.cell(i, j)
                    == self.cell(start.0 + i, start.1 + j),
    {
        let nr: usize = end.0 - self.abs_row - start.0 + 1;
        let nc: usize = end.1 - self.abs_col - start.1 + 1;
        let mut rows: Vec<Vec<Cell>> = Vec::new();
        let mut i: usize = 0;
        while i < nr
            invariant
                self.wf(),
                start.0 + nr <= self.nrows(),
                start.1 + nc <= self.ncols(),
                i <= nr,
                rows@.len() == i,
                forall|a: int| 0 <= a < i ==> (#[trigger] rows@[a])@.len() == nc,
                forall|a: int, b: int|
                    0 <= a < i && 0 <= b < nc ==> (#[trigger] rows@[a]@[b])@ == self.cell(
                        start.0 + a,
                        start.1 + b,
                    ),
            decreases nr - i,
        {
            let src = &self.rows[start.0 + i];
            let mut row: Vec<Cell> = Vec::new();
            let mut j: usize = 0;
            while j < nc
                invariant
                    self.wf(),
                    start.0 + nr <= self.nrows(),
                    start.1 + nc <= self.ncols(),
                    i < nr,
                    j <= nc,
                    row@.len() == j,
                    src@ == self.rows@[start.0 + i]@,
                    forall|b: int|
                        0 <= b < j ==> (#[trigger] row@[b])@ == self.cell(
                            start.0 + i,
                            start.1 + b,
                        ),
                decreases nc - j,
            {
                row.push(src[start.1 + j].clone());
                j = j + 1;
            }
            rows.push(row);
            i = i + 1;
        }
        MyRange {
            rows,
            abs_row: self.abs_row + start.0,
            abs_col: self.abs_col + start.1,
        }
    }
}

/// The text of the cell at (`r`, `c`), when it is inside `g` and holds
/// text.
pub open spec fn text_at(g: MyRange, r: int, c: int) -> Option<Seq<char>> {
    if 0 <= r < g.nrows() && 0 <= c < g.ncols() {
        match g.cell(r, c) {
            CellV::Text(s) => Some(s),
            _ => None,
        }
    } else {
        None
    }
}

/// The decimal read from the text of the cell at (`r`, `c`).
pub open spec fn num_at(g: MyRange, r: int, c: int) -> Option<crate::decimal::Decimal> {
    match text_at(g, r, c) {
        Some(s) => crate::decimal::parse_decimal_v(s),
        None => None,
    }
}

impl MyRange {
    /// Borrow the text of a cell, when present.
    pub fn get_text(&self, r: usize, c: usize) -> (t: Option<&String>)
        requires
            self.wf(),
        ensures
            match t {
                Some(s) => text_at(*self, r as int, c as int) == Some(s@),
                None => text_at(*self, r as int, c as int) is None,
            },
    {
        match self.get(r, c) {
            Some(Cell::Text(s)) => Some(s),
            _ => None,
        }
    }

    /// Parse the text of a cell as a decimal; `None` when the cell is
    /// missing, not text, or not a numeral.
    pub fn get_decimal(&self, r: usize, c: usize) -> (d: Option<crate::decimal::Decimal>)
        requires
            self.wf(),
        ensures
            d == num_at(*self, r as int, c as int),
    {
        match self.get_text(r, c) {
            Some(s) => crate::decimal::parse_decimal(s.as_str()),
            None => None,
        }
    }
}

} // verus!
