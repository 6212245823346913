//! The character-cell buffer the chart draws into: a rectangle of
//! symbols with an optional foreground color per cell.

use vstd::prelude::*;

verus! {

/// A 24-bit color.
#[derive(Debug, Clone, Copy, PartialEq, Eq, Structural)]
pub struct Color {
    pub r: u8,
    pub g: u8,
    pub b: u8,
}

/// One buffer cell: a character and its foreground color (`None` =
/// the terminal default).
#[derive(Debug, Clone, Copy, PartialEq, Eq, Structural)]
pub struct Cell {
    pub symbol: char,
    pub fg: Option<Color>,
}

/// A `width x height` grid of cells, stored row-major.
#[derive(Debug, Clone)]
pub struct Buffer {
    pub width: u16,
    pub height: u16,
    pub cells: Vec<Cell>,
}

impl Buffer {
    /// The storage holds exactly one cell per grid position.
    pub open spec fn wf(self) -> bool {
        self.cells@.len() == self.width as int * self.height as int
    }

    /// The cell at column `x` of row `y`.
    pub open spec fn cell_at(self, x: int, y: int) -> Cell {
        self.cells@[y * self.width as int + x]
    }

    /// A buffer with every cell holding `symbol` and no color.
    pub fn filled(width: u16, height: u16, symbol: char) -> (r: Buffer)
        ensures
            r.wf(),
            r.width == width,
            r.height == height,
            forall|x: int, y: int|
                0 <= x < width && 0 <= y < height ==> #[trigger] r.cell_at(x, y) == (Cell {
                    symbol,
                    fg: None,
                }),
    {
        proof {
            lemma_grid_bounds(width as int, height as int);
        }
        let total: usize = (width as usize) * (height as usize);
        let mut cells: Vec<Cell> = Vec::new();
        let mut i: usize = 0;
        while i < total
            invariant
                i <= total,
                cells@.len() == i as int,
                forall|j: int| 0 <= j < i as int ==> #[trigger] cells@[j] == (Cell {
                    symbol,
                    fg: None,
                }),
            decreases total - i,
        {
            cells.push(Cell { symbol, fg: None });
            i = i + 1;
        }
        let r = Buffer { width, height, cells };
        proof {
            assert forall|x: int, y: int| 0 <= x < width && 0 <= y < height implies #[trigger] r
                .cell_at(x, y) == (Cell { symbol, fg: None }) by {
                lemma_cell_index(width as int, height as int, x, y);
            }
        }
        r
    }

    pub fn width(&self) -> (r: u16)
        ensures
            r == self.width,
    {
        self.width
    }

    pub fn height(&self) -> (r: u16)
        ensures
            r == self.height,
    {
        self.height
    }

    /// Reads one cell.
    pub fn get(&self, x: u16, y: u16) -> (r: Cell)
        requires
            self.wf(),
            x < self.width,
            y < self.height,
        ensures
            r == self.cell_at(x as int, y as int),
    {
        proof {
            lemma_cell_index(self.width as int, self.height as int, x as int, y as int);
        }
        self.cells[(y as usize) * (self.width as usize) + (x as usize)]
    }

    /// Writes one cell; every other cell keeps its value.
    pub fn set(&mut self, x: u16, y: u16, cell: Cell)
        requires
            old(self).wf(),
            x < old(self).width,
            y < old(self).height,
        ensures
            final(self).wf(),
            final(self).width == old(self).width,
            final(self).height == old(self).height,
            forall|x2: int, y2: int|
                0 <= x2 < old(self).width && 0 <= y2 < old(self).height
                    ==> #[trigger] final(self).cell_at(x2, y2) == (if x2 == x as int && y2
                    == y as int {
                    cell
                } else {
                    old(self).cell_at(x2, y2)
                }),
    {
        proof {
            lemma_cell_index(self.width as int, self.height as int, x as int, y as int);
        }
        let idx: usize = (y as usize) * (self.width as usize) + (x as usize);
        self.cells.set(idx, cell);
        proof {
            let w = self.width as int;
            let h = self.height as int;
            assert forall|x2: int, y2: int| 0 <= x2 < w && 0 <= y2 < h implies #[trigger] self
                .cell_at(x2, y2) == (if x2 == x as int && y2 == y as int {
                cell
            } else {
                old(self).cell_at(x2, y2)
            }) by {
                lemma_cell_index(w, h, x2, y2);
                if !(x2 == x as int && y2 == y as int) {
                    lemma_cell_index_inj(w, h, x as int, y as int, x2, y2);
                }
            }
        }
    }

    /// Writes a run of characters into row `y` starting at column `x`,
    /// all with color `fg`; every other cell keeps its value.
    pub fn write_row(&mut self, x: u16, y: u16, chars: &Vec<char>, fg: Option<Color>)
        requires
            old(self).wf(),
            y < old(self).height,
            x + chars@.len() <= old(self).width,
        ensures
            final(self).wf(),
            final(self).width == old(self).width,
            final(self).height == old(self).height,
            forall|x2: int, y2: int|
                0 <= x2 < old(self).width && 0 <= y2 < old(self).height
                    ==> #[trigger] final(self).cell_at(x2, y2) == (if y2 == y as int && x as int
                    <= x2 < x as int + chars@.len() {
                    Cell { symbol: chars@[x2 - x as int], fg }
                } else {
                    old(self).cell_at(x2, y2)
                }),
    {
        let mut i: usize = 0;
        while i < chars.len()
            invariant
                i <= chars@.len(),
                self.wf(),
                self.width == old(self).width,
                self.height == old(self).height,
                y < self.height,
                x + chars@.len() <= self.width,
                forall|x2: int, y2: int|
                    0 <= x2 < self.width && 0 <= y2 < self.height ==> #[trigger] self.cell_at(
                        x2, y2) == (if y2 == y as int && x as int <= x2 < x as int + i as int {
                        Cell { symbol: chars@[x2 - x as int], fg }
                    } else {
                        old(self).cell_at(x2, y2)
                    }),
            decreases chars@.len() - i,
        {
            let c = chars[i];
            self.set(x + (i as u16), y, Cell { symbol: c, fg });
            i = i + 1;
        }
    }

    /// Writes a column of characters into column `x` starting at row
    /// zero, all with color `fg`; every other cell keeps its value.
    pub fn write_column(&mut self, x: u16, chars: &Vec<char>, fg: Option<Color>)
        requires
            old(self).wf(),
            x < old(self).width,
            chars@.len() <= old(self).height,
        ensures
            final(self).wf(),
            final(self).width == old(self).width,
            final(self).height == old(self).height,
            forall|x2: int, y2: int|
                0 <= x2 < old(self).width && 0 <= y2 < old(self).height
                    ==> #[trigger] final(self).cell_at(x2, y2) == (if x2 == x as int && 0 <= y2
                    < chars@.len() {
                    Cell { symbol: chars@[y2], fg }
                } else {
                    old(self).cell_at(x2, y2)
                }),
    {
        let mut i: usize = 0;
        while i < chars.len()
            invariant
                i <= chars@.len(),
                self.wf(),
                self.width == old(self).width,
                self.height == old(self).height,
                x < self.width,
                chars@.len() <= self.height,
                forall|x2: int, y2: int|
                    0 <= x2 < self.width && 0 <= y2 < self.height ==> #[trigger] self.cell_at(
                        x2, y2) == (if x2 == x as int && 0 <= y2 < i as int {
                        Cell { symbol: chars@[y2], fg }
                    } else {
                        old(self).cell_at(x2, y2)
                    }),
            decreases chars@.len() - i,
        {
            let c = chars[i];
            self.set(x, i as u16, Cell { symbol: c, fg });
            i = i + 1;
        }
    }

    /// The symbols of row `y` as text, for inspection.
    pub fn row_string(&self, y: u16) -> (s: String)
        requires
            self.wf(),
            y < self.height,
        ensures
            s@.len() == self.width as int,
            forall|x: int|
                0 <= x < self.width ==> s@[x] == #[trigger] self.cell_at(x, y as int).symbol,
    {
        let mut v: Vec<char> = Vec::new();
        let mut x: u16 = 0;
        while x < self.width
            invariant
                x <= self.width,
                self.wf(),
                y < self.height,
                v@.len() == x as int,
                forall|j: int| 0 <= j < x as int ==> v@[j] == #[trigger] self.cell_at(
                    j, y as int).symbol,
            decreases self.width as int - x as int,
        {
            let c = self.get(x, y);
            v.push(c.symbol);
            x = x + 1;
        }
        crate::utils::chars_to_string(&v)
    }
}

/// The grid size fits `usize` arithmetic.
proof fn lemma_grid_bounds(w: int, h: int)
    requires
        0 <= w < 0x10000,
        0 <= h < 0x10000,
    ensures
        0 <= w * h < 0x100000000,
{
    assert(0 <= w * h < 0x100000000) by (nonlinear_arith)
        requires
            0 <= w < 0x10000,
            0 <= h < 0x10000,
    ;
}

/// A grid position indexes inside the storage.
proof fn lemma_cell_index(w: int, h: int, x: int, y: int)
    requires
        0 <= x < w,
        0 <= y < h,
        w < 0x10000,
        h < 0x10000,
    ensures
        0 <= y * w + x < w * h,
        y * w + x < 0x100000000,
{
    assert(0 <= y * w + x < w * h && y * w + x < 0x100000000) by (nonlinear_arith)
        requires
            0 <= x < w,
            0 <= y < h,
            w < 0x10000,
            h < 0x10000,
    ;
}

/// Distinct grid positions index distinct cells.
proof fn lemma_cell_index_inj(w: int, h: int, x1: int, y1: int, x2: int, y2: int)
    requires
        0 <= x1 < w,
        0 <= y1 < h,
        0 <= x2 < w,
        0 <= y2 < h,
        !(x1 == x2 && y1 == y2),
    ensures
        y1 * w + x1 != y2 * w + x2,
{
    assert(y1 * w + x1 != y2 * w + x2) by (nonlinear_arith)
        requires
            0 <= x1 < w,
            0 <= y1 < h,
            0 <= x2 < w,
            0 <= y2 < h,
            !(x1 == x2 && y1 == y2),
    ;
}

} // verus!

verus! {

impl Buffer {
    /// Writes a run of characters into row `y` starting at column
    /// `x`, clipped at the right edge, as a terminal write would be;
    /// every other cell keeps its value.
    pub fn write_row_clipped(&mut self, x: u16, y: u16, chars: &Vec<char>, fg: Option<Color>)
        requires
            old(self).wf(),
            y < old(self).height,
            x <= old(self).width,
        ensures
            final(self).wf(),
            final(self).width == old(self).width,
            final(self).height == old(self).height,
            forall|x2: int, y2: int|
                0 <= x2 < old(self).width && 0 <= y2 < old(self).height
                    ==> #[trigger] final(self).cell_at(x2, y2) == (if y2 == y as int && x as int
                    <= x2 < x as int + chars@.len() {
                    Cell { symbol: chars@[x2 - x as int], fg }
                } else {
                    old(self).cell_at(x2, y2)
                }),
    {
        let avail: usize = (self.width - x) as usize;
        let mut i: usize = 0;
        while i < chars.len() && i < avail
            invariant
                i <= chars@.len(),
                avail == self.width as int - x as int,
                self.wf(),
                self.width == old(self).width,
                self.height == old(self).height,
                y < self.height,
                x <= self.width,
                forall|x2: int, y2: int|
                    0 <= x2 < self.width && 0 <= y2 < self.height ==> #[trigger] self.cell_at(
                        x2, y2) == (if y2 == y as int && x as int <= x2 < x as int + i as int {
                        Cell { symbol: chars@[x2 - x as int], fg }
                    } else {
                        old(self).cell_at(x2, y2)
                    }),
            decreases chars@.len() - i,
        {
            let c = chars[i];
            self.set(x + (i as u16), y, Cell { symbol: c, fg });
            i = i + 1;
        }
    }
}

} // verus!
