//! The static maze map: a rectangular, row-major sheet of tiles.

use vstd::prelude::*;

verus! {

/// Mathematical model of a grid: its dimensions and the row-major tile
/// characters ('X' wall, ' ' empty floor, 'G' goal).
pub ghost struct GridV {
    pub width: int,
    pub height: int,
    pub cells: Seq<char>,
}

impl GridV {
    /// A grid is well formed when its dimensions are machine-representable
    /// and it stores exactly `width * height` tiles.
    pub open spec fn wf(self) -> bool {
        &&& 0 <= self.width <= usize::MAX
        &&& 0 <= self.height <= usize::MAX
        &&& self.cells.len() == self.width * self.height
    }

    pub open spec fn in_bounds(self, row: int, col: int) -> bool {
        0 <= row < self.height && 0 <= col < self.width
    }

    /// The tile character stored at (row, col); meaningful only in bounds.
    pub open spec fn cell(self, row: int, col: int) -> char {
        self.cells[row * self.width + col]
    }

    pub open spec fn is_wall_at(self, row: int, col: int) -> bool {
        self.in_bounds(row, col) && self.cell(row, col) == 'X'
    }

    pub open spec fn is_goal_at(self, row: int, col: int) -> bool {
        self.in_bounds(row, col) && self.cell(row, col) == 'G'
    }

    pub open spec fn is_empty_at(self, row: int, col: int) -> bool {
        self.in_bounds(row, col) && self.cell(row, col) == ' '
    }
}

/// Immutable-after-construction 2-D tile map with bounds-checked accessors.
pub struct Grid {
    width: usize,
    height: usize,
    cells: Vec<char>,
}

impl View for Grid {
    type V = GridV;

    closed spec fn view(&self) -> GridV {
        GridV {
            width: self.width as int,
            height: self.height as int,
            cells: self.cells@,
        }
    }
}

impl Grid {
    #[verifier::type_invariant]
    spec fn inv(self) -> bool {
        self@.wf()
    }

    /// Builds a grid from its dimensions and the dense row-major tile vector,
    /// which must hold exactly one character per tile.
    pub fn new(width: usize, height: usize, cells: Vec<char>) -> (r: Grid)
        requires
            cells@.len() == width * height,
        ensures
            r@ == (GridV { width: width as int, height: height as int, cells: cells@ }),
    {
        Grid { width, height, cells }
    }

    pub fn width(&self) -> (r: usize)
        ensures
            r == self@.width,
    {
        self.width
    }

    pub fn height(&self) -> (r: usize)
        ensures
            r == self@.height,
    {
        self.height
    }

    pub(crate) fn in_bounds(&self, row: usize, col: usize) -> (r: bool)
        ensures
            r == self@.in_bounds(row as int, col as int),
    {
        row < self.height && col < self.width
    }

    fn idx(&self, row: usize, col: usize) -> (r: Option<usize>)
        ensures
            match r {
                Some(i) => self@.in_bounds(row as int, col as int)
                    && i == row as int * self@.width + col as int
                    && i < self@.cells.len(),
                None => !self@.in_bounds(row as int, col as int),
            },
    {
        proof {
            use_type_invariant(&*self);
        }
        if self.in_bounds(row, col) {
            let len = self.cells.len();
            proof {
                let ri = row as int;
                let ci = col as int;
                let w = self.width as int;
                let h = self.height as int;
                assert(ri * w + ci < w * h) by (nonlinear_arith)
                    requires
                        0 <= ri < h,
                        0 <= ci < w,
                ;
                assert(ri * w + ci < len);
            }
            Some(row * self.width + col)
        } else {
            None
        }
    }

    /// Bounds-checked lookup: the tile character in bounds, `None` outside.
    pub fn get(&self, row: usize, col: usize) -> (r: Option<char>)
        ensures
            r == if self@.in_bounds(row as int, col as int) {
                Some(self@.cell(row as int, col as int))
            } else {
                None::<char>
            },
    {
        match self.idx(row, col) {
            Some(i) => Some(self.cells[i]),
            None => None,
        }
    }

    pub fn is_wall(&self, row: usize, col: usize) -> (r: bool)
        ensures
            r == self@.is_wall_at(row as int, col as int),
    {
        match self.get(row, col) {
            Some(c) => c == 'X',
            None => false,
        }
    }

    pub fn is_goal(&self, row: usize, col: usize) -> (r: bool)
        ensures
            r == self@.is_goal_at(row as int, col as int),
    {
        match self.get(row, col) {
            Some(c) => c == 'G',
            None => false,
        }
    }

    pub fn is_empty(&self, row: usize, col: usize) -> (r: bool)
        ensures
            r == self@.is_empty_at(row as int, col as int),
    {
        match self.get(row, col) {
            Some(c) => c == ' ',
            None => false,
        }
    }
}

} // verus!
