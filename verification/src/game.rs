//! The live game: the grid plus the positions of Theseus, the Minotaur and
//! the goal, with the one-step move operations and the status check.

use vstd::prelude::*;
use crate::command::Command;
use crate::grid::Grid;
use crate::grid::GridV;
use crate::parse::BoardError;
use crate::parse::ScanSt;
use crate::parse::abs_st;
use crate::parse::chars_of;
use crate::parse::parse_spec;
use crate::parse::rows_rectangular;
use crate::parse::scan_cell;
use crate::parse::scan_lines;
use crate::parse::scan_row;
use crate::parse::spec_lines;
use crate::parse::split_lines;
use crate::parse::views_of;

verus! {

/// The outcome of a status check after a turn.
#[derive(Debug, Clone, Copy, PartialEq, Eq)]
pub enum GameStatus {
    Win,
    Lose,
    Continue,
}

/// Mathematical model of a game: the grid model and the three positions,
/// each a (row, column) pair.
pub ghost struct GameV {
    pub grid: GridV,
    pub theseus: (int, int),
    pub minotaur: (int, int),
    pub goal: (int, int),
}

impl GameV {
    /// The grid is well formed and all three positions are in bounds and
    /// never on a wall tile.
    pub open spec fn wf(self) -> bool {
        &&& self.grid.wf()
        &&& self.grid.in_bounds(self.theseus.0, self.theseus.1)
        &&& !self.grid.is_wall_at(self.theseus.0, self.theseus.1)
        &&& self.grid.in_bounds(self.minotaur.0, self.minotaur.1)
        &&& !self.grid.is_wall_at(self.minotaur.0, self.minotaur.1)
        &&& self.grid.in_bounds(self.goal.0, self.goal.1)
        &&& !self.grid.is_wall_at(self.goal.0, self.goal.1)
    }

    /// A tile a token may step onto: in bounds and not a wall.
    pub open spec fn open_tile(self, row: int, col: int) -> bool {
        self.grid.in_bounds(row, col) && !self.grid.is_wall_at(row, col)
    }

    /// The unit delta a command applies to (row, column).
    pub open spec fn delta(command: Command) -> (int, int) {
        match command {
            Command::Up => (-1int, 0int),
            Command::Down => (1int, 0int),
            Command::Left => (0int, -1int),
            Command::Right => (0int, 1int),
            Command::Skip => (0int, 0int),
        }
    }

    /// Where Theseus stands after a command: the candidate tile when it is
    /// open, the unchanged position otherwise (a blocked move is a no-op).
    pub open spec fn theseus_dest(self, command: Command) -> (int, int) {
        let d = Self::delta(command);
        let nr = self.theseus.0 + d.0;
        let nc = self.theseus.1 + d.1;
        if self.open_tile(nr, nc) {
            (nr, nc)
        } else {
            self.theseus
        }
    }

    /// Where the Minotaur stands after its greedy chase step: one step
    /// toward Theseus, horizontal first when the columns differ and that
    /// tile is open, else vertical when the rows differ and that tile is
    /// open, else staying put.
    pub open spec fn minotaur_dest(self) -> (int, int) {
        let tr = self.theseus.0;
        let tc = self.theseus.1;
        let mr = self.minotaur.0;
        let mc = self.minotaur.1;
        if tc < mc && self.open_tile(mr, mc - 1) {
            (mr, mc - 1)
        } else if tc > mc && self.open_tile(mr, mc + 1) {
            (mr, mc + 1)
        } else if tr < mr && self.open_tile(mr - 1, mc) {
            (mr - 1, mc)
        } else if tr > mr && self.open_tile(mr + 1, mc) {
            (mr + 1, mc)
        } else {
            (mr, mc)
        }
    }

    /// Lose when Theseus and the Minotaur share a tile (checked first),
    /// Win when Theseus stands on the goal tile, else Continue.
    pub open spec fn status_of(self) -> GameStatus {
        if self.theseus == self.minotaur {
            GameStatus::Lose
        } else if self.theseus == self.goal {
            GameStatus::Win
        } else {
            GameStatus::Continue
        }
    }

    /// A tile shown as empty: not Theseus, not the Minotaur, not a wall and
    /// not the goal. Occupancy overlays the static grid, so this is derived,
    /// not stored.
    pub open spec fn tile_is_empty(self, row: int, col: int) -> bool {
        &&& self.theseus != (row, col)
        &&& self.minotaur != (row, col)
        &&& !self.grid.is_wall_at(row, col)
        &&& !self.grid.is_goal_at(row, col)
    }
}

struct Pos {
    row: usize,
    col: usize,
}

/// The game state: the grid and the live positions. Built only by
/// `Game::from_board`, mutated only by the two move operations.
pub struct Game {
    grid: Grid,
    theseus: Pos,
    minotaur: Pos,
    goal: Pos,
}

impl View for Game {
    type V = GameV;

    closed spec fn view(&self) -> GameV {
        GameV {
            grid: self.grid@,
            theseus: (self.theseus.row as int, self.theseus.col as int),
            minotaur: (self.minotaur.row as int, self.minotaur.col as int),
            goal: (self.goal.row as int, self.goal.col as int),
        }
    }
}

/// A recorded marker position during parsing: in bounds for the rows and
/// columns scanned so far, with the stated tile character beneath it.
spec fn marker_at(p: Option<(usize, usize)>, w: int, height: int, cells: Seq<char>, ch: char) -> bool {
    match p {
        Some(q) => {
            &&& (q.0 as int) * w + (q.1 as int) < cells.len()
            &&& (q.0 as int) < height
            &&& (q.1 as int) < w
            &&& cells[(q.0 as int) * w + (q.1 as int)] == ch
        },
        None => true,
    }
}

impl Game {
    #[verifier::type_invariant]
    spec fn inv(self) -> bool {
        self@.wf()
    }

    /// Parses a board text into a validated game, or reports the first
    /// structural failure, exactly as `parse_spec` describes: every row's
    /// width is checked first, then the characters are scanned in order.
    #[verifier::loop_isolation(false)]
    pub fn from_board(board: &str) -> (r: Result<Game, BoardError>)
        ensures
            match r {
                Ok(game) => parse_spec(board@) == Ok::<GameV, BoardError>(game@) && game@.wf(),
                Err(e) => parse_spec(board@) == Err::<GameV, BoardError>(e),
            },
    {
        let ghost s = board@;
        let ghost ls = spec_lines(s);
        let cs = chars_of(board);
        let lines = split_lines(&cs);
        if lines.len() == 0 {
            return Err(BoardError::InvalidSize);
        }
        let width = lines[0].len();
        if width == 0 {
            return Err(BoardError::InvalidSize);
        }
        let height = lines.len();
        let ghost w: int = width as int;
        let mut ri: usize = 0;
        while ri < height
            invariant
                ri <= height,
                ls == views_of(lines@),
                ls.len() == height,
                lines@.len() == height,
                0 < w <= usize::MAX,
                w == width as int,
                ls[0].len() == w,
                forall|rr: int| 0 <= rr < ri ==> #[trigger] ls[rr].len() == w,
            decreases height - ri,
        {
            if lines[ri].len() != width {
                proof {
                    assert(!rows_rectangular(ls, w)) by {
                        assert(ls[ri as int] == lines@[ri as int]@);
                        assert(ls[ri as int].len() != w);
                    }
                }
                return Err(BoardError::InvalidSize);
            }
            ri += 1;
        }
        proof {
            assert(rows_rectangular(ls, w));
        }
        let mut cells: Vec<char> = Vec::new();
        let mut t_pos: Option<(usize, usize)> = None;
        let mut m_pos: Option<(usize, usize)> = None;
        let mut g_pos: Option<(usize, usize)> = None;
        proof {
            assert(abs_st(t_pos, m_pos, g_pos, cells@) == ScanSt::init());
        }
        let mut ri: usize = 0;
        while ri < height
            invariant
                ri <= height,
                ls == views_of(lines@),
                ls.len() == height,
                lines@.len() == height,
                0 < w <= usize::MAX,
                w == width as int,
                ls[0].len() == w,
                rows_rectangular(ls, w),
                scan_lines(ls, 0, ScanSt::init()) == scan_lines(
                    ls,
                    ri as int,
                    abs_st(t_pos, m_pos, g_pos, cells@),
                ),
                cells@.len() == ri as int * w,
                marker_at(t_pos, w, height as int, cells@, ' '),
                marker_at(m_pos, w, height as int, cells@, ' '),
                marker_at(g_pos, w, height as int, cells@, 'G'),
            decreases height - ri,
        {
            let line = &lines[ri];
            let ghost st_row: ScanSt = abs_st(t_pos, m_pos, g_pos, cells@);
            proof {
                assert(scan_lines(ls, ri as int, st_row) == (match scan_row(
                    ls[ri as int],
                    ri as int,
                    0,
                    st_row,
                ) {
                    Ok(st2) => scan_lines(ls, ri as int + 1, st2),
                    Err(e) => Err(e),
                }));
            }
            let mut ci: usize = 0;
            while ci < width
                invariant
                    ci <= width,
                    ri < height,
                    ls == views_of(lines@),
                    ls.len() == height,
                    lines@.len() == height,
                    0 < w <= usize::MAX,
                    w == width as int,
                    ls[0].len() == w,
                    line@ == ls[ri as int],
                    line@.len() == w,
                    scan_lines(ls, 0, ScanSt::init()) == (match scan_row(
                        ls[ri as int],
                        ri as int,
                        ci as int,
                        abs_st(t_pos, m_pos, g_pos, cells@),
                    ) {
                        Ok(st2) => scan_lines(ls, ri as int + 1, st2),
                        Err(e) => Err(e),
                    }),
                    cells@.len() == ri as int * w + ci as int,
                    marker_at(t_pos, w, height as int, cells@, ' '),
                    marker_at(m_pos, w, height as int, cells@, ' '),
                    marker_at(g_pos, w, height as int, cells@, 'G'),
                decreases width - ci,
            {
                let ch = line[ci];
                let ghost st0: ScanSt = abs_st(t_pos, m_pos, g_pos, cells@);
                proof {
                    assert(scan_row(ls[ri as int], ri as int, ci as int, st0) == (match scan_cell(
                        st0,
                        ri as int,
                        ci as int,
                        ch,
                    ) {
                        Ok(st2) => scan_row(ls[ri as int], ri as int, ci as int + 1, st2),
                        Err(e) => Err(e),
                    }));
                }
                if ch == 'X' {
                    cells.push('X');
                } else if ch == ' ' {
                    cells.push(' ');
                } else if ch == 'G' {
                    if g_pos.is_some() {
                        return Err(BoardError::MultipleGoal);
                    }
                    g_pos = Some((ri, ci));
                    cells.push('G');
                } else if ch == 'T' {
                    if t_pos.is_some() {
                        return Err(BoardError::MultipleTheseus);
                    }
                    t_pos = Some((ri, ci));
                    cells.push(' ');
                } else if ch == 'M' {
                    if m_pos.is_some() {
                        return Err(BoardError::MultipleMinotaur);
                    }
                    m_pos = Some((ri, ci));
                    cells.push(' ');
                } else {
                    return Err(BoardError::InvalidCharacter(ch));
                }
                proof {
                    assert(scan_cell(st0, ri as int, ci as int, ch) == Ok::<ScanSt, BoardError>(
                        abs_st(t_pos, m_pos, g_pos, cells@),
                    ));
                }
                ci += 1;
            }
            proof {
                assert((ri as int + 1) * w == ri as int * w + w) by (nonlinear_arith);
            }
            ri += 1;
        }
        let ghost st_end: ScanSt = abs_st(t_pos, m_pos, g_pos, cells@);
        proof {
            assert(scan_lines(ls, height as int, st_end) == Ok::<ScanSt, BoardError>(st_end));
        }
        let (t_row, t_col) = match t_pos {
            None => {
                return Err(BoardError::NoTheseus);
            },
            Some(p) => p,
        };
        let (m_row, m_col) = match m_pos {
            None => {
                return Err(BoardError::NoMinotaur);
            },
            Some(p) => p,
        };
        let (g_row, g_col) = match g_pos {
            None => {
                return Err(BoardError::NoGoal);
            },
            Some(p) => p,
        };
        proof {
            assert(height as int * w == w * height as int) by (nonlinear_arith);
        }
        let grid = Grid::new(width, height, cells);
        let game = Game {
            grid,
            theseus: Pos { row: t_row, col: t_col },
            minotaur: Pos { row: m_row, col: m_col },
            goal: Pos { row: g_row, col: g_col },
        };
        Ok(game)
    }

    fn open_tile_x(&self, row: usize, col: usize) -> (r: bool)
        ensures
            r == self@.open_tile(row as int, col as int),
    {
        self.grid.in_bounds(row, col) && !self.grid.is_wall(row, col)
    }

    /// Applies one command to Theseus: a step onto an out-of-bounds or wall
    /// tile is silently rejected and the position is unchanged.
    pub fn theseus_move(&mut self, command: Command)
        ensures
            old(self)@.wf(),
            final(self)@.wf(),
            final(self)@.grid == old(self)@.grid,
            final(self)@.goal == old(self)@.goal,
            final(self)@.minotaur == old(self)@.minotaur,
            final(self)@.theseus == old(self)@.theseus_dest(command),
    {
        proof {
            use_type_invariant(&*self);
        }
        let r0 = self.theseus.row;
        let c0 = self.theseus.col;
        let cand: Option<(usize, usize)> = match command {
            Command::Up => if r0 > 0 {
                Some((r0 - 1, c0))
            } else {
                None
            },
            Command::Down => Some((r0 + 1, c0)),
            Command::Left => if c0 > 0 {
                Some((r0, c0 - 1))
            } else {
                None
            },
            Command::Right => Some((r0, c0 + 1)),
            Command::Skip => Some((r0, c0)),
        };
        if let Some((nr, nc)) = cand {
            if self.open_tile_x(nr, nc) {
                self.theseus = Pos { row: nr, col: nc };
            }
        }
    }

    /// Advances the Minotaur by its greedy chase step: horizontal toward
    /// Theseus when possible, else vertical, else it stays put.
    pub fn minotaur_move(&mut self)
        ensures
            old(self)@.wf(),
            final(self)@.wf(),
            final(self)@.grid == old(self)@.grid,
            final(self)@.goal == old(self)@.goal,
            final(self)@.theseus == old(self)@.theseus,
            final(self)@.minotaur == old(self)@.minotaur_dest(),
    {
        proof {
            use_type_invariant(&*self);
        }
        let tr = self.theseus.row;
        let tc = self.theseus.col;
        let mr = self.minotaur.row;
        let mc = self.minotaur.col;
        if tc < mc {
            if self.open_tile_x(mr, mc - 1) {
                self.minotaur = Pos { row: mr, col: mc - 1 };
                return ;
            }
        } else if tc > mc {
            if self.open_tile_x(mr, mc + 1) {
                self.minotaur = Pos { row: mr, col: mc + 1 };
                return ;
            }
        }
        if tr < mr {
            if self.open_tile_x(mr - 1, mc) {
                self.minotaur = Pos { row: mr - 1, col: mc };
                return ;
            }
        } else if tr > mr {
            if self.open_tile_x(mr + 1, mc) {
                self.minotaur = Pos { row: mr + 1, col: mc };
                return ;
            }
        }
    }

    /// The status computed fresh from the current positions.
    pub fn status(&self) -> (r: GameStatus)
        ensures
            r == self@.status_of(),
    {
        if self.theseus.row == self.minotaur.row && self.theseus.col == self.minotaur.col {
            return GameStatus::Lose;
        }
        if self.theseus.row == self.goal.row && self.theseus.col == self.goal.col {
            return GameStatus::Win;
        }
        GameStatus::Continue
    }

    /// Returns true if the given position is Theseus
    pub fn is_theseus(&self, row: usize, col: usize) -> (r: bool)
        ensures
            r == (self@.theseus == (row as int, col as int)),
    {
        self.theseus.row == row && self.theseus.col == col
    }

    /// Returns true if the given position is Minotaur
    pub fn is_minotaur(&self, row: usize, col: usize) -> (r: bool)
        ensures
            r == (self@.minotaur == (row as int, col as int)),
    {
        self.minotaur.row == row && self.minotaur.col == col
    }

    /// Returns true if the given position is a wall
    pub fn is_wall(&self, row: usize, col: usize) -> (r: bool)
        ensures
            r == self@.grid.is_wall_at(row as int, col as int),
    {
        self.grid.is_wall(row, col)
    }

    /// Returns true if the given position is the goal
    pub fn is_goal(&self, row: usize, col: usize) -> (r: bool)
        ensures
            r == self@.grid.is_goal_at(row as int, col as int),
    {
        self.grid.is_goal(row, col)
    }

    /// Returns true if the given position is empty
    pub fn is_empty(&self, row: usize, col: usize) -> (r: bool)
        ensures
            r == self@.tile_is_empty(row as int, col as int),
    {
        !self.is_theseus(row, col) && !self.is_minotaur(row, col) && !self.is_wall(row, col)
            && !self.is_goal(row, col)
    }

    /// The grid width, for a renderer walking the tiles.
    pub fn width(&self) -> (r: usize)
        ensures
            r == self@.grid.width,
    {
        self.grid.width()
    }

    /// The grid height, for a renderer walking the tiles.
    pub fn height(&self) -> (r: usize)
        ensures
            r == self@.grid.height,
    {
        self.grid.height()
    }
}

} // verus!
