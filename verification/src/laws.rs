//! The general laws of the library, stated and proved once for all inputs:
//! how moves behave at walls and edges, the Minotaur's chase priority, the
//! status precedence, and what parsing guarantees.

use vstd::prelude::*;
use crate::command::Command;
use crate::game::GameStatus;
use crate::game::GameV;
use crate::parse::BoardError;
use crate::parse::ScanSt;
use crate::parse::parse_spec;
use crate::parse::rows_rectangular;
use crate::parse::scan_cell;
use crate::parse::scan_lines;
use crate::parse::scan_row;
use crate::parse::spec_lines;

verus! {

/// The board alphabet: wall, floor, goal, Theseus, Minotaur.
pub open spec fn valid_char(c: char) -> bool {
    c == 'X' || c == ' ' || c == 'G' || c == 'T' || c == 'M'
}

/// The static tile a scanned character lays down: the markers for Theseus
/// and the Minotaur leave plain floor behind, the goal keeps its tile.
pub open spec fn cell_of(c: char) -> char {
    if c == 'X' {
        'X'
    } else if c == 'G' {
        'G'
    } else {
        ' '
    }
}

/// 1 when a marker has been recorded, else 0.
pub open spec fn opt_n(o: Option<(int, int)>) -> int {
    match o {
        Some(_) => 1,
        None => 0,
    }
}

/// How often `ch` occurs in `line` from column `c` on.
pub open spec fn cnt_from(line: Seq<char>, c: int, ch: char) -> int
    decreases line.len() - c,
{
    if c < 0 || c >= line.len() {
        0
    } else {
        (if line[c] == ch {
            1int
        } else {
            0int
        }) + cnt_from(line, c + 1, ch)
    }
}

/// How often `ch` occurs in the rows of `ls` from row `r` on.
pub open spec fn cnt_rows(ls: Seq<Seq<char>>, r: int, ch: char) -> int
    decreases ls.len() - r,
{
    if r < 0 || r >= ls.len() {
        0
    } else {
        cnt_from(ls[r], 0, ch) + cnt_rows(ls, r + 1, ch)
    }
}

proof fn lemma_cnt_from_nonneg(line: Seq<char>, c: int, ch: char)
    ensures
        cnt_from(line, c, ch) >= 0,
    decreases line.len() - c,
{
    if 0 <= c < line.len() {
        lemma_cnt_from_nonneg(line, c + 1, ch);
    }
}

proof fn lemma_cnt_rows_nonneg(ls: Seq<Seq<char>>, r: int, ch: char)
    ensures
        cnt_rows(ls, r, ch) >= 0,
    decreases ls.len() - r,
{
    if 0 <= r < ls.len() {
        lemma_cnt_from_nonneg(ls[r], 0, ch);
        lemma_cnt_rows_nonneg(ls, r + 1, ch);
    }
}

/// How often `ch` occurs in the rows of `ls` from row `r` up to row `r0`.
pub open spec fn cnt_rows_upto(ls: Seq<Seq<char>>, r: int, r0: int, ch: char) -> int
    decreases r0 - r,
{
    if r < 0 || r >= r0 || r >= ls.len() {
        0
    } else {
        cnt_from(ls[r], 0, ch) + cnt_rows_upto(ls, r + 1, r0, ch)
    }
}

/// A board text of the right shape: at least one row, a nonzero width,
/// rectangular rows, only alphabet characters.
pub open spec fn board_shape_ok(s: Seq<char>) -> bool {
    let ls = spec_lines(s);
    &&& ls.len() > 0
    &&& ls[0].len() > 0
    &&& forall|r: int| 0 <= r < ls.len() ==> #[trigger] ls[r].len() == ls[0].len()
    &&& forall|r: int, j: int|
        0 <= r < ls.len() && 0 <= j < ls[0].len() ==> valid_char(#[trigger] ls[r][j])
}

/// A structurally valid board text: the right shape with exactly one of
/// each marker.
pub open spec fn board_wf(s: Seq<char>) -> bool {
    let ls = spec_lines(s);
    &&& board_shape_ok(s)
    &&& cnt_rows(ls, 0, 'T') == 1
    &&& cnt_rows(ls, 0, 'M') == 1
    &&& cnt_rows(ls, 0, 'G') == 1
}

/// Scanning a row whose remaining characters are all valid and whose
/// markers stay within their budget of one succeeds, lays down exactly the
/// mapped tiles, and records each marker where the text shows it.
proof fn lemma_scan_row_ok(line: Seq<char>, r: int, c: int, st: ScanSt)
    requires
        0 <= c <= line.len(),
        forall|j: int| c <= j < line.len() ==> valid_char(#[trigger] line[j]),
        opt_n(st.t) + cnt_from(line, c, 'T') <= 1,
        opt_n(st.m) + cnt_from(line, c, 'M') <= 1,
        opt_n(st.g) + cnt_from(line, c, 'G') <= 1,
    ensures
        scan_row(line, r, c, st) is Ok,
        scan_row(line, r, c, st) matches Ok(st2) ==> {
            &&& st2.cells.len() == st.cells.len() + (line.len() - c)
            &&& forall|i: int| 0 <= i < st.cells.len() ==> st2.cells[i] == st.cells[i]
            &&& forall|j: int|
                c <= j < line.len() ==> st2.cells[st.cells.len() + (j - c)] == cell_of(
                    #[trigger] line[j],
                )
            &&& opt_n(st2.t) == opt_n(st.t) + cnt_from(line, c, 'T')
            &&& opt_n(st2.m) == opt_n(st.m) + cnt_from(line, c, 'M')
            &&& opt_n(st2.g) == opt_n(st.g) + cnt_from(line, c, 'G')
            &&& (cnt_from(line, c, 'T') == 0 ==> st2.t == st.t)
            &&& (cnt_from(line, c, 'M') == 0 ==> st2.m == st.m)
            &&& (cnt_from(line, c, 'G') == 0 ==> st2.g == st.g)
            &&& (cnt_from(line, c, 'T') == 1 ==> exists|j: int|
                c <= j < line.len() && #[trigger] line[j] == 'T' && st2.t == Some((r, j)))
            &&& (cnt_from(line, c, 'M') == 1 ==> exists|j: int|
                c <= j < line.len() && #[trigger] line[j] == 'M' && st2.m == Some((r, j)))
            &&& (cnt_from(line, c, 'G') == 1 ==> exists|j: int|
                c <= j < line.len() && #[trigger] line[j] == 'G' && st2.g == Some((r, j)))
        },
    decreases line.len() - c,
{
    if c >= line.len() {
    } else {
        let ch = line[c];
        assert(valid_char(ch));
        lemma_cnt_from_nonneg(line, c + 1, 'T');
        lemma_cnt_from_nonneg(line, c + 1, 'M');
        lemma_cnt_from_nonneg(line, c + 1, 'G');
        assert(scan_cell(st, r, c, ch) is Ok);
        let st1 = scan_cell(st, r, c, ch)->Ok_0;
        lemma_scan_row_ok(line, r, c + 1, st1);
        let st2 = scan_row(line, r, c + 1, st1)->Ok_0;
        assert(scan_row(line, r, c, st) == scan_row(line, r, c + 1, st1));
        assert(st1.cells == st.cells.push(cell_of(ch)));
        assert forall|j: int| c <= j < line.len() implies st2.cells[st.cells.len() + (j - c)]
            == cell_of(#[trigger] line[j]) by {
            if j == c {
                assert(st2.cells[st1.cells.len() - 1] == st1.cells[st1.cells.len() - 1]);
            } else {
                assert(st2.cells[st1.cells.len() + (j - (c + 1))] == cell_of(line[j]));
            }
        }
        if cnt_from(line, c, 'T') == 1 {
            if ch == 'T' {
                assert(line[c] == 'T' && st2.t == Some((r, c)));
            } else {
                let j0 = choose|j: int|
                    c + 1 <= j < line.len() && #[trigger] line[j] == 'T' && st2.t == Some((r, j));
                assert(c <= j0 < line.len() && line[j0] == 'T' && st2.t == Some((r, j0)));
            }
        }
        if cnt_from(line, c, 'M') == 1 {
            if ch == 'M' {
                assert(line[c] == 'M' && st2.m == Some((r, c)));
            } else {
                let j0 = choose|j: int|
                    c + 1 <= j < line.len() && #[trigger] line[j] == 'M' && st2.m == Some((r, j));
                assert(c <= j0 < line.len() && line[j0] == 'M' && st2.m == Some((r, j0)));
            }
        }
        if cnt_from(line, c, 'G') == 1 {
            if ch == 'G' {
                assert(line[c] == 'G' && st2.g == Some((r, c)));
            } else {
                let j0 = choose|j: int|
                    c + 1 <= j < line.len() && #[trigger] line[j] == 'G' && st2.g == Some((r, j));
                assert(c <= j0 < line.len() && line[j0] == 'G' && st2.g == Some((r, j0)));
            }
        }
    }
}

/// Scanning rows that are rectangular, drawn from the alphabet and whose
/// markers stay within their budget of one succeeds; the tiles laid down
/// are the mapped characters in row-major order, and each marker is
/// recorded at the position where the text shows it.
proof fn lemma_scan_lines_ok(ls: Seq<Seq<char>>, w: int, r: int, st: ScanSt)
    requires
        0 <= r <= ls.len(),
        0 <= w,
        forall|rr: int| r <= rr < ls.len() ==> #[trigger] ls[rr].len() == w,
        forall|rr: int, j: int|
            r <= rr < ls.len() && 0 <= j < w ==> valid_char(#[trigger] ls[rr][j]),
        opt_n(st.t) + cnt_rows(ls, r, 'T') <= 1,
        opt_n(st.m) + cnt_rows(ls, r, 'M') <= 1,
        opt_n(st.g) + cnt_rows(ls, r, 'G') <= 1,
    ensures
        scan_lines(ls, r, st) is Ok,
        scan_lines(ls, r, st) matches Ok(st2) ==> {
            &&& st2.cells.len() == st.cells.len() + (ls.len() - r) * w
            &&& forall|i: int| 0 <= i < st.cells.len() ==> st2.cells[i] == st.cells[i]
            &&& forall|rr: int, j: int|
                r <= rr < ls.len() && 0 <= j < w ==> st2.cells[st.cells.len() + (rr - r) * w + j]
                    == cell_of(#[trigger] ls[rr][j])
            &&& opt_n(st2.t) == opt_n(st.t) + cnt_rows(ls, r, 'T')
            &&& opt_n(st2.m) == opt_n(st.m) + cnt_rows(ls, r, 'M')
            &&& opt_n(st2.g) == opt_n(st.g) + cnt_rows(ls, r, 'G')
            &&& (cnt_rows(ls, r, 'T') == 0 ==> st2.t == st.t)
            &&& (cnt_rows(ls, r, 'M') == 0 ==> st2.m == st.m)
            &&& (cnt_rows(ls, r, 'G') == 0 ==> st2.g == st.g)
            &&& (cnt_rows(ls, r, 'T') == 1 ==> exists|rr: int, j: int|
                r <= rr < ls.len() && 0 <= j < w && #[trigger] ls[rr][j] == 'T' && st2.t == Some(
                    (rr, j),
                ))
            &&& (cnt_rows(ls, r, 'M') == 1 ==> exists|rr: int, j: int|
                r <= rr < ls.len() && 0 <= j < w && #[trigger] ls[rr][j] == 'M' && st2.m == Some(
                    (rr, j),
                ))
            &&& (cnt_rows(ls, r, 'G') == 1 ==> exists|rr: int, j: int|
                r <= rr < ls.len() && 0 <= j < w && #[trigger] ls[rr][j] == 'G' && st2.g == Some(
                    (rr, j),
                ))
        },
    decreases ls.len() - r,
{
    if r >= ls.len() {
        assert((ls.len() - r) * w == 0) by (nonlinear_arith)
            requires
                ls.len() == r,
        ;
    } else {
        let line = ls[r];
        lemma_cnt_from_nonneg(line, 0, 'T');
        lemma_cnt_from_nonneg(line, 0, 'M');
        lemma_cnt_from_nonneg(line, 0, 'G');
        lemma_cnt_rows_nonneg(ls, r + 1, 'T');
        lemma_cnt_rows_nonneg(ls, r + 1, 'M');
        lemma_cnt_rows_nonneg(ls, r + 1, 'G');
        lemma_scan_row_ok(line, r, 0, st);
        let st1 = scan_row(line, r, 0, st)->Ok_0;
        lemma_scan_lines_ok(ls, w, r + 1, st1);
        let st2 = scan_lines(ls, r + 1, st1)->Ok_0;
        assert(scan_lines(ls, r, st) == scan_lines(ls, r + 1, st1));
        assert(st1.cells.len() == st.cells.len() + w);
        assert(st2.cells.len() == st.cells.len() + (ls.len() - r) * w) by {
            assert((ls.len() - r) * w == w + (ls.len() - (r + 1)) * w) by (nonlinear_arith);
        }
        assert forall|rr: int, j: int| r <= rr < ls.len() && 0 <= j < w implies st2.cells[st.cells.len()
            + (rr - r) * w + j] == cell_of(#[trigger] ls[rr][j]) by {
            if rr == r {
                assert((rr - r) * w == 0) by (nonlinear_arith)
                    requires
                        rr == r,
                ;
                assert(st1.cells[st.cells.len() + j] == cell_of(line[j]));
                assert(st2.cells[st.cells.len() + j] == st1.cells[st.cells.len() + j]);
            } else {
                assert(st2.cells[st1.cells.len() + (rr - (r + 1)) * w + j] == cell_of(ls[rr][j]));
                assert((rr - r) * w == w + (rr - (r + 1)) * w) by (nonlinear_arith);
            }
        }
        if cnt_rows(ls, r, 'T') == 1 {
            if cnt_from(line, 0, 'T') == 1 {
                let j0 = choose|j: int|
                    0 <= j < line.len() && #[trigger] line[j] == 'T' && st1.t == Some((r, j));
                assert(r <= r < ls.len() && 0 <= j0 < w && ls[r][j0] == 'T' && st2.t == Some(
                    (r, j0),
                ));
            } else {
                let (r0, j0) = choose|rr: int, j: int|
                    r + 1 <= rr < ls.len() && 0 <= j < w && #[trigger] ls[rr][j] == 'T' && st2.t
                        == Some((rr, j));
                assert(r <= r0 < ls.len() && 0 <= j0 < w && ls[r0][j0] == 'T' && st2.t == Some(
                    (r0, j0),
                ));
            }
        }
        if cnt_rows(ls, r, 'M') == 1 {
            if cnt_from(line, 0, 'M') == 1 {
                let j0 = choose|j: int|
                    0 <= j < line.len() && #[trigger] line[j] == 'M' && st1.m == Some((r, j));
                assert(r <= r < ls.len() && 0 <= j0 < w && ls[r][j0] == 'M' && st2.m == Some(
                    (r, j0),
                ));
            } else {
                let (r0, j0) = choose|rr: int, j: int|
                    r + 1 <= rr < ls.len() && 0 <= j < w && #[trigger] ls[rr][j] == 'M' && st2.m
                        == Some((rr, j));
                assert(r <= r0 < ls.len() && 0 <= j0 < w && ls[r0][j0] == 'M' && st2.m == Some(
                    (r0, j0),
                ));
            }
        }
        if cnt_rows(ls, r, 'G') == 1 {
            if cnt_from(line, 0, 'G') == 1 {
                let j0 = choose|j: int|
                    0 <= j < line.len() && #[trigger] line[j] == 'G' && st1.g == Some((r, j));
                assert(r <= r < ls.len() && 0 <= j0 < w && ls[r][j0] == 'G' && st2.g == Some(
                    (r, j0),
                ));
            } else {
                let (r0, j0) = choose|rr: int, j: int|
                    r + 1 <= rr < ls.len() && 0 <= j < w && #[trigger] ls[rr][j] == 'G' && st2.g
                        == Some((rr, j));
                assert(r <= r0 < ls.len() && 0 <= j0 < w && ls[r0][j0] == 'G' && st2.g == Some(
                    (r0, j0),
                ));
            }
        }
    }
}

/// Any board text with rectangular rows over the alphabet and exactly one
/// of each marker parses successfully, and the resulting game model has all
/// three positions in bounds and off the walls, with the goal position on
/// the goal tile.
pub proof fn lemma_parse_valid(s: Seq<char>)
    requires
        board_wf(s),
    ensures
        parse_spec(s) is Ok,
        parse_spec(s) matches Ok(g) ==> {
            &&& g.grid.cells.len() == g.grid.width * g.grid.height
            &&& g.grid.in_bounds(g.theseus.0, g.theseus.1)
            &&& !g.grid.is_wall_at(g.theseus.0, g.theseus.1)
            &&& g.grid.in_bounds(g.minotaur.0, g.minotaur.1)
            &&& !g.grid.is_wall_at(g.minotaur.0, g.minotaur.1)
            &&& g.grid.in_bounds(g.goal.0, g.goal.1)
            &&& !g.grid.is_wall_at(g.goal.0, g.goal.1)
            &&& g.grid.is_goal_at(g.goal.0, g.goal.1)
        },
{
    let ls = spec_lines(s);
    let w = ls[0].len() as int;
    assert(rows_rectangular(ls, w));
    lemma_scan_lines_ok(ls, w, 0, ScanSt::init());
    let st2 = scan_lines(ls, 0, ScanSt::init())->Ok_0;
    let g = parse_spec(s)->Ok_0;
    assert(g.grid.cells.len() == ls.len() * w);
    assert(g.grid.width * g.grid.height == ls.len() * w) by (nonlinear_arith)
        requires
            g.grid.width == w,
            g.grid.height == ls.len(),
    ;
    let (tr, tc) = choose|rr: int, j: int|
        0 <= rr < ls.len() && 0 <= j < w && #[trigger] ls[rr][j] == 'T' && st2.t == Some((rr, j));
    let (mr, mc) = choose|rr: int, j: int|
        0 <= rr < ls.len() && 0 <= j < w && #[trigger] ls[rr][j] == 'M' && st2.m == Some((rr, j));
    let (gr, gc) = choose|rr: int, j: int|
        0 <= rr < ls.len() && 0 <= j < w && #[trigger] ls[rr][j] == 'G' && st2.g == Some((rr, j));
    assert(st2.cells[(tr - 0) * w + tc] == cell_of(ls[tr][tc]));
    assert(st2.cells[(mr - 0) * w + mc] == cell_of(ls[mr][mc]));
    assert(st2.cells[(gr - 0) * w + gc] == cell_of(ls[gr][gc]));
    assert(g.grid.cell(tr, tc) == ' ');
    assert(g.grid.cell(mr, mc) == ' ');
    assert(g.grid.cell(gr, gc) == 'G');
}

/// A scan over rows that are rectangular, valid and within marker budget up
/// to row `r0` arrives at row `r0` in some intermediate state.
/// A scan over rows that are valid and within marker budget up to row `r0`
/// arrives at row `r0` in a state holding exactly the markers seen so far.
proof fn lemma_scan_reaches(ls: Seq<Seq<char>>, r: int, r0: int, st: ScanSt)
    requires
        0 <= r <= r0 <= ls.len(),
        forall|rr: int, j: int|
            r <= rr < r0 && 0 <= j < ls[rr].len() ==> valid_char(#[trigger] ls[rr][j]),
        opt_n(st.t) + cnt_rows_upto(ls, r, r0, 'T') <= 1,
        opt_n(st.m) + cnt_rows_upto(ls, r, r0, 'M') <= 1,
        opt_n(st.g) + cnt_rows_upto(ls, r, r0, 'G') <= 1,
    ensures
        exists|stm: ScanSt| {
            &&& scan_lines(ls, r, st) == scan_lines(ls, r0, stm)
            &&& opt_n(stm.t) == opt_n(st.t) + cnt_rows_upto(ls, r, r0, 'T')
            &&& opt_n(stm.m) == opt_n(st.m) + cnt_rows_upto(ls, r, r0, 'M')
            &&& opt_n(stm.g) == opt_n(st.g) + cnt_rows_upto(ls, r, r0, 'G')
        },
    decreases r0 - r,
{
    if r == r0 {
        assert(scan_lines(ls, r, st) == scan_lines(ls, r0, st) && opt_n(st.t) == opt_n(st.t)
            + cnt_rows_upto(ls, r, r0, 'T') && opt_n(st.m) == opt_n(st.m) + cnt_rows_upto(
            ls,
            r,
            r0,
            'M',
        ) && opt_n(st.g) == opt_n(st.g) + cnt_rows_upto(ls, r, r0, 'G'));
    } else {
        let line = ls[r];
        lemma_cnt_from_nonneg(line, 0, 'T');
        lemma_cnt_from_nonneg(line, 0, 'M');
        lemma_cnt_from_nonneg(line, 0, 'G');
        lemma_cnt_rows_upto_nonneg(ls, r + 1, r0, 'T');
        lemma_cnt_rows_upto_nonneg(ls, r + 1, r0, 'M');
        lemma_cnt_rows_upto_nonneg(ls, r + 1, r0, 'G');
        lemma_scan_row_ok(line, r, 0, st);
        let st1 = scan_row(line, r, 0, st)->Ok_0;
        assert(scan_lines(ls, r, st) == scan_lines(ls, r + 1, st1));
        lemma_scan_reaches(ls, r + 1, r0, st1);
        let stm = choose|stm: ScanSt| {
            &&& scan_lines(ls, r + 1, st1) == scan_lines(ls, r0, stm)
            &&& opt_n(stm.t) == opt_n(st1.t) + cnt_rows_upto(ls, r + 1, r0, 'T')
            &&& opt_n(stm.m) == opt_n(st1.m) + cnt_rows_upto(ls, r + 1, r0, 'M')
            &&& opt_n(stm.g) == opt_n(st1.g) + cnt_rows_upto(ls, r + 1, r0, 'G')
        };
        assert(scan_lines(ls, r, st) == scan_lines(ls, r0, stm) && opt_n(stm.t) == opt_n(st.t)
            + cnt_rows_upto(ls, r, r0, 'T') && opt_n(stm.m) == opt_n(st.m) + cnt_rows_upto(
            ls,
            r,
            r0,
            'M',
        ) && opt_n(stm.g) == opt_n(st.g) + cnt_rows_upto(ls, r, r0, 'G'));
    }
}

proof fn lemma_cnt_rows_upto_nonneg(ls: Seq<Seq<char>>, r: int, r0: int, ch: char)
    ensures
        cnt_rows_upto(ls, r, r0, ch) >= 0,
    decreases r0 - r,
{
    if 0 <= r && r < r0 && r < ls.len() {
        lemma_cnt_from_nonneg(ls[r], 0, ch);
        lemma_cnt_rows_upto_nonneg(ls, r + 1, r0, ch);
    }
}

/// A row whose length differs from row 0's fails the parse with
/// InvalidSize, whatever else the board holds: every width check precedes
/// the character scan.
pub proof fn lemma_parse_row_mismatch(s: Seq<char>, r0: int)
    requires
        spec_lines(s).len() > 0,
        spec_lines(s)[0].len() > 0,
        0 <= r0 < spec_lines(s).len(),
        spec_lines(s)[r0].len() != spec_lines(s)[0].len(),
    ensures
        parse_spec(s) == Err::<GameV, BoardError>(BoardError::InvalidSize),
{
    let ls = spec_lines(s);
    let w = ls[0].len() as int;
    assert(!rows_rectangular(ls, w)) by {
        assert(ls[r0].len() != w);
    }
}

/// How often `ch` occurs in `line` at columns `c` up to column `c2`.
pub open spec fn cnt_cols_upto(line: Seq<char>, c: int, c2: int, ch: char) -> int
    decreases c2 - c,
{
    if c < 0 || c >= c2 || c >= line.len() {
        0
    } else {
        (if line[c] == ch {
            1int
        } else {
            0int
        }) + cnt_cols_upto(line, c + 1, c2, ch)
    }
}

proof fn lemma_cnt_cols_upto_nonneg(line: Seq<char>, c: int, c2: int, ch: char)
    ensures
        cnt_cols_upto(line, c, c2, ch) >= 0,
    decreases c2 - c,
{
    if 0 <= c && c < c2 && c < line.len() {
        lemma_cnt_cols_upto_nonneg(line, c + 1, c2, ch);
    }
}

/// A scan along a row that is valid and within marker budget up to column
/// `c2` arrives at column `c2` in a state holding exactly the markers seen
/// so far.
proof fn lemma_scan_row_reaches(line: Seq<char>, r: int, c: int, c2: int, st: ScanSt)
    requires
        0 <= c <= c2 <= line.len(),
        forall|j: int| c <= j < c2 ==> valid_char(#[trigger] line[j]),
        opt_n(st.t) + cnt_cols_upto(line, c, c2, 'T') <= 1,
        opt_n(st.m) + cnt_cols_upto(line, c, c2, 'M') <= 1,
        opt_n(st.g) + cnt_cols_upto(line, c, c2, 'G') <= 1,
    ensures
        exists|st1: ScanSt| {
            &&& scan_row(line, r, c, st) == scan_row(line, r, c2, st1)
            &&& opt_n(st1.t) == opt_n(st.t) + cnt_cols_upto(line, c, c2, 'T')
            &&& opt_n(st1.m) == opt_n(st.m) + cnt_cols_upto(line, c, c2, 'M')
            &&& opt_n(st1.g) == opt_n(st.g) + cnt_cols_upto(line, c, c2, 'G')
        },
    decreases c2 - c,
{
    if c == c2 {
        assert(scan_row(line, r, c, st) == scan_row(line, r, c2, st) && opt_n(st.t) == opt_n(st.t)
            + cnt_cols_upto(line, c, c2, 'T') && opt_n(st.m) == opt_n(st.m) + cnt_cols_upto(
            line,
            c,
            c2,
            'M',
        ) && opt_n(st.g) == opt_n(st.g) + cnt_cols_upto(line, c, c2, 'G'));
    } else {
        let ch = line[c];
        lemma_cnt_cols_upto_nonneg(line, c + 1, c2, 'T');
        lemma_cnt_cols_upto_nonneg(line, c + 1, c2, 'M');
        lemma_cnt_cols_upto_nonneg(line, c + 1, c2, 'G');
        assert(scan_cell(st, r, c, ch) is Ok);
        let stn = scan_cell(st, r, c, ch)->Ok_0;
        assert(scan_row(line, r, c, st) == scan_row(line, r, c + 1, stn));
        lemma_scan_row_reaches(line, r, c + 1, c2, stn);
        let st1 = choose|st1: ScanSt| {
            &&& scan_row(line, r, c + 1, stn) == scan_row(line, r, c2, st1)
            &&& opt_n(st1.t) == opt_n(stn.t) + cnt_cols_upto(line, c + 1, c2, 'T')
            &&& opt_n(st1.m) == opt_n(stn.m) + cnt_cols_upto(line, c + 1, c2, 'M')
            &&& opt_n(st1.g) == opt_n(stn.g) + cnt_cols_upto(line, c + 1, c2, 'G')
        };
        assert(scan_row(line, r, c, st) == scan_row(line, r, c2, st1) && opt_n(st1.t) == opt_n(
            st.t,
        ) + cnt_cols_upto(line, c, c2, 'T') && opt_n(st1.m) == opt_n(st.m) + cnt_cols_upto(
            line,
            c,
            c2,
            'M',
        ) && opt_n(st1.g) == opt_n(st.g) + cnt_cols_upto(line, c, c2, 'G'));
    }
}

/// A rectangular board with a goal marker at (r2, c2), exactly one goal
/// marker earlier in scan order, and a clean scanned prefix before (r2, c2)
/// (alphabet characters, at most one Theseus and one Minotaur marker) fails
/// with MultipleGoal: the error is reported at the second occurrence,
/// whatever follows it.
pub proof fn lemma_parse_multiple_goal(s: Seq<char>, r2: int, c2: int)
    requires
        spec_lines(s).len() > 0,
        spec_lines(s)[0].len() > 0,
        rows_rectangular(spec_lines(s), spec_lines(s)[0].len() as int),
        0 <= r2 < spec_lines(s).len(),
        0 <= c2 < spec_lines(s)[r2].len(),
        spec_lines(s)[r2][c2] == 'G',
        forall|rr: int, j: int|
            0 <= rr < r2 && 0 <= j < spec_lines(s)[rr].len() ==> valid_char(
                #[trigger] spec_lines(s)[rr][j],
            ),
        forall|j: int| 0 <= j < c2 ==> valid_char(#[trigger] spec_lines(s)[r2][j]),
        cnt_rows_upto(spec_lines(s), 0, r2, 'T') + cnt_cols_upto(spec_lines(s)[r2], 0, c2, 'T')
            <= 1,
        cnt_rows_upto(spec_lines(s), 0, r2, 'M') + cnt_cols_upto(spec_lines(s)[r2], 0, c2, 'M')
            <= 1,
        cnt_rows_upto(spec_lines(s), 0, r2, 'G') + cnt_cols_upto(spec_lines(s)[r2], 0, c2, 'G')
            == 1,
    ensures
        parse_spec(s) == Err::<GameV, BoardError>(BoardError::MultipleGoal),
{
    let ls = spec_lines(s);
    let line = ls[r2];
    lemma_cnt_rows_upto_nonneg(ls, 0, r2, 'T');
    lemma_cnt_rows_upto_nonneg(ls, 0, r2, 'M');
    lemma_cnt_rows_upto_nonneg(ls, 0, r2, 'G');
    lemma_cnt_cols_upto_nonneg(line, 0, c2, 'T');
    lemma_cnt_cols_upto_nonneg(line, 0, c2, 'M');
    lemma_cnt_cols_upto_nonneg(line, 0, c2, 'G');
    lemma_scan_reaches(ls, 0, r2, ScanSt::init());
    let stm = choose|stm: ScanSt| {
        &&& scan_lines(ls, 0, ScanSt::init()) == scan_lines(ls, r2, stm)
        &&& opt_n(stm.t) == opt_n(ScanSt::init().t) + cnt_rows_upto(ls, 0, r2, 'T')
        &&& opt_n(stm.m) == opt_n(ScanSt::init().m) + cnt_rows_upto(ls, 0, r2, 'M')
        &&& opt_n(stm.g) == opt_n(ScanSt::init().g) + cnt_rows_upto(ls, 0, r2, 'G')
    };
    assert(scan_lines(ls, r2, stm) == (match scan_row(line, r2, 0, stm) {
        Ok(st2) => scan_lines(ls, r2 + 1, st2),
        Err(e) => Err(e),
    }));
    lemma_scan_row_reaches(line, r2, 0, c2, stm);
    let st1 = choose|st1: ScanSt| {
        &&& scan_row(line, r2, 0, stm) == scan_row(line, r2, c2, st1)
        &&& opt_n(st1.t) == opt_n(stm.t) + cnt_cols_upto(line, 0, c2, 'T')
        &&& opt_n(st1.m) == opt_n(stm.m) + cnt_cols_upto(line, 0, c2, 'M')
        &&& opt_n(st1.g) == opt_n(stm.g) + cnt_cols_upto(line, 0, c2, 'G')
    };
    assert(opt_n(st1.g) == 1);
    assert(st1.g is Some);
    assert(scan_row(line, r2, c2, st1) == Err::<ScanSt, BoardError>(BoardError::MultipleGoal));
    assert(scan_lines(ls, 0, ScanSt::init()) == Err::<ScanSt, BoardError>(
        BoardError::MultipleGoal,
    ));
}

/// On a board of the right shape with at most one of each marker, an absent
/// Theseus is reported first, then an absent Minotaur, then an absent goal;
/// with one of each, parsing succeeds.
pub proof fn lemma_parse_markers(s: Seq<char>)
    requires
        board_shape_ok(s),
        cnt_rows(spec_lines(s), 0, 'T') <= 1,
        cnt_rows(spec_lines(s), 0, 'M') <= 1,
        cnt_rows(spec_lines(s), 0, 'G') <= 1,
    ensures
        cnt_rows(spec_lines(s), 0, 'T') == 0 ==> parse_spec(s) == Err::<GameV, BoardError>(
            BoardError::NoTheseus,
        ),
        cnt_rows(spec_lines(s), 0, 'T') == 1 && cnt_rows(spec_lines(s), 0, 'M') == 0
            ==> parse_spec(s) == Err::<GameV, BoardError>(BoardError::NoMinotaur),
        cnt_rows(spec_lines(s), 0, 'T') == 1 && cnt_rows(spec_lines(s), 0, 'M') == 1 && cnt_rows(
            spec_lines(s),
            0,
            'G',
        ) == 0 ==> parse_spec(s) == Err::<GameV, BoardError>(BoardError::NoGoal),
        cnt_rows(spec_lines(s), 0, 'T') == 1 && cnt_rows(spec_lines(s), 0, 'M') == 1 && cnt_rows(
            spec_lines(s),
            0,
            'G',
        ) == 1 ==> parse_spec(s) is Ok,
{
    let ls = spec_lines(s);
    let w = ls[0].len() as int;
    lemma_cnt_rows_nonneg(ls, 0, 'T');
    lemma_cnt_rows_nonneg(ls, 0, 'M');
    lemma_cnt_rows_nonneg(ls, 0, 'G');
    assert(rows_rectangular(ls, w));
    lemma_scan_lines_ok(ls, w, 0, ScanSt::init());
}

/// A command whose target tile is out of bounds or a wall leaves Theseus
/// exactly where he stands: a blocked move is a silent no-op.
pub proof fn lemma_move_blocked(g: GameV, command: Command)
    requires
        !g.open_tile(
            g.theseus.0 + GameV::delta(command).0,
            g.theseus.1 + GameV::delta(command).1,
        ),
    ensures
        g.theseus_dest(command) == g.theseus,
{
}

/// Skip never changes Theseus's position, whatever surrounds him.
pub proof fn lemma_skip_noop(g: GameV)
    requires
        g.wf(),
    ensures
        g.theseus_dest(Command::Skip) == g.theseus,
{
    assert((g.theseus.0 + 0, g.theseus.1 + 0) == g.theseus);
}

/// With Theseus strictly diagonal to the Minotaur and the horizontal step
/// open, the Minotaur steps horizontally, never vertically, that turn.
pub proof fn lemma_minotaur_horizontal_priority(g: GameV)
    requires
        g.theseus.0 != g.minotaur.0,
        g.theseus.1 != g.minotaur.1,
        g.theseus.1 < g.minotaur.1 ==> g.open_tile(g.minotaur.0, g.minotaur.1 - 1),
        g.theseus.1 > g.minotaur.1 ==> g.open_tile(g.minotaur.0, g.minotaur.1 + 1),
    ensures
        g.minotaur_dest().0 == g.minotaur.0,
        g.minotaur_dest().1 != g.minotaur.1,
{
}

/// With the horizontal step blocked and the vertical step open, the
/// Minotaur falls back to the vertical step toward Theseus.
pub proof fn lemma_minotaur_vertical_fallback(g: GameV)
    requires
        g.theseus.1 != g.minotaur.1,
        g.theseus.1 < g.minotaur.1 ==> !g.open_tile(g.minotaur.0, g.minotaur.1 - 1),
        g.theseus.1 > g.minotaur.1 ==> !g.open_tile(g.minotaur.0, g.minotaur.1 + 1),
        g.theseus.0 != g.minotaur.0,
        g.theseus.0 < g.minotaur.0 ==> g.open_tile(g.minotaur.0 - 1, g.minotaur.1),
        g.theseus.0 > g.minotaur.0 ==> g.open_tile(g.minotaur.0 + 1, g.minotaur.1),
    ensures
        g.minotaur_dest().1 == g.minotaur.1,
        g.minotaur_dest().0 == if g.theseus.0 < g.minotaur.0 {
            g.minotaur.0 - 1
        } else {
            g.minotaur.0 + 1
        },
{
}

/// With both the horizontal and the vertical step blocked, the Minotaur
/// does not move this turn.
pub proof fn lemma_minotaur_both_blocked(g: GameV)
    requires
        g.theseus.1 < g.minotaur.1 ==> !g.open_tile(g.minotaur.0, g.minotaur.1 - 1),
        g.theseus.1 > g.minotaur.1 ==> !g.open_tile(g.minotaur.0, g.minotaur.1 + 1),
        g.theseus.0 < g.minotaur.0 ==> !g.open_tile(g.minotaur.0 - 1, g.minotaur.1),
        g.theseus.0 > g.minotaur.0 ==> !g.open_tile(g.minotaur.0 + 1, g.minotaur.1),
    ensures
        g.minotaur_dest() == g.minotaur,
{
}

/// When Theseus shares a tile with both the Minotaur and the goal at once,
/// the status is Lose, never Win: the loss check comes first.
pub proof fn lemma_status_lose_first(g: GameV)
    requires
        g.theseus == g.minotaur,
        g.theseus == g.goal,
    ensures
        g.status_of() == GameStatus::Lose,
{
}

} // verus!
