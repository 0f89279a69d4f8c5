//! Turning board text into a validated game: line splitting and the
//! character-by-character scan that checks the board's structure.

use vstd::prelude::*;
use vstd::string::StrSliceExecFns;
use crate::game::GameV;
use crate::grid::GridV;

verus! {

/// Every way a board text can fail validation.
#[derive(Debug, Clone, Copy, PartialEq, Eq)]
pub enum BoardError {
    /// A scanned character outside the board alphabet, carried along.
    InvalidCharacter(char),
    /// No lines, an empty first line, or a row of a different length.
    InvalidSize,
    NoMinotaur,
    NoTheseus,
    NoGoal,
    MultipleMinotaur,
    MultipleTheseus,
    MultipleGoal,
}

/// A single trailing carriage return dropped, as a "\r\n" line ending asks.
pub open spec fn strip_cr(l: Seq<char>) -> Seq<char> {
    if l.len() > 0 && l.last() == '\r' {
        l.drop_last()
    } else {
        l
    }
}

/// Line splitting, one character at a time from position `i` on: `acc`
/// holds the finished lines and `cur` the line being read. A '\n' ends a
/// line; a line still open at the end of the text is kept, so a trailing
/// newline yields no final empty line.
pub open spec fn lines_from(s: Seq<char>, i: int, acc: Seq<Seq<char>>, cur: Seq<char>) -> Seq<
    Seq<char>,
>
    decreases s.len() - i,
{
    if i < 0 || i >= s.len() {
        if cur.len() > 0 {
            acc.push(cur)
        } else {
            acc
        }
    } else if s[i] == '\n' {
        lines_from(s, i + 1, acc.push(strip_cr(cur)), Seq::empty())
    } else {
        lines_from(s, i + 1, acc, cur.push(s[i]))
    }
}

/// The lines of a board text.
pub open spec fn spec_lines(s: Seq<char>) -> Seq<Seq<char>> {
    lines_from(s, 0, Seq::empty(), Seq::empty())
}

/// The views of a vector of character vectors.
pub open spec fn views_of(l: Seq<Vec<char>>) -> Seq<Seq<char>> {
    l.map_values(|v: Vec<char>| v@)
}

proof fn lemma_views_push(l: Seq<Vec<char>>, v: Vec<char>)
    ensures
        views_of(l.push(v)) == views_of(l).push(v@),
{
    assert(views_of(l.push(v)) =~= views_of(l).push(v@));
}

/// Splits a character vector into its lines, as `spec_lines` describes.
pub(crate) fn split_lines(v: &Vec<char>) -> (r: Vec<Vec<char>>)
    ensures
        views_of(r@) == spec_lines(v@),
{
    let n = v.len();
    let mut out: Vec<Vec<char>> = Vec::new();
    let mut cur: Vec<char> = Vec::new();
    proof {
        assert(views_of(out@) =~= Seq::<Seq<char>>::empty());
    }
    let mut i: usize = 0;
    while i < n
        invariant
            i <= n,
            n == v@.len(),
            lines_from(v@, i as int, views_of(out@), cur@) == spec_lines(v@),
        decreases n - i,
    {
        let c = v[i];
        if c == '\n' {
            let ghost cur0 = cur@;
            let ghost out0 = out@;
            if cur.len() > 0 && cur[cur.len() - 1] == '\r' {
                cur.pop();
            }
            proof {
                assert(cur@ == strip_cr(cur0));
            }
            out.push(cur);
            cur = Vec::new();
            proof {
                lemma_views_push(out0, out@[out0.len() as int]);
                assert(views_of(out@) == views_of(out0).push(strip_cr(cur0)));
            }
        } else {
            cur.push(c);
        }
        i += 1;
    }
    if cur.len() > 0 {
        let ghost out0 = out@;
        let ghost cur0 = cur@;
        out.push(cur);
        proof {
            lemma_views_push(out0, out@[out0.len() as int]);
            assert(views_of(out@) == views_of(out0).push(cur0));
        }
    }
    out
}

/// The running state of the board scan: the marker positions seen so far
/// (at most one each) and the static tiles already laid down, row-major.
pub ghost struct ScanSt {
    pub t: Option<(int, int)>,
    pub m: Option<(int, int)>,
    pub g: Option<(int, int)>,
    pub cells: Seq<char>,
}

impl ScanSt {
    pub open spec fn init() -> ScanSt {
        ScanSt { t: None, m: None, g: None, cells: Seq::empty() }
    }
}

/// One scanned character at (r, c). Walls and floor are laid down as they
/// are; each marker is recorded, its second occurrence is the error reported
/// at that very moment, and beneath Theseus and the Minotaur plain floor is
/// stored. Anything else fails immediately.
pub open spec fn scan_cell(st: ScanSt, r: int, c: int, ch: char) -> Result<ScanSt, BoardError> {
    if ch == 'X' || ch == ' ' {
        Ok(ScanSt { t: st.t, m: st.m, g: st.g, cells: st.cells.push(ch) })
    } else if ch == 'G' {
        if st.g is Some {
            Err(BoardError::MultipleGoal)
        } else {
            Ok(ScanSt { t: st.t, m: st.m, g: Some((r, c)), cells: st.cells.push('G') })
        }
    } else if ch == 'T' {
        if st.t is Some {
            Err(BoardError::MultipleTheseus)
        } else {
            Ok(ScanSt { t: Some((r, c)), m: st.m, g: st.g, cells: st.cells.push(' ') })
        }
    } else if ch == 'M' {
        if st.m is Some {
            Err(BoardError::MultipleMinotaur)
        } else {
            Ok(ScanSt { t: st.t, m: Some((r, c)), g: st.g, cells: st.cells.push(' ') })
        }
    } else {
        Err(BoardError::InvalidCharacter(ch))
    }
}

/// Scanning row `r` left to right from column `c` on.
pub open spec fn scan_row(line: Seq<char>, r: int, c: int, st: ScanSt) -> Result<
    ScanSt,
    BoardError,
>
    decreases line.len() - c,
{
    if c < 0 || c >= line.len() {
        Ok(st)
    } else {
        match scan_cell(st, r, c, line[c]) {
            Ok(st2) => scan_row(line, r, c + 1, st2),
            Err(e) => Err(e),
        }
    }
}

/// Scanning the rows from `r` downward, each left to right. The rows'
/// widths have already been checked by the time any character is scanned.
pub open spec fn scan_lines(ls: Seq<Seq<char>>, r: int, st: ScanSt) -> Result<
    ScanSt,
    BoardError,
>
    decreases ls.len() - r,
{
    if r < 0 || r >= ls.len() {
        Ok(st)
    } else {
        match scan_row(ls[r], r, 0, st) {
            Ok(st2) => scan_lines(ls, r + 1, st2),
            Err(e) => Err(e),
        }
    }
}

/// Every row has the width of the first row.
pub open spec fn rows_rectangular(ls: Seq<Seq<char>>, width: int) -> bool {
    forall|r: int| 0 <= r < ls.len() ==> #[trigger] ls[r].len() == width
}

/// The full parse of a board text: split into lines, reject a board with no
/// lines, an empty first line, or any row whose length differs from the
/// first row's (every width check precedes the character scan), then scan
/// every character top to bottom, then require the three markers, missing
/// ones reported in the fixed order Theseus, Minotaur, Goal.
pub open spec fn parse_spec(s: Seq<char>) -> Result<GameV, BoardError> {
    let ls = spec_lines(s);
    if ls.len() == 0 {
        Err(BoardError::InvalidSize)
    } else {
        let width = ls[0].len() as int;
        if width == 0 {
            Err(BoardError::InvalidSize)
        } else if !rows_rectangular(ls, width) {
            Err(BoardError::InvalidSize)
        } else {
            match scan_lines(ls, 0, ScanSt::init()) {
                Err(e) => Err(e),
                Ok(st) => match st.t {
                    None => Err(BoardError::NoTheseus),
                    Some(tp) => match st.m {
                        None => Err(BoardError::NoMinotaur),
                        Some(mp) => match st.g {
                            None => Err(BoardError::NoGoal),
                            Some(gp) => Ok(
                                GameV {
                                    grid: GridV {
                                        width,
                                        height: ls.len() as int,
                                        cells: st.cells,
                                    },
                                    theseus: tp,
                                    minotaur: mp,
                                    goal: gp,
                                },
                            ),
                        },
                    },
                },
            }
        }
    }
}

/// A marker position as the scan state holds it.
pub open spec fn abs_pos(p: Option<(usize, usize)>) -> Option<(int, int)> {
    match p {
        Some(q) => Some((q.0 as int, q.1 as int)),
        None => None,
    }
}

/// The scan state a parser in progress stands for.
pub open spec fn abs_st(
    t: Option<(usize, usize)>,
    m: Option<(usize, usize)>,
    g: Option<(usize, usize)>,
    cells: Seq<char>,
) -> ScanSt {
    ScanSt { t: abs_pos(t), m: abs_pos(m), g: abs_pos(g), cells }
}

/// Collects the characters of a string slice into a vector.
pub(crate) fn chars_of(s: &str) -> (r: Vec<char>)
    ensures
        r@ == s@,
{
    let n = s.unicode_len();
    let mut v: Vec<char> = Vec::new();
    let mut i: usize = 0;
    while i < n
        invariant
            i <= n,
            n == s@.len(),
            v@ == s@.subrange(0, i as int),
        decreases n - i,
    {
        let c = s.get_char(i);
        v.push(c);
        proof {
            assert(v@ =~= s@.subrange(0, i as int + 1));
        }
        i += 1;
    }
    proof {
        assert(s@.subrange(0, n as int) =~= s@);
    }
    v
}

} // verus!
