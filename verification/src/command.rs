//! Decoding one raw input line into a turn command.
//!
//! The line is trimmed of surrounding whitespace and lowercased, then looked
//! up in a fixed table. An unrecognized line (and an explicit quit word)
//! decodes to no command at all, which tells the caller to stop the loop.

use vstd::prelude::*;
use crate::parse::chars_of;

verus! {

/// One turn's worth of player intent.
#[derive(Debug, Clone, Copy, PartialEq, Eq)]
pub enum Command {
    /// Move one tile up
    Up,
    /// Move one tile down
    Down,
    /// Move one tile left
    Left,
    /// Move one tile right
    Right,
    /// Don't move at all
    Skip,
}

/// Characters with the Unicode White_Space property, the ones surrounding
/// whitespace trimming removes.
pub open spec fn is_space(c: char) -> bool {
    let u = c as u32;
    u == 0x09 || u == 0x0A || u == 0x0B || u == 0x0C || u == 0x0D || u == 0x20 || u == 0x85
        || u == 0xA0 || u == 0x1680 || (0x2000 <= u && u <= 0x200A) || u == 0x2028 || u == 0x2029
        || u == 0x202F || u == 0x205F || u == 0x3000
}

/// Lowercasing of a single character as far as the decode table can tell:
/// the ASCII letters, plus the Kelvin sign, the one other character whose
/// lowercase form is an ASCII letter. Everything else is unchanged.
pub open spec fn lower_char(c: char) -> char {
    match c {
        '\u{212A}' => 'k',
        'A' => 'a',
        'B' => 'b',
        'C' => 'c',
        'D' => 'd',
        'E' => 'e',
        'F' => 'f',
        'G' => 'g',
        'H' => 'h',
        'I' => 'i',
        'J' => 'j',
        'K' => 'k',
        'L' => 'l',
        'M' => 'm',
        'N' => 'n',
        'O' => 'o',
        'P' => 'p',
        'Q' => 'q',
        'R' => 'r',
        'S' => 's',
        'T' => 't',
        'U' => 'u',
        'V' => 'v',
        'W' => 'w',
        'X' => 'x',
        'Y' => 'y',
        'Z' => 'z',
        _ => c,
    }
}

/// The sequence with its leading whitespace removed.
pub open spec fn trim_start(s: Seq<char>) -> Seq<char>
    decreases s.len(),
{
    if s.len() > 0 && is_space(s[0]) {
        trim_start(s.drop_first())
    } else {
        s
    }
}

/// The sequence with its trailing whitespace removed.
pub open spec fn trim_end(s: Seq<char>) -> Seq<char>
    decreases s.len(),
{
    if s.len() > 0 && is_space(s.last()) {
        trim_end(s.drop_last())
    } else {
        s
    }
}

/// The sequence with whitespace removed from both ends.
pub open spec fn trimmed(s: Seq<char>) -> Seq<char> {
    trim_end(trim_start(s))
}

/// The sequence with every character ASCII-lowercased.
pub open spec fn lowered(s: Seq<char>) -> Seq<char>
    decreases s.len(),
{
    if s.len() == 0 {
        Seq::empty()
    } else {
        lowered(s.drop_last()).push(lower_char(s.last()))
    }
}

/// Normalization applied to an input line before table lookup.
pub open spec fn canon(s: Seq<char>) -> Seq<char> {
    lowered(trimmed(s))
}

/// The decoding table over the normalized line. `None` stands for
/// "no command": an explicit quit word or any unrecognized text.
pub open spec fn decode_spec(s: Seq<char>) -> Option<Command> {
    let t = canon(s);
    if t == "w"@ || t == "up"@ {
        Some(Command::Up)
    } else if t == "s"@ || t == "down"@ {
        Some(Command::Down)
    } else if t == "a"@ || t == "left"@ {
        Some(Command::Left)
    } else if t == "d"@ || t == "right"@ {
        Some(Command::Right)
    } else if t.len() == 0 || t == "wait"@ || t == "skip"@ || t == "."@ {
        Some(Command::Skip)
    } else {
        None
    }
}

fn is_space_x(c: char) -> (r: bool)
    ensures
        r == is_space(c),
{
    let u = c as u32;
    u == 0x09 || u == 0x0A || u == 0x0B || u == 0x0C || u == 0x0D || u == 0x20 || u == 0x85
        || u == 0xA0 || u == 0x1680 || (0x2000 <= u && u <= 0x200A) || u == 0x2028 || u == 0x2029
        || u == 0x202F || u == 0x205F || u == 0x3000
}

fn lower_char_x(c: char) -> (r: char)
    ensures
        r == lower_char(c),
{
    match c {
        '\u{212A}' => 'k',
        'A' => 'a',
        'B' => 'b',
        'C' => 'c',
        'D' => 'd',
        'E' => 'e',
        'F' => 'f',
        'G' => 'g',
        'H' => 'h',
        'I' => 'i',
        'J' => 'j',
        'K' => 'k',
        'L' => 'l',
        'M' => 'm',
        'N' => 'n',
        'O' => 'o',
        'P' => 'p',
        'Q' => 'q',
        'R' => 'r',
        'S' => 's',
        'T' => 't',
        'U' => 'u',
        'V' => 'v',
        'W' => 'w',
        'X' => 'x',
        'Y' => 'y',
        'Z' => 'z',
        _ => c,
    }
}

proof fn lemma_trim_start_at(s: Seq<char>, k: int)
    requires
        0 <= k <= s.len(),
        forall|j: int| 0 <= j < k ==> is_space(s[j]),
        k < s.len() ==> !is_space(s[k]),
    ensures
        trim_start(s) == s.subrange(k, s.len() as int),
    decreases k,
{
    if k == 0 {
        assert(s.subrange(0, s.len() as int) =~= s);
    } else {
        let s2 = s.drop_first();
        assert(forall|j: int| 0 <= j < k - 1 ==> is_space(s2[j]));
        lemma_trim_start_at(s2, k - 1);
        assert(s2.subrange(k - 1, s2.len() as int) =~= s.subrange(k, s.len() as int));
    }
}

proof fn lemma_trim_end_at(s: Seq<char>, e: int)
    requires
        0 <= e <= s.len(),
        forall|j: int| e <= j < s.len() ==> is_space(s[j]),
        e > 0 ==> !is_space(s[e - 1]),
    ensures
        trim_end(s) == s.subrange(0, e),
    decreases s.len(),
{
    if e == s.len() {
        assert(s.subrange(0, e) =~= s);
    } else {
        let s2 = s.drop_last();
        assert(is_space(s.last()));
        lemma_trim_end_at(s2, e);
        assert(s2.subrange(0, e) =~= s.subrange(0, e));
    }
}

/// Trims and lowercases one line of characters, as `canon` describes.
fn normalize(v: &Vec<char>) -> (r: Vec<char>)
    ensures
        r@ == canon(v@),
{
    let n = v.len();
    let mut start: usize = 0;
    while start < n
        invariant
            start <= n,
            n == v@.len(),
            forall|j: int| 0 <= j < start ==> is_space(v@[j]),
        ensures
            start <= n,
            n == v@.len(),
            forall|j: int| 0 <= j < start ==> is_space(v@[j]),
            start < n ==> !is_space(v@[start as int]),
        decreases n - start,
    {
        if !is_space_x(v[start]) {
            break;
        }
        start += 1;
    }
    let mut end: usize = n;
    while end > start
        invariant
            start <= end <= n,
            n == v@.len(),
            forall|j: int| end <= j < n ==> is_space(v@[j]),
        ensures
            start <= end <= n,
            n == v@.len(),
            forall|j: int| end <= j < n ==> is_space(v@[j]),
            end > start ==> !is_space(v@[end - 1]),
        decreases end - start,
    {
        if !is_space_x(v[end - 1]) {
            break;
        }
        end -= 1;
    }
    proof {
        lemma_trim_start_at(v@, start as int);
        let s2 = v@.subrange(start as int, n as int);
        lemma_trim_end_at(s2, end - start);
        assert(s2.subrange(0, end - start) =~= v@.subrange(start as int, end as int));
        assert(trimmed(v@) == v@.subrange(start as int, end as int));
    }
    let mut out: Vec<char> = Vec::new();
    let mut i = start;
    while i < end
        invariant
            start <= i <= end <= n,
            n == v@.len(),
            out@ == lowered(v@.subrange(start as int, i as int)),
        decreases end - i,
    {
        out.push(lower_char_x(v[i]));
        proof {
            let pre = v@.subrange(start as int, i as int);
            let post = v@.subrange(start as int, i as int + 1);
            assert(post.drop_last() =~= pre);
            assert(post.last() == v@[i as int]);
        }
        i += 1;
    }
    proof {
        if start == end {
            assert(v@.subrange(start as int, end as int).len() == 0);
        }
    }
    out
}

/// Character-by-character comparison of a character vector with a string.
fn chars_eq_str(v: &Vec<char>, s: &str) -> (r: bool)
    ensures
        r == (v@ == s@),
{
    let n = s.unicode_len();
    if v.len() != n {
        return false;
    }
    let mut i: usize = 0;
    while i < n
        invariant
            i <= n,
            n == s@.len(),
            n == v@.len(),
            forall|j: int| 0 <= j < i ==> v@[j] == s@[j],
        decreases n - i,
    {
        if v[i] != s.get_char(i) {
            return false;
        }
        i += 1;
    }
    proof {
        assert(v@ =~= s@);
    }
    true
}

/// Decodes one raw input line: trim, lowercase, then the fixed table.
/// Returns `None` for a quit word, unrecognized text, or anything else
/// outside the table.
pub fn decode(line: &str) -> (r: Option<Command>)
    ensures
        r == decode_spec(line@),
{
    let cs = chars_of(line);
    let t = normalize(&cs);
    if chars_eq_str(&t, "w") || chars_eq_str(&t, "up") {
        Some(Command::Up)
    } else if chars_eq_str(&t, "s") || chars_eq_str(&t, "down") {
        Some(Command::Down)
    } else if chars_eq_str(&t, "a") || chars_eq_str(&t, "left") {
        Some(Command::Left)
    } else if chars_eq_str(&t, "d") || chars_eq_str(&t, "right") {
        Some(Command::Right)
    } else if t.len() == 0 || chars_eq_str(&t, "wait") || chars_eq_str(&t, "skip")
        || chars_eq_str(&t, ".") {
        Some(Command::Skip)
    } else {
        None
    }
}

} // verus!
