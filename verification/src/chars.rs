//! Character classes of the notation, and a first-occurrence search used by
//! both scanning stages.

use vstd::prelude::*;

verus! {

/// A board-file letter `a`..`h`.
pub open spec fn is_file(c: char) -> bool {
    'a' <= c && c <= 'h'
}

/// A board-rank digit `1`..`8`.
pub open spec fn is_rank(c: char) -> bool {
    '1' <= c && c <= '8'
}

/// A piece letter that may open a move token.
pub open spec fn is_piece(c: char) -> bool {
    c == 'N' || c == 'B' || c == 'R' || c == 'Q' || c == 'K'
}

/// A piece letter that may follow a promotion marker.
pub open spec fn is_promotion(c: char) -> bool {
    c == 'N' || c == 'B' || c == 'R' || c == 'Q'
}

/// A check or checkmate suffix.
pub open spec fn is_check(c: char) -> bool {
    c == '+' || c == '#'
}

/// A word character for the purpose of the word boundary that guards a bare
/// destination square: an ASCII letter, an ASCII digit, or an underscore.
pub open spec fn is_word(c: char) -> bool {
    ('a' <= c && c <= 'z') || ('A' <= c && c <= 'Z') || ('0' <= c && c <= '9') || c == '_'
}

pub fn is_file_char(c: char) -> (b: bool)
    ensures
        b == is_file(c),
{
    'a' <= c && c <= 'h'
}

pub fn is_rank_char(c: char) -> (b: bool)
    ensures
        b == is_rank(c),
{
    '1' <= c && c <= '8'
}

pub fn is_piece_char(c: char) -> (b: bool)
    ensures
        b == is_piece(c),
{
    c == 'N' || c == 'B' || c == 'R' || c == 'Q' || c == 'K'
}

pub fn is_promotion_char(c: char) -> (b: bool)
    ensures
        b == is_promotion(c),
{
    c == 'N' || c == 'B' || c == 'R' || c == 'Q'
}

pub fn is_check_char(c: char) -> (b: bool)
    ensures
        b == is_check(c),
{
    c == '+' || c == '#'
}

pub fn is_word_char(c: char) -> (b: bool)
    ensures
        b == is_word(c),
{
    ('a' <= c && c <= 'z') || ('A' <= c && c <= 'Z') || ('0' <= c && c <= '9') || c == '_'
}

/// Index of the first occurrence of `c` in `s` at or after `j`, or `s.len()`
/// if there is none from `j` on.
pub open spec fn find_from(s: Seq<char>, c: char, j: int) -> int
    decreases s.len() - j,
{
    if j < 0 || j >= s.len() {
        s.len() as int
    } else if s[j] == c {
        j
    } else {
        find_from(s, c, j + 1)
    }
}

/// `find_from` names the first occurrence: it is in range, it holds `c`, and
/// nothing before it (from `j` on) does.
pub proof fn lemma_find_from(s: Seq<char>, c: char, j: int)
    requires
        0 <= j <= s.len(),
    ensures
        j <= find_from(s, c, j) <= s.len(),
        find_from(s, c, j) < s.len() ==> s[find_from(s, c, j)] == c,
        forall|m: int| j <= m < find_from(s, c, j) ==> s[m] != c,
    decreases s.len() - j,
{
    if j < s.len() && s[j] != c {
        lemma_find_from(s, c, j + 1);
    }
}

/// Executable counterpart of `find_from`, scanning `s` itself.
pub fn find_from_str(s: &str, c: char, j: usize, n: usize) -> (r: usize)
    requires
        n == s@.len(),
        j <= n,
    ensures
        r == find_from(s@, c, j as int),
        j <= r <= n,
{
    proof {
        lemma_find_from(s@, c, j as int);
    }
    let mut i: usize = j;
    while i < n
        invariant
            n == s@.len(),
            j <= i <= n,
            find_from(s@, c, j as int) == find_from(s@, c, i as int),
        decreases n - i,
    {
        if s.get_char(i) == c {
            return i;
        }
        i = i + 1;
    }
    i
}

} // verus!
