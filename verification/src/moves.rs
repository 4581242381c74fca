//! Move tokenization: the scan for substrings in standard algebraic notation.
//!
//! At each position the matcher first tries a bare destination square — a
//! file letter then a rank digit, admitted only at a word boundary — and
//! otherwise the fuller shape: an optional piece letter, an optional
//! disambiguating file and/or rank, an optional capture marker `x`, a
//! mandatory destination square, then an optional promotion marker `=`, an
//! optional promotion piece, and an optional check or checkmate suffix. Each
//! optional part is taken greedily when the mandatory square can still follow.
//! The scan emits the leftmost match, resumes right after it, and never
//! fails: a text without matches yields an empty sequence. Castling (`O-O`,
//! `O-O-O`) and result markers are outside the pattern and are not emitted.
//!
//! The word boundary is decided over ASCII word characters only (letters,
//! digits, underscore) — a deliberate simplification: a non-ASCII letter
//! right before a square is treated as a boundary rather than as part of a
//! word. Game records are ASCII where it matters, and full Unicode word
//! classes are out of proportion here.

use vstd::prelude::*;

use crate::chars::is_check;
use crate::chars::is_check_char;
use crate::chars::is_file;
use crate::chars::is_file_char;
use crate::chars::is_piece;
use crate::chars::is_piece_char;
use crate::chars::is_promotion;
use crate::chars::is_promotion_char;
use crate::chars::is_rank;
use crate::chars::is_rank_char;
use crate::chars::is_word;
use crate::chars::is_word_char;

verus! {

/// A word boundary stands before position `i`: the start of the text, or a
/// preceding character that is no word character.
pub open spec fn is_boundary(s: Seq<char>, i: int) -> bool {
    i <= 0 || !is_word(s[i - 1])
}

/// The bare-square alternative: a file letter and a rank digit at a word
/// boundary. It is preferred over the fuller shape and is two characters
/// long, whatever follows.
pub open spec fn alt1_match(s: Seq<char>, i: int) -> bool {
    0 <= i && i + 1 < s.len() && is_file(s[i]) && is_rank(s[i + 1]) && is_boundary(s, i)
}

/// The mandatory destination square at `j` followed by the greedy optional
/// suffix: `=`, a promotion piece, a check marker. `None` if no square
/// stands at `j`.
pub open spec fn tail_end(s: Seq<char>, j: int) -> Option<int> {
    if 0 <= j && j + 1 < s.len() && is_file(s[j]) && is_rank(s[j + 1]) {
        let e0 = j + 2;
        let e1 = if e0 < s.len() && s[e0] == '=' {
            e0 + 1
        } else {
            e0
        };
        let e2 = if e1 < s.len() && is_promotion(s[e1]) {
            e1 + 1
        } else {
            e1
        };
        let e3 = if e2 < s.len() && is_check(s[e2]) {
            e2 + 1
        } else {
            e2
        };
        Some(e3)
    } else {
        None
    }
}

/// Optional capture marker before the square: `x` is consumed when a square
/// still follows it.
pub open spec fn after_x(s: Seq<char>, j: int) -> Option<int> {
    if 0 <= j && j < s.len() && s[j] == 'x' && tail_end(s, j + 1) is Some {
        tail_end(s, j + 1)
    } else {
        tail_end(s, j)
    }
}

/// Optional disambiguating rank digit, consumed when the rest still matches.
pub open spec fn after_rank(s: Seq<char>, j: int) -> Option<int> {
    if 0 <= j && j < s.len() && is_rank(s[j]) && after_x(s, j + 1) is Some {
        after_x(s, j + 1)
    } else {
        after_x(s, j)
    }
}

/// Optional disambiguating file letter, consumed when the rest still matches.
pub open spec fn after_file(s: Seq<char>, j: int) -> Option<int> {
    if 0 <= j && j < s.len() && is_file(s[j]) && after_rank(s, j + 1) is Some {
        after_rank(s, j + 1)
    } else {
        after_rank(s, j)
    }
}

/// The fuller alternative: optional piece letter, then the optional
/// disambiguation, capture marker, square and suffix.
pub open spec fn alt2_end(s: Seq<char>, i: int) -> Option<int> {
    if 0 <= i && i < s.len() && is_piece(s[i]) && after_file(s, i + 1) is Some {
        after_file(s, i + 1)
    } else {
        after_file(s, i)
    }
}

/// End of the move token starting at `i`, if one starts there: the bare
/// square when it applies, else the fuller shape.
pub open spec fn match_at(s: Seq<char>, i: int) -> Option<int> {
    if alt1_match(s, i) {
        Some(i + 2)
    } else {
        alt2_end(s, i)
    }
}

/// A match never stands still: it ends at least two characters further on
/// and within the text.
pub proof fn lemma_match_at_bounds(s: Seq<char>, i: int)
    requires
        0 <= i,
    ensures
        match_at(s, i) is Some ==> i + 2 <= match_at(s, i).unwrap() <= s.len(),
{
}

/// The ordered move tokens the scan finds from position `i` on.
pub open spec fn moves_from(s: Seq<char>, i: int) -> Seq<Seq<char>>
    decreases s.len() - i,
{
    if i < 0 || i >= s.len() {
        Seq::empty()
    } else {
        match match_at(s, i) {
            Some(e) => seq![s.subrange(i, e)] + moves_from(s, e),
            None => moves_from(s, i + 1),
        }
    }
}

/// The move tokens of the whole text.
pub open spec fn spec_moves(s: Seq<char>) -> Seq<Seq<char>> {
    moves_from(s, 0)
}

/// View of collected move tokens as sequences of characters.
pub open spec fn strings_view(v: Seq<String>) -> Seq<Seq<char>> {
    v.map_values(|m: String| m@)
}

fn tail_end_str(s: &str, j: usize, n: usize) -> (r: Option<usize>)
    requires
        n == s@.len(),
        j <= n,
    ensures
        r is Some <==> tail_end(s@, j as int) is Some,
        r is Some ==> r.unwrap() == tail_end(s@, j as int).unwrap() && j + 2 <= r.unwrap() <= n,
{
    if j < n && j + 1 < n && is_file_char(s.get_char(j)) && is_rank_char(s.get_char(j + 1)) {
        let mut e: usize = j + 2;
        if e < n && s.get_char(e) == '=' {
            e = e + 1;
        }
        if e < n && is_promotion_char(s.get_char(e)) {
            e = e + 1;
        }
        if e < n && is_check_char(s.get_char(e)) {
            e = e + 1;
        }
        Some(e)
    } else {
        None
    }
}

fn after_x_str(s: &str, j: usize, n: usize) -> (r: Option<usize>)
    requires
        n == s@.len(),
        j <= n,
    ensures
        r is Some <==> after_x(s@, j as int) is Some,
        r is Some ==> r.unwrap() == after_x(s@, j as int).unwrap() && j + 2 <= r.unwrap() <= n,
{
    if j < n && s.get_char(j) == 'x' {
        let t = tail_end_str(s, j + 1, n);
        if t.is_some() {
            return t;
        }
    }
    tail_end_str(s, j, n)
}

fn after_rank_str(s: &str, j: usize, n: usize) -> (r: Option<usize>)
    requires
        n == s@.len(),
        j <= n,
    ensures
        r is Some <==> after_rank(s@, j as int) is Some,
        r is Some ==> r.unwrap() == after_rank(s@, j as int).unwrap() && j + 2 <= r.unwrap() <= n,
{
    if j < n && is_rank_char(s.get_char(j)) {
        let t = after_x_str(s, j + 1, n);
        if t.is_some() {
            return t;
        }
    }
    after_x_str(s, j, n)
}

fn after_file_str(s: &str, j: usize, n: usize) -> (r: Option<usize>)
    requires
        n == s@.len(),
        j <= n,
    ensures
        r is Some <==> after_file(s@, j as int) is Some,
        r is Some ==> r.unwrap() == after_file(s@, j as int).unwrap() && j + 2 <= r.unwrap() <= n,
{
    if j < n && is_file_char(s.get_char(j)) {
        let t = after_rank_str(s, j + 1, n);
        if t.is_some() {
            return t;
        }
    }
    after_rank_str(s, j, n)
}

fn alt2_end_str(s: &str, i: usize, n: usize) -> (r: Option<usize>)
    requires
        n == s@.len(),
        i <= n,
    ensures
        r is Some <==> alt2_end(s@, i as int) is Some,
        r is Some ==> r.unwrap() == alt2_end(s@, i as int).unwrap() && i + 2 <= r.unwrap() <= n,
{
    if i < n && is_piece_char(s.get_char(i)) {
        let t = after_file_str(s, i + 1, n);
        if t.is_some() {
            return t;
        }
    }
    after_file_str(s, i, n)
}

/// Decides whether a move token starts at `i`, and where it ends.
pub fn match_at_str(s: &str, i: usize, n: usize) -> (r: Option<usize>)
    requires
        n == s@.len(),
        i < n,
    ensures
        r is Some <==> match_at(s@, i as int) is Some,
        r is Some ==> r.unwrap() == match_at(s@, i as int).unwrap() && i + 2 <= r.unwrap() <= n,
{
    if i + 1 < n && is_file_char(s.get_char(i)) && is_rank_char(s.get_char(i + 1)) && (i == 0
        || !is_word_char(s.get_char(i - 1))) {
        Some(i + 2)
    } else {
        assert(!alt1_match(s@, i as int));
        alt2_end_str(s, i, n)
    }
}

/// Runs the move scan over the whole text and collects the tokens in order.
pub fn scan_moves(s: &str) -> (r: Vec<String>)
    ensures
        strings_view(r@) == spec_moves(s@),
{
    let n = s.unicode_len();
    let mut out: Vec<String> = Vec::new();
    let mut i: usize = 0;
    while i < n
        invariant
            n == s@.len(),
            i <= n,
            moves_from(s@, 0) == strings_view(out@) + moves_from(s@, i as int),
        decreases n - i,
    {
        match match_at_str(s, i, n) {
            Some(e) => {
                let tok = s.substring_char(i, e).to_owned();
                proof {
                    let ghost prev = out@;
                    assert(strings_view(prev.push(tok)) =~= strings_view(prev) + seq![tok@]);
                    assert(moves_from(s@, i as int) == seq![s@.subrange(i as int, e as int)]
                        + moves_from(s@, e as int));
                    assert(strings_view(prev) + (seq![tok@] + moves_from(s@, e as int))
                        =~= (strings_view(prev) + seq![tok@]) + moves_from(s@, e as int));
                }
                out.push(tok);
                i = e;
            },
            None => {
                i = i + 1;
            },
        }
    }
    assert(moves_from(s@, n as int) == Seq::<Seq<char>>::empty());
    assert(strings_view(out@) + Seq::<Seq<char>>::empty() =~= strings_view(out@));
    out
}

} // verus!
