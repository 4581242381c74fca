//! Laws of the parser, stated and proved over the specification functions
//! that the executable functions' contracts use.

use vstd::prelude::*;

use crate::chars::find_from;
use crate::chars::is_check;
use crate::chars::is_file;
use crate::chars::is_piece;
use crate::chars::is_rank;
use crate::chars::is_word;
use crate::chars::lemma_find_from;
use crate::headers::headers_from;
use crate::headers::split_tag;
use crate::headers::trim_hi;
use crate::headers::trim_lo;
use crate::headers::trim_quotes;
use crate::moves::alt1_match;
use crate::moves::alt2_end;
use crate::moves::after_file;
use crate::moves::after_rank;
use crate::moves::after_x;
use crate::moves::lemma_match_at_bounds;
use crate::moves::match_at;
use crate::moves::moves_from;
use crate::moves::spec_moves;
use crate::moves::tail_end;
use crate::record::spec_parse;
use crate::record::ParseError;

verus! {

/// Parsing is a pure function of the input text: equal texts yield equal
/// outcomes — the same header pairs and move tokens, or the same error.
/// Parsing one text twice therefore gives two value-equal records.
pub proof fn lemma_parse_deterministic(s1: Seq<char>, s2: Seq<char>)
    requires
        s1 == s2,
    ensures
        spec_parse(s1) == spec_parse(s2),
{
}

/// Empty input fails with `EmptyInput`, and no other input does: the
/// `EmptyInput` outcome and zero length imply each other.
pub proof fn lemma_empty_input_classified(s: Seq<char>)
    ensures
        spec_parse(s) == Err::<(Seq<(Seq<char>, Seq<char>)>, Seq<Seq<char>>), ParseError>(
            ParseError::EmptyInput,
        ) <==> s.len() == 0,
{
}

/// A bracketed tag whose interior holds no space — and so cannot be split
/// into a name and a value — fails the parse with `MalformedHeader`,
/// whatever else the interior holds.
pub proof fn lemma_tag_without_space_fails(interior: Seq<char>)
    requires
        interior.len() > 0,
        forall|m: int| 0 <= m < interior.len() ==> interior[m] != ']',
        forall|m: int| 0 <= m < interior.len() ==> interior[m] != ' ',
    ensures
        spec_parse(seq!['['] + interior + seq![']']) == Err::<
            (Seq<(Seq<char>, Seq<char>)>, Seq<Seq<char>>),
            ParseError,
        >(ParseError::MalformedHeader),
{
    let s = seq!['['] + interior + seq![']'];
    let ilen = interior.len() as int;
    assert(s.len() == ilen + 2);
    assert(s[0] == '[');
    assert(s[ilen + 1] == ']');
    lemma_find_from(s, ']', 1);
    let k = find_from(s, ']', 1);
    assert(forall|m: int| 1 <= m < ilen + 1 ==> s[m] == interior[m - 1]);
    if k < ilen + 1 {
        assert(s[k] == ']');
        assert(false);
    }
    if k > ilen + 1 {
        assert(s[ilen + 1] != ']');
        assert(false);
    }
    assert(k == ilen + 1);
    assert(s.subrange(1, ilen + 1) =~= interior);
    lemma_find_from(interior, ' ', 0);
    if find_from(interior, ' ', 0) < ilen {
        assert(interior[find_from(interior, ' ', 0)] == ' ');
        assert(false);
    }
    assert(split_tag(interior) is None);
    assert(headers_from(s, 0) is None);
}

/// Quote-stripping of a value wrapped in exactly one pair of quotes removes
/// just that pair; every interior character, quotes included, stays.
pub proof fn lemma_trim_single_pair(v: Seq<char>)
    requires
        v.len() >= 2,
        v.first() == '"',
        v.last() == '"',
        v.len() > 2 ==> v[1] != '"' && v[v.len() - 2] != '"',
    ensures
        trim_quotes(v) == v.subrange(1, v.len() - 1),
{
    if v.len() == 2 {
        assert(trim_lo(v, 0) == trim_lo(v, 1));
        assert(trim_lo(v, 1) == trim_lo(v, 2));
        assert(trim_lo(v, 2) == 2);
        assert(trim_hi(v, 2, 2) == 2);
        assert(trim_quotes(v) =~= v.subrange(1, v.len() - 1));
    } else {
        assert(trim_lo(v, 0) == trim_lo(v, 1));
        assert(trim_lo(v, 1) == 1);
        assert(trim_hi(v, 1, v.len() as int) == trim_hi(v, 1, v.len() - 1));
        assert(trim_hi(v, 1, v.len() - 1) == v.len() - 1);
    }
}

/// A value that neither begins nor ends with a quote is left unchanged by
/// quote-stripping.
pub proof fn lemma_trim_without_quotes(v: Seq<char>)
    requires
        v.len() == 0 || (v.first() != '"' && v.last() != '"'),
    ensures
        trim_quotes(v) == v,
{
    assert(trim_lo(v, 0) == 0);
    assert(trim_hi(v, 0, v.len() as int) == v.len());
    assert(v.subrange(0, v.len() as int) =~= v);
}

/// No move token starts at a space.
pub proof fn lemma_space_no_match(s: Seq<char>, i: int)
    requires
        0 <= i < s.len(),
        s[i] == ' ',
    ensures
        match_at(s, i) is None,
{
}

/// A text `w` is a space-padding of `u`: it carries the same characters up
/// to `u`'s length, and a space right after them if it is longer.
pub open spec fn pads(u: Seq<char>, w: Seq<char>) -> bool {
    &&& u.len() <= w.len()
    &&& forall|m: int| 0 <= m < u.len() ==> u[m] == w[m]
    &&& u.len() < w.len() ==> w[u.len() as int] == ' '
}

proof fn lemma_tail_padded(u: Seq<char>, w: Seq<char>, j: int)
    requires
        pads(u, w),
        0 <= j <= u.len(),
    ensures
        tail_end(u, j) == tail_end(w, j),
{
}

proof fn lemma_after_x_padded(u: Seq<char>, w: Seq<char>, j: int)
    requires
        pads(u, w),
        0 <= j <= u.len(),
    ensures
        after_x(u, j) == after_x(w, j),
{
    lemma_tail_padded(u, w, j);
    if j < u.len() && u[j] == 'x' {
        lemma_tail_padded(u, w, j + 1);
    }
}

proof fn lemma_after_rank_padded(u: Seq<char>, w: Seq<char>, j: int)
    requires
        pads(u, w),
        0 <= j <= u.len(),
    ensures
        after_rank(u, j) == after_rank(w, j),
{
    lemma_after_x_padded(u, w, j);
    if j < u.len() {
        lemma_after_x_padded(u, w, j + 1);
    }
}

proof fn lemma_after_file_padded(u: Seq<char>, w: Seq<char>, j: int)
    requires
        pads(u, w),
        0 <= j <= u.len(),
    ensures
        after_file(u, j) == after_file(w, j),
{
    lemma_after_rank_padded(u, w, j);
    if j < u.len() {
        lemma_after_rank_padded(u, w, j + 1);
    }
}

/// The matcher never reads past the end of a text that is followed — in a
/// longer text — only by a space: at every position of the shorter text it
/// decides alike in both.
pub proof fn lemma_match_in_padded(u: Seq<char>, w: Seq<char>, j: int)
    requires
        pads(u, w),
        0 <= j <= u.len(),
    ensures
        match_at(u, j) == match_at(w, j),
{
    lemma_after_file_padded(u, w, j);
    if j < u.len() {
        lemma_after_file_padded(u, w, j + 1);
    }
    assert(alt2_end(u, j) == alt2_end(w, j));
    assert(alt1_match(u, j) == alt1_match(w, j));
}

/// An option match end, moved right by an offset.
pub open spec fn shift_opt(e: Option<int>, off: int) -> Option<int> {
    match e {
        Some(v) => Some(v + off),
        None => None,
    }
}

proof fn lemma_tail_shifted(pre: Seq<char>, rest: Seq<char>, q: int)
    requires
        0 <= q,
    ensures
        tail_end(pre + rest, pre.len() + q) == shift_opt(tail_end(rest, q), pre.len() as int),
{
    let s = pre + rest;
    let off = pre.len() as int;
    assert(s.len() == off + rest.len());
    assert(forall|m: int| 0 <= m < rest.len() ==> s[off + m] == rest[m]);
}

proof fn lemma_after_x_shifted(pre: Seq<char>, rest: Seq<char>, q: int)
    requires
        0 <= q,
    ensures
        after_x(pre + rest, pre.len() + q) == shift_opt(after_x(rest, q), pre.len() as int),
{
    lemma_tail_shifted(pre, rest, q);
    lemma_tail_shifted(pre, rest, q + 1);
    assert(forall|m: int| 0 <= m < rest.len() ==> (pre + rest)[pre.len() + m] == rest[m]);
}

proof fn lemma_after_rank_shifted(pre: Seq<char>, rest: Seq<char>, q: int)
    requires
        0 <= q,
    ensures
        after_rank(pre + rest, pre.len() + q) == shift_opt(after_rank(rest, q), pre.len() as int),
{
    lemma_after_x_shifted(pre, rest, q);
    lemma_after_x_shifted(pre, rest, q + 1);
    assert(forall|m: int| 0 <= m < rest.len() ==> (pre + rest)[pre.len() + m] == rest[m]);
}

proof fn lemma_after_file_shifted(pre: Seq<char>, rest: Seq<char>, q: int)
    requires
        0 <= q,
    ensures
        after_file(pre + rest, pre.len() + q) == shift_opt(after_file(rest, q), pre.len() as int),
{
    lemma_after_rank_shifted(pre, rest, q);
    lemma_after_rank_shifted(pre, rest, q + 1);
    assert(forall|m: int| 0 <= m < rest.len() ==> (pre + rest)[pre.len() + m] == rest[m]);
}

/// Matching looks back no further than one character: behind a non-word
/// character, a suffix is matched exactly as it would be on its own.
pub proof fn lemma_match_shifted(pre: Seq<char>, rest: Seq<char>, q: int)
    requires
        pre.len() >= 1,
        !is_word(pre.last()),
        0 <= q,
    ensures
        match_at(pre + rest, pre.len() + q) == shift_opt(match_at(rest, q), pre.len() as int),
{
    let s = pre + rest;
    let off = pre.len() as int;
    lemma_after_file_shifted(pre, rest, q);
    lemma_after_file_shifted(pre, rest, q + 1);
    assert(forall|m: int| 0 <= m < rest.len() ==> s[off + m] == rest[m]);
    assert(alt2_end(s, off + q) == shift_opt(alt2_end(rest, q), off));
    assert(alt1_match(s, off + q) == alt1_match(rest, q));
}

/// Behind a non-word character, the whole scan of a suffix is the scan it
/// would get on its own.
pub proof fn lemma_moves_shifted(pre: Seq<char>, rest: Seq<char>, q: int)
    requires
        pre.len() >= 1,
        !is_word(pre.last()),
        0 <= q,
    ensures
        moves_from(pre + rest, pre.len() + q) == moves_from(rest, q),
    decreases rest.len() - q,
{
    let s = pre + rest;
    let off = pre.len() as int;
    lemma_match_shifted(pre, rest, q);
    if q >= rest.len() {
        assert(moves_from(s, off + q) == Seq::<Seq<char>>::empty());
        assert(moves_from(rest, q) == Seq::<Seq<char>>::empty());
    } else {
        lemma_match_at_bounds(rest, q);
        match match_at(rest, q) {
            Some(e) => {
                assert(match_at(s, off + q) == Some(off + e));
                assert(s.subrange(off + q, off + e) =~= rest.subrange(q, e));
                lemma_moves_shifted(pre, rest, e);
                assert(moves_from(s, off + q) == seq![s.subrange(off + q, off + e)] + moves_from(
                    s,
                    off + e,
                ));
                assert(moves_from(rest, q) == seq![rest.subrange(q, e)] + moves_from(rest, e));
            },
            None => {
                lemma_moves_shifted(pre, rest, q + 1);
                assert(moves_from(s, off + q) == moves_from(s, off + q + 1));
                assert(moves_from(rest, q) == moves_from(rest, q + 1));
            },
        }
    }
}

/// The tokens joined with single separating spaces: the shape whose re-scan
/// the round-trip law speaks of.
pub open spec fn join_tokens(ts: Seq<Seq<char>>) -> Seq<char>
    decreases ts.len(),
{
    if ts.len() == 0 {
        Seq::empty()
    } else if ts.len() == 1 {
        ts[0]
    } else {
        ts[0] + seq![' '] + join_tokens(ts.drop_first())
    }
}

/// A token the tokenizer emits as itself: non-empty, and matched in full
/// when it stands at a word boundary.
pub open spec fn is_emitted_token(t: Seq<char>) -> bool {
    t.len() > 0 && match_at(t, 0) == Some(t.len() as int)
}

/// A character the move syntax can consume: a piece letter, a file letter,
/// a rank digit, the capture, promotion, check and checkmate markers.
pub open spec fn is_token_char(c: char) -> bool {
    is_piece(c) || is_file(c) || is_rank(c) || c == 'x' || c == '=' || is_check(c)
}

proof fn lemma_tail_chars(s: Seq<char>, j: int)
    requires
        tail_end(s, j) is Some,
    ensures
        forall|m: int| j <= m < tail_end(s, j).unwrap() ==> is_token_char(s[m]),
{
}

proof fn lemma_after_x_chars(s: Seq<char>, j: int)
    requires
        after_x(s, j) is Some,
    ensures
        forall|m: int| j <= m < after_x(s, j).unwrap() ==> is_token_char(s[m]),
{
    if 0 <= j && j < s.len() && s[j] == 'x' && tail_end(s, j + 1) is Some {
        lemma_tail_chars(s, j + 1);
    } else {
        lemma_tail_chars(s, j);
    }
}

proof fn lemma_after_rank_chars(s: Seq<char>, j: int)
    requires
        after_rank(s, j) is Some,
    ensures
        forall|m: int| j <= m < after_rank(s, j).unwrap() ==> is_token_char(s[m]),
{
    if 0 <= j && j < s.len() && is_rank(s[j]) && after_x(s, j + 1) is Some {
        lemma_after_x_chars(s, j + 1);
    } else {
        lemma_after_x_chars(s, j);
    }
}

proof fn lemma_after_file_chars(s: Seq<char>, j: int)
    requires
        after_file(s, j) is Some,
    ensures
        forall|m: int| j <= m < after_file(s, j).unwrap() ==> is_token_char(s[m]),
{
    if 0 <= j && j < s.len() && is_file(s[j]) && after_rank(s, j + 1) is Some {
        lemma_after_rank_chars(s, j + 1);
    } else {
        lemma_after_rank_chars(s, j);
    }
}

/// A matched token consists of move-syntax characters only.
pub proof fn lemma_match_chars(s: Seq<char>, i: int)
    requires
        match_at(s, i) is Some,
    ensures
        forall|m: int| i <= m < match_at(s, i).unwrap() ==> is_token_char(s[m]),
{
    if !alt1_match(s, i) {
        if 0 <= i && i < s.len() && is_piece(s[i]) && after_file(s, i + 1) is Some {
            lemma_after_file_chars(s, i + 1);
        } else {
            lemma_after_file_chars(s, i);
        }
    }
}

/// A text without an opening bracket holds no header tags at all.
proof fn lemma_headers_without_bracket(s: Seq<char>, i: int)
    requires
        0 <= i,
        forall|m: int| 0 <= m < s.len() ==> s[m] != '[',
    ensures
        headers_from(s, i) == Some(Seq::<(Seq<char>, Seq<char>)>::empty()),
    decreases s.len() - i,
{
    if i < s.len() {
        lemma_headers_without_bracket(s, i + 1);
    }
}

/// Every character of a joined token list is a move-syntax character or a
/// separating space.
proof fn lemma_join_chars(ts: Seq<Seq<char>>)
    requires
        forall|q: int| 0 <= q < ts.len() ==> is_emitted_token(#[trigger] ts[q]),
    ensures
        forall|m: int|
            0 <= m < join_tokens(ts).len() ==> is_token_char(#[trigger] join_tokens(ts)[m])
                || join_tokens(ts)[m] == ' ',
    decreases ts.len(),
{
    if ts.len() == 0 {
    } else if ts.len() == 1 {
        assert(is_emitted_token(ts[0]));
        lemma_match_chars(ts[0], 0);
        assert(join_tokens(ts) == ts[0]);
    } else {
        let t = ts[0];
        let tail = ts.drop_first();
        assert(forall|q: int| 0 <= q < tail.len() ==> is_emitted_token(#[trigger] tail[q])) by {
            assert(forall|q: int| 0 <= q < tail.len() ==> tail[q] == ts[q + 1]);
        }
        assert(is_emitted_token(t));
        lemma_match_chars(t, 0);
        lemma_join_chars(tail);
        let s = join_tokens(ts);
        assert(s == t + seq![' '] + join_tokens(tail));
        assert forall|m: int| 0 <= m < s.len() implies is_token_char(s[m]) || s[m] == ' ' by {
            if m < t.len() {
                assert(s[m] == t[m]);
            } else if m == t.len() {
                assert(s[m] == ' ');
            } else {
                assert(s[m] == join_tokens(tail)[m - t.len() - 1]);
            }
        }
    }
}

/// Tokenization round-trip: a list of tokens each of which the tokenizer
/// matches in full, concatenated with single separating spaces, re-tokenizes
/// to exactly the same ordered list.
#[verifier::rlimit(50)]
pub proof fn lemma_tokenize_round_trip(ts: Seq<Seq<char>>)
    requires
        forall|q: int| 0 <= q < ts.len() ==> is_emitted_token(#[trigger] ts[q]),
    ensures
        spec_moves(join_tokens(ts)) == ts,
    decreases ts.len(),
{
    if ts.len() == 0 {
        assert(spec_moves(join_tokens(ts)) =~= ts);
    } else if ts.len() == 1 {
        let t = ts[0];
        assert(is_emitted_token(t));
        assert(moves_from(t, 0) == seq![t.subrange(0, t.len() as int)] + moves_from(
            t,
            t.len() as int,
        ));
        assert(t.subrange(0, t.len() as int) =~= t);
        assert(moves_from(t, t.len() as int) == Seq::<Seq<char>>::empty());
        assert(spec_moves(join_tokens(ts)) =~= ts);
    } else {
        let t = ts[0];
        let tl = t.len() as int;
        let tail = ts.drop_first();
        let joined_tail = join_tokens(tail);
        let s = join_tokens(ts);
        assert(s == t + seq![' '] + joined_tail);
        let pre = t + seq![' '];
        assert(s =~= pre + joined_tail);
        assert(is_emitted_token(t));

        // The first token is matched in context exactly as on its own.
        assert(forall|m: int| 0 <= m < t.len() ==> t[m] == s[m]);
        assert(s[tl] == ' ');
        assert(pads(t, s));
        lemma_match_in_padded(t, s, 0);
        assert(match_at(s, 0) == Some(tl));
        assert(moves_from(s, 0) == seq![s.subrange(0, tl)] + moves_from(s, tl));
        assert(s.subrange(0, tl) =~= t);

        // The separating space starts no token.
        lemma_space_no_match(s, tl);
        assert(moves_from(s, tl) == moves_from(s, tl + 1));

        // Behind the space, the remaining text scans as if it stood alone.
        assert(pre.last() == ' ');
        lemma_moves_shifted(pre, joined_tail, 0);
        assert(moves_from(s, tl + 1) == moves_from(joined_tail, 0));

        assert(forall|q: int| 0 <= q < tail.len() ==> is_emitted_token(#[trigger] tail[q])) by {
            assert(forall|q: int| 0 <= q < tail.len() ==> tail[q] == ts[q + 1]);
        }
        lemma_tokenize_round_trip(tail);
        assert(moves_from(joined_tail, 0) == tail);
        assert(seq![t] + tail =~= ts);
        assert(spec_moves(s) =~= ts);
    }
}

/// Round trip through the whole parse: a non-empty list of fully matched
/// tokens, joined with single spaces, parses successfully — such a text
/// holds no bracket, so no header tags — and its move list is exactly the
/// token list. (The empty list joins to the empty text, which the parse
/// rejects as empty input.)
pub proof fn lemma_parse_round_trip(ts: Seq<Seq<char>>)
    requires
        ts.len() > 0,
        forall|q: int| 0 <= q < ts.len() ==> is_emitted_token(#[trigger] ts[q]),
    ensures
        spec_parse(join_tokens(ts)) matches Ok(pr) && pr.0 == Seq::<
            (Seq<char>, Seq<char>),
        >::empty() && pr.1 == ts,
{
    let s = join_tokens(ts);
    assert(is_emitted_token(ts[0]));
    if ts.len() == 1 {
        assert(s == ts[0]);
    } else {
        assert(s == ts[0] + seq![' '] + join_tokens(ts.drop_first()));
    }
    assert(s.len() > 0);
    lemma_join_chars(ts);
    assert forall|m: int| 0 <= m < s.len() implies s[m] != '[' by {
        assert(is_token_char(s[m]) || s[m] == ' ');
    }
    lemma_headers_without_bracket(s, 0);
    lemma_tokenize_round_trip(ts);
}

} // verus!
