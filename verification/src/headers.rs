//! Header extraction: the scan for bracketed `[Name "Value"]` tag pairs.
//!
//! The scan walks the text left to right. At a `[` it looks for the next `]`;
//! a bracket pair with a non-empty interior is a tag, and the scan resumes
//! after its `]`. A tag's interior is split at its first space: the part
//! before is the field name, the rest — with all leading and trailing double
//! quotes removed — is the field value. An interior without a space makes the
//! whole scan fail; nothing is skipped or recovered.

use vstd::prelude::*;

use crate::chars::find_from;
use crate::chars::find_from_str;

verus! {

/// First index at or after `lo` that does not hold a double quote, or
/// `v.len()` if quotes reach the end.
pub open spec fn trim_lo(v: Seq<char>, lo: int) -> int
    decreases v.len() - lo,
{
    if 0 <= lo && lo < v.len() && v[lo] == '"' {
        trim_lo(v, lo + 1)
    } else {
        lo
    }
}

/// Last bound at or before `hi` such that no double quote stands between it
/// and `hi`, stopping at `lo`.
pub open spec fn trim_hi(v: Seq<char>, lo: int, hi: int) -> int
    decreases hi,
{
    if 0 <= lo && lo < hi && hi <= v.len() && v[hi - 1] == '"' {
        trim_hi(v, lo, hi - 1)
    } else {
        hi
    }
}

/// A field value with every leading and every trailing double quote removed;
/// interior quotes stay.
pub open spec fn trim_quotes(v: Seq<char>) -> Seq<char> {
    let lo = trim_lo(v, 0);
    let hi = trim_hi(v, lo, v.len() as int);
    v.subrange(lo, hi)
}

/// Splitting a tag interior at its first space: the name before it, the
/// quote-trimmed value after it. An interior without a space yields `None`.
pub open spec fn split_tag(interior: Seq<char>) -> Option<(Seq<char>, Seq<char>)> {
    let p = find_from(interior, ' ', 0);
    if p < interior.len() {
        Some(
            (
                interior.subrange(0, p),
                trim_quotes(interior.subrange(p + 1, interior.len() as int)),
            ),
        )
    } else {
        None
    }
}

/// The header pairs the scan finds from position `i` on: `None` as soon as
/// one matched tag cannot be split into name and value.
pub open spec fn headers_from(s: Seq<char>, i: int) -> Option<Seq<(Seq<char>, Seq<char>)>>
    decreases s.len() - i,
{
    if i < 0 || i >= s.len() {
        Some(Seq::empty())
    } else if s[i] == '[' {
        let k = find_from(s, ']', i + 1);
        if i + 1 < k && k < s.len() {
            let tag = split_tag(s.subrange(i + 1, k));
            let rest = headers_from(s, k + 1);
            if tag is Some && rest is Some {
                Some(seq![tag.unwrap()] + rest.unwrap())
            } else {
                None
            }
        } else {
            headers_from(s, i + 1)
        }
    } else {
        headers_from(s, i + 1)
    }
}

/// The header pairs of the whole text.
pub open spec fn spec_headers(s: Seq<char>) -> Option<Seq<(Seq<char>, Seq<char>)>> {
    headers_from(s, 0)
}

/// View of collected header pairs as sequences of characters.
pub open spec fn pairs_view(v: Seq<(String, String)>) -> Seq<(Seq<char>, Seq<char>)> {
    v.map_values(|p: (String, String)| (p.0@, p.1@))
}

/// Strips all leading and all trailing double quotes from a field value.
pub fn trim_value(v: &str) -> (r: String)
    ensures
        r@ == trim_quotes(v@),
{
    let n = v.unicode_len();
    let mut lo: usize = 0;
    while lo < n && v.get_char(lo) == '"'
        invariant
            n == v@.len(),
            lo <= n,
            trim_lo(v@, 0) == trim_lo(v@, lo as int),
        decreases n - lo,
    {
        lo = lo + 1;
    }
    assert(trim_lo(v@, 0) == lo);
    let mut hi: usize = n;
    while hi > lo && v.get_char(hi - 1) == '"'
        invariant
            n == v@.len(),
            lo <= hi <= n,
            trim_hi(v@, lo as int, n as int) == trim_hi(v@, lo as int, hi as int),
        decreases hi,
    {
        hi = hi - 1;
    }
    assert(trim_hi(v@, lo as int, n as int) == hi);
    v.substring_char(lo, hi).to_owned()
}

/// Runs the header scan over the whole text: `Some` with the ordered pairs,
/// `None` on the first tag whose interior holds no space.
pub fn scan_headers(s: &str) -> (r: Option<Vec<(String, String)>>)
    ensures
        match r {
            Some(v) => spec_headers(s@) == Some(pairs_view(v@)),
            None => spec_headers(s@) is None,
        },
{
    let n = s.unicode_len();
    let mut out: Vec<(String, String)> = Vec::new();
    let mut i: usize = 0;
    while i < n
        invariant
            n == s@.len(),
            i <= n,
            match headers_from(s@, i as int) {
                Some(rest) => headers_from(s@, 0) == Some(pairs_view(out@) + rest),
                None => headers_from(s@, 0) is None,
            },
        decreases n - i,
    {
        if s.get_char(i) == '[' {
            let k = find_from_str(s, ']', i + 1, n);
            if i + 1 < k && k < n {
                let interior = s.substring_char(i + 1, k);
                let ilen = k - (i + 1);
                assert(interior@.len() == ilen);
                let p = find_from_str(interior, ' ', 0, ilen);
                if p < ilen {
                    let name = interior.substring_char(0, p).to_owned();
                    let value = trim_value(interior.substring_char(p + 1, ilen));
                    proof {
                        let ghost tag = split_tag(s@.subrange(i + 1, k as int));
                        assert(tag == Some((name@, value@)));
                        let ghost prev = out@;
                        assert(pairs_view(prev.push((name, value))) =~= pairs_view(prev) + seq![
                            (name@, value@),
                        ]);
                    }
                    let ghost prev_out = out@;
                    out.push((name, value));
                    proof {
                        let ghost rest_opt = headers_from(s@, k + 1 as int);
                        if rest_opt is Some {
                            assert(headers_from(s@, i as int) == Some(
                                seq![(name@, value@)] + rest_opt.unwrap(),
                            ));
                            assert(pairs_view(prev_out) + (seq![(name@, value@)]
                                + rest_opt.unwrap()) =~= pairs_view(out@) + rest_opt.unwrap());
                        } else {
                            assert(headers_from(s@, i as int) is None);
                        }
                    }
                    i = k + 1;
                } else {
                    assert(split_tag(s@.subrange(i + 1, k as int)) is None);
                    assert(headers_from(s@, i as int) is None);
                    return None;
                }
            } else {
                i = i + 1;
            }
        } else {
            i = i + 1;
        }
    }
    assert(headers_from(s@, n as int) == Some(Seq::<(Seq<char>, Seq<char>)>::empty()));
    assert(pairs_view(out@) + Seq::<(Seq<char>, Seq<char>)>::empty() =~= pairs_view(out@));
    Some(out)
}

} // verus!
