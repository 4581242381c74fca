//! The extension gate for file hand-offs: only paths whose file name carries
//! the notation's standard extension `pgn` are accepted, before any read is
//! attempted.
//!
//! The file name is determined as std's path inspection determines it:
//! trailing separators and trailing current-directory components are
//! ignored, a path whose final component is the parent directory — or that
//! has nothing left — has no file name, and the extension is what follows
//! the file name's last dot, provided that dot is not its first character.

use vstd::prelude::*;

use crate::record::ParseError;

verus! {

/// Index of the last occurrence of `c` strictly before `j`, or `-1` if there
/// is none.
pub open spec fn rfind_before(s: Seq<char>, c: char, j: int) -> int
    decreases j,
{
    if j <= 0 || j > s.len() {
        -1
    } else if s[j - 1] == c {
        j - 1
    } else {
        rfind_before(s, c, j - 1)
    }
}

/// Looking for the last occurrence only below a bound, a prefix holding that
/// bound is searched exactly like the whole.
proof fn lemma_rfind_before_prefix(s: Seq<char>, q: Seq<char>, c: char, j: int)
    requires
        0 <= j <= q.len() <= s.len(),
        forall|m: int| 0 <= m < j ==> s[m] == q[m],
    ensures
        rfind_before(s, c, j) == rfind_before(q, c, j),
    decreases j,
{
    if j > 0 && s[j - 1] != c {
        lemma_rfind_before_prefix(s, q, c, j - 1);
    }
}

/// The path with trailing separators and trailing current-directory (`.`)
/// components removed: the suffix that plays no part in the file name.
pub open spec fn strip_trailing(p: Seq<char>) -> Seq<char>
    decreases p.len(),
{
    if p.len() == 0 {
        p
    } else if p.last() == '/' {
        strip_trailing(p.drop_last())
    } else if p.last() == '.' && (p.len() == 1 || p[p.len() - 2] == '/') {
        strip_trailing(p.drop_last())
    } else {
        p
    }
}

/// The file name: the final component of the stripped path. Empty when
/// nothing remains of the path.
pub open spec fn spec_file_name(p: Seq<char>) -> Seq<char> {
    let q = strip_trailing(p);
    q.subrange(rfind_before(q, '/', q.len() as int) + 1, q.len() as int)
}

/// The extension: `None` when there is no file name, when the file name is
/// the parent-directory component `..`, or when its last dot is missing or
/// is its first character; otherwise what follows that last dot.
pub open spec fn spec_extension_of(p: Seq<char>) -> Option<Seq<char>> {
    let q = strip_trailing(p);
    let sl = rfind_before(q, '/', q.len() as int);
    let d = rfind_before(q, '.', q.len() as int);
    if spec_file_name(p) == seq!['.', '.'] || d <= sl + 1 {
        None
    } else {
        Some(q.subrange(d + 1, q.len() as int))
    }
}

/// A path carries the standard extension `pgn`, exactly and case-sensitively.
pub open spec fn spec_is_pgn_path(p: Seq<char>) -> bool {
    spec_extension_of(p) == Some(seq!['p', 'g', 'n'])
}

/// View of a found extension, for contracts over the error's payload.
pub open spec fn extension_view(found: Option<String>) -> Option<Seq<char>> {
    match found {
        Some(ext) => Some(ext@),
        None => None,
    }
}

/// Length of the path once trailing separators and trailing `.` components
/// are dropped; what remains is a prefix of the path.
fn stripped_len(s: &str, n: usize) -> (e: usize)
    requires
        n == s@.len(),
    ensures
        e <= n,
        strip_trailing(s@) == s@.subrange(0, e as int),
{
    proof {
        assert(s@.subrange(0, n as int) =~= s@);
    }
    let mut j: usize = n;
    while j > 0 && (s.get_char(j - 1) == '/' || (s.get_char(j - 1) == '.' && (j == 1 || s.get_char(
        j - 2,
    ) == '/')))
        invariant
            n == s@.len(),
            j <= n,
            strip_trailing(s@) == strip_trailing(s@.subrange(0, j as int)),
        decreases j,
    {
        proof {
            let ghost q = s@.subrange(0, j as int);
            assert(q.last() == s@[j as int - 1]);
            assert(j >= 2 ==> q[q.len() - 2] == s@[j as int - 2]);
            assert(strip_trailing(q) == strip_trailing(q.drop_last()));
            assert(q.drop_last() =~= s@.subrange(0, j as int - 1));
        }
        j = j - 1;
    }
    proof {
        let ghost q = s@.subrange(0, j as int);
        if j > 0 {
            assert(q.last() == s@[j as int - 1]);
            assert(j >= 2 ==> q[q.len() - 2] == s@[j as int - 2]);
        }
        assert(strip_trailing(q) == q);
    }
    j
}

/// Executable counterpart of `rfind_before`, searching below `end`.
fn rfind_last(s: &str, c: char, end: usize) -> (r: Option<usize>)
    requires
        end <= s@.len(),
    ensures
        match r {
            Some(m) => rfind_before(s@, c, end as int) == m && m < end,
            None => rfind_before(s@, c, end as int) == -1,
        },
{
    let mut j: usize = end;
    while j > 0
        invariant
            end <= s@.len(),
            j <= end,
            rfind_before(s@, c, end as int) == rfind_before(s@, c, j as int),
        decreases j,
    {
        if s.get_char(j - 1) == c {
            return Some(j - 1);
        }
        j = j - 1;
    }
    None
}

/// Accepts a path only when its extension is the notation's standard one;
/// any other path is rejected — before any read would be attempted — with an
/// error naming the extension that was found instead, if any.
pub fn check_file_extension(file_path: &str) -> (r: Result<(), ParseError>)
    ensures
        r is Ok <==> spec_is_pgn_path(file_path@),
        r matches Err(err) ==> err matches ParseError::IncompatibleFile(found) && extension_view(
            found,
        ) == spec_extension_of(file_path@),
{
    let ghost p = file_path@;
    let n = file_path.unicode_len();
    let e = stripped_len(file_path, n);
    let ghost q = strip_trailing(p);
    proof {
        assert(q == p.subrange(0, e as int));
        assert(q.len() == e);
        assert(forall|m: int| 0 <= m < e ==> p[m] == q[m]);
        lemma_rfind_before_prefix(p, q, '/', e as int);
        lemma_rfind_before_prefix(p, q, '.', e as int);
    }
    let sl = rfind_last(file_path, '/', e);
    let d = rfind_last(file_path, '.', e);
    let file_start: usize = match sl {
        Some(m) => m + 1,
        None => 0,
    };
    let ghost sli = rfind_before(q, '/', q.len() as int);
    let ghost di = rfind_before(q, '.', q.len() as int);
    assert(file_start == sli + 1);
    let ghost fname = spec_file_name(p);
    assert(fname == q.subrange(sli + 1, e as int));
    let dotdot = e - file_start == 2 && file_path.get_char(file_start) == '.'
        && file_path.get_char(file_start + 1) == '.';
    proof {
        if dotdot {
            assert(fname =~= seq!['.', '.']);
        } else if fname == seq!['.', '.'] {
            assert(fname.len() == 2);
            assert(q[sli + 1] == '.' && q[sli + 2] == '.');
            assert(false);
        }
    }
    if dotdot {
        return Err(ParseError::IncompatibleFile(None));
    }
    match d {
        Some(dm) => {
            if dm > file_start {
                let ext = file_path.substring_char(dm + 1, e).to_owned();
                proof {
                    assert(ext@ =~= q.subrange(di + 1, e as int));
                }
                if e - dm == 4 && file_path.get_char(dm + 1) == 'p' && file_path.get_char(dm + 2)
                    == 'g' && file_path.get_char(dm + 3) == 'n' {
                    proof {
                        assert(q.subrange(di + 1, e as int) =~= seq!['p', 'g', 'n']);
                    }
                    Ok(())
                } else {
                    proof {
                        if q.subrange(di + 1, e as int) == seq!['p', 'g', 'n'] {
                            assert(q.subrange(di + 1, e as int).len() == 3);
                            assert(q.subrange(di + 1, e as int)[0] == 'p');
                            assert(q.subrange(di + 1, e as int)[1] == 'g');
                            assert(q.subrange(di + 1, e as int)[2] == 'n');
                            assert(false);
                        }
                    }
                    Err(ParseError::IncompatibleFile(Some(ext)))
                }
            } else {
                assert(spec_extension_of(p) is None);
                Err(ParseError::IncompatibleFile(None))
            }
        },
        None => {
            assert(di == -1 && sli + 1 >= 0);
            assert(spec_extension_of(p) is None);
            Err(ParseError::IncompatibleFile(None))
        },
    }
}

} // verus!
