//! Character-level text helpers: conversion between `&str` and `Vec<char>`,
//! equality, substring search, and splitting on a separator character.
//! Everything is specified over `Seq<char>` views.

use vstd::prelude::*;
use vstd::string::StrSliceExecFns;

verus! {

/// Index of the first occurrence of `c` in `s`, if any.
pub open spec fn find_idx(s: Seq<char>, c: char) -> Option<int>
    decreases s.len(),
{
    if s.len() == 0 {
        None
    } else if s[0] == c {
        Some(0int)
    } else {
        match find_idx(s.drop_first(), c) {
            None => None,
            Some(i) => Some(i + 1),
        }
    }
}

/// `find_idx` returns the first occurrence: the character there is `c`
/// and no earlier character is.
pub proof fn lemma_find_idx(s: Seq<char>, c: char)
    ensures
        match find_idx(s, c) {
            Some(i) => 0 <= i < s.len() && s[i] == c
                && (forall|j: int| 0 <= j < i ==> s[j] != c),
            None => forall|j: int| 0 <= j < s.len() ==> s[j] != c,
        },
    decreases s.len(),
{
    if s.len() > 0 && s[0] != c {
        lemma_find_idx(s.drop_first(), c);
        match find_idx(s.drop_first(), c) {
            None => {
                assert forall|j: int| 0 <= j < s.len() implies s[j] != c by {
                    if j > 0 {
                        assert(s.drop_first()[j - 1] == s[j]);
                    }
                }
            },
            Some(i) => {
                assert(s.drop_first()[i] == s[i + 1]);
                assert forall|j: int| 0 <= j < i + 1 implies s[j] != c by {
                    if j > 0 {
                        assert(s.drop_first()[j - 1] == s[j]);
                    }
                }
            },
        }
    }
}

/// The pieces of `s` between occurrences of `sep`, in order; always at
/// least one piece (splitting the empty sequence gives one empty piece).
pub open spec fn split_on(s: Seq<char>, sep: char) -> Seq<Seq<char>>
    decreases s.len(),
    via split_on_decreases
{
    match find_idx(s, sep) {
        None => seq![s],
        Some(i) => seq![s.take(i)] + split_on(s.skip(i + 1), sep),
    }
}

#[via_fn]
proof fn split_on_decreases(s: Seq<char>, sep: char) {
    lemma_find_idx(s, sep);
}

/// Whether `needle` occurs in `hay` as a contiguous subsequence.
pub open spec fn spec_contains(hay: Seq<char>, needle: Seq<char>) -> bool {
    exists|i: int|
        0 <= i && i + needle.len() <= hay.len()
            && #[trigger] hay.subrange(i, i + needle.len()) == needle
}

/// The characters of `s`, one by one.
pub fn str_to_chars(s: &str) -> (r: Vec<char>)
    ensures
        r@ == s@,
{
    let n = s.unicode_len();
    let mut v: Vec<char> = Vec::new();
    let mut i: usize = 0;
    while i < n
        invariant
            i <= n,
            n == s@.len(),
            v@ == s@.subrange(0, i as int),
        decreases n - i,
    {
        let c = s.get_char(i);
        v.push(c);
        proof {
            assert(s@.subrange(0, (i + 1) as int)
                =~= s@.subrange(0, i as int).push(s@[i as int]));
        }
        i += 1;
    }
    proof {
        assert(v@ =~= s@);
    }
    v
}

/// Exact equality of two string slices.
pub fn str_eq(a: &str, b: &str) -> (r: bool)
    ensures
        r == (a@ == b@),
{
    let na = a.unicode_len();
    let nb = b.unicode_len();
    if na != nb {
        proof {
            assert(a@ != b@);
        }
        return false;
    }
    let mut i: usize = 0;
    while i < na
        invariant
            i <= na,
            na == a@.len(),
            na == b@.len(),
            a@.subrange(0, i as int) == b@.subrange(0, i as int),
        decreases na - i,
    {
        if a.get_char(i) != b.get_char(i) {
            proof {
                assert(a@[i as int] != b@[i as int]);
            }
            return false;
        }
        proof {
            assert(a@.subrange(0, (i + 1) as int)
                =~= a@.subrange(0, i as int).push(a@[i as int]));
            assert(b@.subrange(0, (i + 1) as int)
                =~= b@.subrange(0, i as int).push(b@[i as int]));
        }
        i += 1;
    }
    proof {
        assert(a@ =~= a@.subrange(0, na as int));
        assert(b@ =~= b@.subrange(0, na as int));
    }
    true
}

/// Equality of a string slice against a range `[from, to)` of a character
/// vector.
pub fn str_eq_range(a: &str, cs: &Vec<char>, from: usize, to: usize) -> (r: bool)
    requires
        from <= to <= cs@.len(),
    ensures
        r == (a@ == cs@.subrange(from as int, to as int)),
{
    let na = a.unicode_len();
    if na != to - from {
        proof {
            assert(a@ != cs@.subrange(from as int, to as int));
        }
        return false;
    }
    let mut i: usize = 0;
    while i < na
        invariant
            i <= na,
            na == a@.len(),
            from <= to <= cs@.len(),
            na == to - from,
            a@.subrange(0, i as int)
                == cs@.subrange(from as int, (from + i) as int),
        decreases na - i,
    {
        if a.get_char(i) != cs[from + i] {
            proof {
                assert(a@[i as int] != cs@.subrange(from as int, to as int)[i as int]);
            }
            return false;
        }
        proof {
            assert(a@.subrange(0, (i + 1) as int)
                =~= a@.subrange(0, i as int).push(a@[i as int]));
            assert(cs@.subrange(from as int, (from + i + 1) as int)
                =~= cs@.subrange(from as int, (from + i) as int).push(cs@[(from + i) as int]));
        }
        i += 1;
    }
    proof {
        assert(a@ =~= a@.subrange(0, na as int));
        assert(cs@.subrange(from as int, to as int) =~= a@);
    }
    true
}

/// Copies the range `[from, to)` of a character vector.
pub fn copy_range(cs: &Vec<char>, from: usize, to: usize) -> (r: Vec<char>)
    requires
        from <= to <= cs@.len(),
    ensures
        r@ == cs@.subrange(from as int, to as int),
{
    let mut v: Vec<char> = Vec::new();
    let mut i: usize = from;
    while i < to
        invariant
            from <= i <= to <= cs@.len(),
            v@ == cs@.subrange(from as int, i as int),
        decreases to - i,
    {
        v.push(cs[i]);
        proof {
            assert(cs@.subrange(from as int, (i + 1) as int)
                =~= cs@.subrange(from as int, i as int).push(cs@[i as int]));
        }
        i += 1;
    }
    v
}

/// Collects characters back into an owned string.
/// Relies on `String`'s `FromIterator` implementation: collecting from a
/// character iterator yields exactly those characters in order.
#[verifier::external_body]
pub fn chars_to_string(cs: &Vec<char>) -> (r: String)
    ensures
        r@ == cs@,
{
    cs.iter().collect()
}

/// First occurrence of `c` in `cs` at or after `from`, reported as an
/// offset into the suffix, matching `find_idx` on that suffix.
pub fn find_char_from(cs: &Vec<char>, c: char, from: usize) -> (r: Option<usize>)
    requires
        from <= cs@.len(),
    ensures
        match r {
            Some(i) => from + i < cs@.len() && find_idx(cs@.skip(from as int), c) == Some(i as int),
            None => find_idx(cs@.skip(from as int), c) is None,
        },
{
    proof {
        lemma_find_idx(cs@.skip(from as int), c);
    }
    let n = cs.len();
    let mut i: usize = from;
    while i < n
        invariant
            from <= i <= n,
            n == cs@.len(),
            forall|j: int| from <= j < i ==> cs@[j] != c,
        decreases n - i,
    {
        if cs[i] == c {
            proof {
                let suf = cs@.skip(from as int);
                assert(suf[(i - from) as int] == cs@[i as int]);
                assert(forall|j: int| 0 <= j < i - from ==> suf[j] == cs@[j + from]);
                lemma_find_idx(suf, c);
            }
            return Some(i - from);
        }
        i += 1;
    }
    proof {
        let suf = cs@.skip(from as int);
        assert(forall|j: int| 0 <= j < suf.len() ==> suf[j] == cs@[j + from]);
        lemma_find_idx(suf, c);
    }
    None
}

/// Substring search: whether `needle` occurs contiguously in `hay`.
pub fn str_contains(hay: &str, needle: &str) -> (r: bool)
    ensures
        r == spec_contains(hay@, needle@),
{
    let h = str_to_chars(hay);
    let n = str_to_chars(needle);
    let hl = h.len();
    let nl = n.len();
    if nl > hl {
        return false;
    }
    if nl == 0 {
        proof {
            let l: int = needle@.len() as int;
            assert(hay@.subrange(0, 0 + l) =~= needle@);
            assert(spec_contains(hay@, needle@));
        }
        return true;
    }
    let mut i: usize = 0;
    while i <= hl - nl
        invariant
            h@ == hay@,
            n@ == needle@,
            hl == hay@.len(),
            nl == needle@.len(),
            0 < nl <= hl,
            i <= hl - nl + 1,
            forall|k: int| 0 <= k < i ==> #[trigger] hay@.subrange(k, k + needle@.len()) != needle@,
        decreases hl - i,
    {
        if str_match_at(&h, &n, i) {
            proof {
                assert(hay@.subrange(i as int, i + needle@.len()) == needle@);
            }
            return true;
        }
        i += 1;
    }
    proof {
        assert forall|k: int| 0 <= k && k + needle@.len() <= hay@.len()
            implies #[trigger] hay@.subrange(k, k + needle@.len()) != needle@ by {
            assert(k < i);
        }
    }
    false
}

/// Whether `needle` matches `hay` starting at position `at`.
fn str_match_at(hay: &Vec<char>, needle: &Vec<char>, at: usize) -> (r: bool)
    requires
        at + needle@.len() <= hay@.len(),
    ensures
        r == (hay@.subrange(at as int, at + needle@.len()) == needle@),
{
    let hl = hay.len();
    let nl = needle.len();
    let mut j: usize = 0;
    while j < nl
        invariant
            j <= nl,
            nl == needle@.len(),
            hl == hay@.len(),
            at + nl <= hl,
            hay@.subrange(at as int, (at + j) as int) == needle@.subrange(0, j as int),
        decreases nl - j,
    {
        if hay[at + j] != needle[j] {
            proof {
                assert(hay@.subrange(at as int, at + needle@.len())[j as int]
                    != needle@[j as int]);
            }
            return false;
        }
        proof {
            assert(hay@.subrange(at as int, (at + j + 1) as int)
                =~= hay@.subrange(at as int, (at + j) as int).push(hay@[(at + j) as int]));
            assert(needle@.subrange(0, (j + 1) as int)
                =~= needle@.subrange(0, j as int).push(needle@[j as int]));
        }
        j += 1;
    }
    proof {
        assert(needle@ =~= needle@.subrange(0, nl as int));
        assert(hay@.subrange(at as int, at + needle@.len()) =~= needle@);
    }
    true
}

} // verus!
