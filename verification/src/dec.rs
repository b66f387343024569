//! Numeric equality of decimal texts. A `Float` metadata value carries its
//! decimal text; an equality predicate compares it with the pattern operand
//! as numbers: both are brought to a normal form (sign, digits without
//! leading or trailing zeros, and a power-of-ten exponent) and the forms
//! are compared. `1.50`, `1.5` and `15e-1` all denote the same number.
//!
//! Texts that are not decimal numerals (and absurdly long ones: more than
//! a billion digits, or exponents beyond 10^18) have no normal form, and
//! compare unequal to everything.

use vstd::prelude::*;
use crate::num::all_digits;
use crate::num::digits_val;
use crate::text::find_idx;
use crate::text::lemma_find_idx;
use crate::text::str_to_chars;
use crate::text::copy_range;

verus! {

/// Index of the first exponent marker (`e` or `E`).
pub open spec fn find_e(s: Seq<char>) -> Option<int>
    decreases s.len(),
{
    if s.len() == 0 {
        None
    } else if s[0] == 'e' || s[0] == 'E' {
        Some(0int)
    } else {
        match find_e(s.drop_first()) {
            None => None,
            Some(i) => Some(i + 1),
        }
    }
}

pub proof fn lemma_find_e(s: Seq<char>)
    ensures
        match find_e(s) {
            Some(i) => 0 <= i < s.len() && (s[i] == 'e' || s[i] == 'E')
                && (forall|j: int| 0 <= j < i ==> s[j] != 'e' && s[j] != 'E'),
            None => forall|j: int| 0 <= j < s.len() ==> s[j] != 'e' && s[j] != 'E',
        },
    decreases s.len(),
{
    if s.len() > 0 && !(s[0] == 'e' || s[0] == 'E') {
        lemma_find_e(s.drop_first());
        match find_e(s.drop_first()) {
            None => {
                assert forall|j: int| 0 <= j < s.len() implies s[j] != 'e' && s[j] != 'E' by {
                    if j > 0 {
                        assert(s.drop_first()[j - 1] == s[j]);
                    }
                }
            },
            Some(i) => {
                assert(s.drop_first()[i] == s[i + 1]);
                assert forall|j: int| 0 <= j < i + 1 implies s[j] != 'e' && s[j] != 'E' by {
                    if j > 0 {
                        assert(s.drop_first()[j - 1] == s[j]);
                    }
                }
            },
        }
    }
}

/// Drops leading `0` digits.
pub open spec fn strip_lead(s: Seq<char>) -> Seq<char>
    decreases s.len(),
{
    if s.len() > 0 && s[0] == '0' {
        strip_lead(s.drop_first())
    } else {
        s
    }
}

pub proof fn lemma_strip_lead_skip(s: Seq<char>, k: int)
    requires
        0 <= k <= s.len(),
        forall|j: int| 0 <= j < k ==> s[j] == '0',
        k < s.len() ==> s[k] != '0',
    ensures
        strip_lead(s) == s.skip(k),
    decreases k,
{
    if k == 0 {
        assert(s.skip(0) =~= s);
    } else {
        assert(s[0] == '0');
        lemma_strip_lead_skip(s.drop_first(), k - 1);
        assert(s.drop_first().skip(k - 1) =~= s.skip(k));
    }
}

/// Number of trailing `0` digits.
pub open spec fn count_trail(s: Seq<char>) -> nat
    decreases s.len(),
{
    if s.len() > 0 && s.last() == '0' {
        1 + count_trail(s.drop_last())
    } else {
        0
    }
}

pub proof fn lemma_count_trail(s: Seq<char>, t: int)
    requires
        0 <= t <= s.len(),
        forall|j: int| s.len() - t <= j < s.len() ==> s[j] == '0',
        t < s.len() ==> s[s.len() - t - 1] != '0',
    ensures
        count_trail(s) == t,
    decreases t,
{
    if t == 0 {
    } else {
        assert(s.last() == '0');
        lemma_count_trail(s.drop_last(), t - 1);
    }
}

/// The text after the optional sign.
pub open spec fn dec_rest(s: Seq<char>) -> Seq<char> {
    if s.len() > 0 && (s[0] == '-' || s[0] == '+') {
        s.drop_first()
    } else {
        s
    }
}

pub open spec fn dec_neg(s: Seq<char>) -> bool {
    s.len() > 0 && s[0] == '-'
}

/// The mantissa: the part before the exponent marker.
pub open spec fn dec_mant(s: Seq<char>) -> Seq<char> {
    match find_e(dec_rest(s)) {
        Some(i) => dec_rest(s).take(i),
        None => dec_rest(s),
    }
}

/// Digits before the decimal point.
pub open spec fn dec_ip(s: Seq<char>) -> Seq<char> {
    match find_idx(dec_mant(s), '.') {
        Some(d) => dec_mant(s).take(d),
        None => dec_mant(s),
    }
}

/// Digits after the decimal point.
pub open spec fn dec_fp(s: Seq<char>) -> Seq<char> {
    match find_idx(dec_mant(s), '.') {
        Some(d) => dec_mant(s).skip(d + 1),
        None => Seq::<char>::empty(),
    }
}

/// The exponent value, if the exponent part is well-formed
/// (sign and digits, the value capped at 10^18).
pub open spec fn dec_exp(s: Seq<char>) -> Option<int> {
    match find_e(dec_rest(s)) {
        Some(i) => {
            let ex = dec_rest(s).skip(i + 1);
            let eneg = ex.len() > 0 && ex[0] == '-';
            let eds = if ex.len() > 0 && (ex[0] == '-' || ex[0] == '+') {
                ex.drop_first()
            } else {
                ex
            };
            if eds.len() > 0 && all_digits(eds) && digits_val(eds) <= 1_000_000_000_000_000_000 {
                if eneg {
                    Some(-(digits_val(eds) as int))
                } else {
                    Some(digits_val(eds) as int)
                }
            } else {
                None
            }
        },
        None => Some(0int),
    }
}

/// A well-formed numeral: digits on both sides of the point (at least one
/// in all), neither side absurdly long, and a well-formed exponent.
pub open spec fn dec_ok(s: Seq<char>) -> bool {
    all_digits(dec_ip(s)) && all_digits(dec_fp(s))
        && dec_ip(s).len() + dec_fp(s).len() > 0
        && dec_ip(s).len() <= 1_000_000_000 && dec_fp(s).len() <= 1_000_000_000
        && dec_exp(s) is Some
}

/// The normal form of a decimal numeral: sign, digits with no leading or
/// trailing zeros, and the exponent that places them. Zero normalizes to
/// an empty digit string with positive sign.
pub open spec fn spec_dec_norm(s: Seq<char>) -> Option<(bool, Seq<char>, int)> {
    if dec_ok(s) {
        let md = strip_lead(dec_ip(s) + dec_fp(s));
        let tz = count_trail(md);
        let md2 = md.take(md.len() - tz);
        if md2.len() == 0 {
            Some((false, md2, 0int))
        } else {
            Some((dec_neg(s), md2, dec_exp(s)->0 - dec_fp(s).len() + tz))
        }
    } else {
        None
    }
}

/// Whether two texts denote the same decimal number.
pub open spec fn spec_dec_eq(a: Seq<char>, b: Seq<char>) -> bool {
    match (spec_dec_norm(a), spec_dec_norm(b)) {
        (Some(x), Some(y)) => x == y,
        _ => false,
    }
}

/// First `e`/`E` in `cs` at or after `from`, as an offset into the suffix.
fn find_e_from(cs: &Vec<char>, from: usize) -> (r: Option<usize>)
    requires
        from <= cs@.len(),
    ensures
        match r {
            Some(i) => from + i < cs@.len() && find_e(cs@.skip(from as int)) == Some(i as int),
            None => find_e(cs@.skip(from as int)) is None,
        },
{
    let n = cs.len();
    let mut i: usize = from;
    while i < n
        invariant
            from <= i <= n,
            n == cs@.len(),
            forall|j: int| from <= j < i ==> cs@[j] != 'e' && cs@[j] != 'E',
        decreases n - i,
    {
        let c = cs[i];
        if c == 'e' || c == 'E' {
            proof {
                let suf = cs@.skip(from as int);
                assert(suf[(i - from) as int] == cs@[i as int]);
                assert(forall|j: int| 0 <= j < i - from ==> suf[j] == cs@[j + from]);
                lemma_find_e(suf);
            }
            return Some(i - from);
        }
        i += 1;
    }
    proof {
        let suf = cs@.skip(from as int);
        assert(forall|j: int| 0 <= j < suf.len() ==> suf[j] == cs@[j + from]);
        lemma_find_e(suf);
    }
    None
}

/// Whether `cs[from..to]` consists of digits only.
fn all_digits_range(cs: &Vec<char>, from: usize, to: usize) -> (r: bool)
    requires
        from <= to <= cs@.len(),
    ensures
        r == all_digits(cs@.subrange(from as int, to as int)),
{
    let mut i: usize = from;
    while i < to
        invariant
            from <= i <= to <= cs@.len(),
            forall|j: int| from <= j < i ==> crate::num::is_digit(#[trigger] cs@[j]),
        decreases to - i,
    {
        let c = cs[i];
        if !(c >= '0' && c <= '9') {
            proof {
                assert(cs@.subrange(from as int, to as int)[(i - from) as int] == cs@[i as int]);
            }
            return false;
        }
        i += 1;
    }
    proof {
        let k = cs@.subrange(from as int, to as int);
        assert(forall|j: int| 0 <= j < k.len() ==> k[j] == cs@[j + from]);
    }
    true
}


/// Collects `cs[a..b]` followed by `cs[c..d]`.
fn build_digits(cs: &Vec<char>, a: usize, b: usize, c: usize, d: usize) -> (r: Vec<char>)
    requires
        a <= b <= cs@.len(),
        c <= d <= cs@.len(),
    ensures
        r@ == cs@.subrange(a as int, b as int) + cs@.subrange(c as int, d as int),
{
    let mut md: Vec<char> = Vec::new();
    let mut i: usize = a;
    while i < b
        invariant
            a <= i <= b <= cs@.len(),
            md@ == cs@.subrange(a as int, i as int),
        decreases b - i,
    {
        md.push(cs[i]);
        proof {
            assert(cs@.subrange(a as int, (i + 1) as int)
                =~= cs@.subrange(a as int, i as int).push(cs@[i as int]));
        }
        i += 1;
    }
    let mut j: usize = c;
    while j < d
        invariant
            c <= j <= d <= cs@.len(),
            a <= b <= cs@.len(),
            md@ == cs@.subrange(a as int, b as int) + cs@.subrange(c as int, j as int),
        decreases d - j,
    {
        md.push(cs[j]);
        proof {
            assert(cs@.subrange(c as int, (j + 1) as int)
                =~= cs@.subrange(c as int, j as int).push(cs@[j as int]));
            assert(cs@.subrange(a as int, b as int) + cs@.subrange(c as int, (j + 1) as int)
                =~= (cs@.subrange(a as int, b as int)
                    + cs@.subrange(c as int, j as int)).push(cs@[j as int]));
        }
        j += 1;
    }
    md
}

/// How many leading and trailing zeros the digit string has (trailing ones
/// counted after the leading ones are dropped).
fn strip_bounds(md: &Vec<char>) -> (r: (usize, usize))
    ensures
        r.0 + r.1 <= md@.len(),
        strip_lead(md@) == md@.skip(r.0 as int),
        count_trail(strip_lead(md@)) == r.1,
{
    let mdn = md.len();
    let mut lz: usize = 0;
    while lz < mdn && md[lz] == '0'
        invariant
            lz <= mdn,
            mdn == md@.len(),
            forall|j: int| 0 <= j < lz ==> md@[j] == '0',
        decreases mdn - lz,
    {
        lz += 1;
    }
    proof {
        lemma_strip_lead_skip(md@, lz as int);
    }
    let mut tz: usize = 0;
    while tz < mdn - lz && md[mdn - 1 - tz] == '0'
        invariant
            lz <= mdn,
            mdn == md@.len(),
            tz <= mdn - lz,
            forall|j: int| mdn - tz <= j < mdn ==> md@[j] == '0',
        decreases mdn - lz - tz,
    {
        tz += 1;
    }
    proof {
        let suf = md@.skip(lz as int);
        assert(suf.len() == mdn - lz);
        assert(forall|j: int| 0 <= j < suf.len() ==> suf[j] == md@[j + lz]);
        if (tz as int) < suf.len() {
            assert(suf[suf.len() - tz - 1] == md@[mdn - 1 - tz as int]);
        }
        lemma_count_trail(suf, tz as int);
    }
    (lz, tz)
}

/// Reads the exponent text `cs[estart..]`: sign and digits, the value
/// capped at 10^18.
fn parse_exp_part(cs: &Vec<char>, estart: usize) -> (r: Option<i64>)
    requires
        estart <= cs@.len(),
    ensures
        ({
            let ex = cs@.skip(estart as int);
            let eneg = ex.len() > 0 && ex[0] == '-';
            let eds = if ex.len() > 0 && (ex[0] == '-' || ex[0] == '+') {
                ex.drop_first()
            } else {
                ex
            };
            let ok = eds.len() > 0 && all_digits(eds)
                && digits_val(eds) <= 1_000_000_000_000_000_000;
            match r {
                Some(v) => ok && v as int
                    == (if eneg { -(digits_val(eds) as int) } else { digits_val(eds) as int }),
                None => !ok,
            }
        }),
{
    let n = cs.len();
    let eneg = estart < n && cs[estart] == '-';
    let q0: usize = if estart < n && (cs[estart] == '-' || cs[estart] == '+') {
        estart + 1
    } else {
        estart
    };
    proof {
        let ex = cs@.skip(estart as int);
        if estart < n && (cs@[estart as int] == '-' || cs@[estart as int] == '+') {
            assert(ex.drop_first() =~= cs@.skip(q0 as int));
        } else {
            assert(ex =~= cs@.skip(q0 as int));
        }
    }
    match crate::num::parse_digits(cs, q0, 1_000_000_000_000_000_000u64) {
        Some(v) => {
            if eneg {
                Some(-(v as i64))
            } else {
                Some(v as i64)
            }
        },
        None => None,
    }
}

/// Finds the sign, the mantissa split, and the exponent value:
/// the integer digits are `cs[r.1..r.2]`, the fraction digits
/// `cs[r.3..r.4]`, and `r.5` the exponent, if well-formed.
#[verifier::rlimit(100)]
#[verifier::spinoff_prover]
fn dec_layout(cs: &Vec<char>) -> (r: (bool, usize, usize, usize, usize, Option<i64>))
    ensures
        r.1 <= r.2 <= cs@.len(),
        r.3 <= r.4 <= cs@.len(),
        r.0 == dec_neg(cs@),
        dec_ip(cs@) == cs@.subrange(r.1 as int, r.2 as int),
        dec_fp(cs@) == cs@.subrange(r.3 as int, r.4 as int),
        match r.5 {
            Some(v) => dec_exp(cs@) == Some(v as int),
            None => dec_exp(cs@) is None,
        },
{
    let n = cs.len();
    let neg = n > 0 && cs[0] == '-';
    let p0: usize = if n > 0 && (cs[0] == '-' || cs[0] == '+') {
        1
    } else {
        0
    };
    proof {
        assert(dec_rest(cs@) =~= cs@.skip(p0 as int));
    }
    // mantissa ends at the exponent marker, if any
    let epos = find_e_from(cs, p0);
    let m_end: usize = match epos {
        Some(off) => p0 + off,
        None => n,
    };
    proof {
        assert(dec_mant(cs@) =~= cs@.subrange(p0 as int, m_end as int));
    }
    // the exponent value
    let e10: Option<i64> = match epos {
        Some(off) => {
            proof {
                assert(dec_rest(cs@).skip(off + 1) =~= cs@.skip((p0 + off + 1) as int));
            }
            parse_exp_part(cs, p0 + off + 1)
        },
        None => Some(0i64),
    };
    // split the mantissa at the decimal point
    let dot = find_dot_range(cs, p0, m_end);
    let ip_end: usize = match dot {
        Some(off) => p0 + off,
        None => m_end,
    };
    let fp_start: usize = match dot {
        Some(off) => p0 + off + 1,
        None => m_end,
    };
    proof {
        let mant = dec_mant(cs@);
        match find_idx(mant, '.') {
            Some(d) => {
                assert(mant.take(d) =~= cs@.subrange(p0 as int, ip_end as int));
                assert(mant.skip(d + 1) =~= cs@.subrange(fp_start as int, m_end as int));
            },
            None => {
                assert(mant =~= cs@.subrange(p0 as int, ip_end as int));
                assert(Seq::<char>::empty() =~= cs@.subrange(fp_start as int, m_end as int));
            },
        }
    }
    (neg, p0, ip_end, fp_start, m_end, e10)
}

/// Computes the normal form of the numeral in `cs`, if it is one.
#[verifier::rlimit(100)]
#[verifier::spinoff_prover]
fn dec_norm_exec(cs: &Vec<char>) -> (r: Option<(bool, Vec<char>, i64)>)
    ensures
        match r {
            Some(t) => spec_dec_norm(cs@) == Some((t.0, t.1@, t.2 as int)),
            None => spec_dec_norm(cs@) is None,
        },
{
    let (neg, p0, ip_end, fp_start, m_end, e10) = dec_layout(cs);
    let ip_ok = all_digits_range(cs, p0, ip_end);
    let fp_ok = all_digits_range(cs, fp_start, m_end);
    let ip_len = ip_end - p0;
    let fp_len = m_end - fp_start;
    if !(ip_ok && fp_ok && (ip_len > 0 || fp_len > 0) && ip_len <= 1_000_000_000
        && fp_len <= 1_000_000_000 && e10.is_some()) {
        proof {
            assert(!dec_ok(cs@));
        }
        return None;
    }
    proof {
        assert(dec_ok(cs@));
    }
    let e10v = match e10 {
        Some(v) => v,
        None => 0,
    };
    let md = build_digits(cs, p0, ip_end, fp_start, m_end);
    proof {
        assert(md@ == dec_ip(cs@) + dec_fp(cs@));
    }
    let (lz, tz) = strip_bounds(&md);
    let ghost stripped = strip_lead(md@);
    let keep = md.len() - lz - tz;
    let md2 = copy_range(&md, lz, lz + keep);
    proof {
        let md2s = stripped.take(stripped.len() - count_trail(stripped));
        assert(md2@ =~= md2s);
    }
    if keep == 0 {
        Some((false, md2, 0i64))
    } else {
        // the exponent of the normal form
        let ev: i64 = e10v - (fp_len as i64) + (tz as i64);
        proof {
            assert(ev as int == dec_exp(cs@)->0 - dec_fp(cs@).len() + tz);
        }
        Some((neg, md2, ev))
    }
}

/// First `.` in `cs[from..to)`, as an offset into that range.
fn find_dot_range(cs: &Vec<char>, from: usize, to: usize) -> (r: Option<usize>)
    requires
        from <= to <= cs@.len(),
    ensures
        match r {
            Some(i) => from + i < to
                && find_idx(cs@.subrange(from as int, to as int), '.') == Some(i as int),
            None => find_idx(cs@.subrange(from as int, to as int), '.') is None,
        },
{
    let mut i: usize = from;
    while i < to
        invariant
            from <= i <= to <= cs@.len(),
            forall|j: int| from <= j < i ==> cs@[j] != '.',
        decreases to - i,
    {
        if cs[i] == '.' {
            proof {
                let sub = cs@.subrange(from as int, to as int);
                assert(sub[(i - from) as int] == cs@[i as int]);
                assert(forall|j: int| 0 <= j < i - from ==> sub[j] == cs@[j + from]);
                lemma_find_idx(sub, '.');
            }
            return Some(i - from);
        }
        i += 1;
    }
    proof {
        let sub = cs@.subrange(from as int, to as int);
        assert(forall|j: int| 0 <= j < sub.len() ==> sub[j] == cs@[j + from]);
        lemma_find_idx(sub, '.');
    }
    None
}

/// Whether `a` and `b` denote the same decimal number.
pub fn dec_eq(a: &str, b: &str) -> (r: bool)
    ensures
        r == spec_dec_eq(a@, b@),
{
    let ca = str_to_chars(a);
    let cb = str_to_chars(b);
    match (dec_norm_exec(&ca), dec_norm_exec(&cb)) {
        (Some(x), Some(y)) => {
            if x.0 != y.0 || x.2 != y.2 {
                return false;
            }
            let nx = x.1.len();
            if nx != y.1.len() {
                proof {
                    assert(x.1@ != y.1@);
                }
                return false;
            }
            let mut i: usize = 0;
            while i < nx
                invariant
                    i <= nx,
                    nx == x.1@.len(),
                    nx == y.1@.len(),
                    spec_dec_norm(a@) == Some((x.0, x.1@, x.2 as int)),
                    spec_dec_norm(b@) == Some((y.0, y.1@, y.2 as int)),
                    x.0 == y.0,
                    x.2 == y.2,
                    x.1@.subrange(0, i as int) == y.1@.subrange(0, i as int),
                decreases nx - i,
            {
                if x.1[i] != y.1[i] {
                    proof {
                        assert(x.1@[i as int] != y.1@[i as int]);
                    }
                    return false;
                }
                proof {
                    assert(x.1@.subrange(0, (i + 1) as int)
                        =~= x.1@.subrange(0, i as int).push(x.1@[i as int]));
                    assert(y.1@.subrange(0, (i + 1) as int)
                        =~= y.1@.subrange(0, i as int).push(y.1@[i as int]));
                }
                i += 1;
            }
            proof {
                assert(x.1@ =~= x.1@.subrange(0, nx as int));
                assert(y.1@ =~= y.1@.subrange(0, nx as int));
            }
            true
        },
        _ => false,
    }
}

} // verus!
