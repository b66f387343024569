//! Decimal numerals: parsing strings to `u64`/`i64` exactly as the standard
//! numeric grammar does (optional sign, then digits, nothing else), and
//! rendering a `u64` back to its decimal digits.

use vstd::prelude::*;
use crate::text::str_to_chars;
use crate::text::chars_to_string;

verus! {

pub open spec fn is_digit(c: char) -> bool {
    '0' <= c <= '9'
}

pub open spec fn digit_val(c: char) -> nat {
    (c as nat - '0' as nat) as nat
}

pub open spec fn all_digits(s: Seq<char>) -> bool {
    forall|i: int| 0 <= i < s.len() ==> is_digit(#[trigger] s[i])
}

/// The number denoted by a digit string, most significant digit first.
pub open spec fn digits_val(s: Seq<char>) -> nat
    decreases s.len(),
{
    if s.len() == 0 {
        0
    } else {
        digits_val(s.drop_last()) * 10 + digit_val(s.last())
    }
}

/// Appending digits never makes the denoted number smaller.
pub proof fn lemma_digits_val_prefix_le(s: Seq<char>, k: int)
    requires
        0 <= k <= s.len(),
    ensures
        digits_val(s.take(k)) <= digits_val(s),
    decreases s.len() - k,
{
    if k < s.len() {
        lemma_digits_val_prefix_le(s.drop_last(), k);
        assert(s.take(k) =~= s.drop_last().take(k));
    } else {
        assert(s.take(k) =~= s);
    }
}

/// What `u64` parsing accepts: an optional `+`, then one or more digits
/// denoting a value that fits.
pub open spec fn spec_parse_u64(s: Seq<char>) -> Option<u64> {
    let ds = if s.len() > 0 && s[0] == '+' {
        s.drop_first()
    } else {
        s
    };
    if ds.len() > 0 && all_digits(ds) && digits_val(ds) <= u64::MAX {
        Some(digits_val(ds) as u64)
    } else {
        None
    }
}

/// What `i64` parsing accepts: an optional sign, then one or more digits
/// denoting a value in range.
pub open spec fn spec_parse_i64(s: Seq<char>) -> Option<i64> {
    if s.len() > 0 && s[0] == '-' {
        let ds = s.drop_first();
        if ds.len() > 0 && all_digits(ds) && digits_val(ds) <= 0x8000_0000_0000_0000 {
            Some((-(digits_val(ds) as int)) as i64)
        } else {
            None
        }
    } else {
        let ds = if s.len() > 0 && s[0] == '+' {
            s.drop_first()
        } else {
            s
        };
        if ds.len() > 0 && all_digits(ds) && digits_val(ds) <= i64::MAX {
            Some(digits_val(ds) as i64)
        } else {
            None
        }
    }
}

/// Reads the digit run `cs[from..]`: the denoted value if the whole suffix
/// is one or more digits and the value is at most `bound`.
pub(crate) fn parse_digits(cs: &Vec<char>, from: usize, bound: u64) -> (r: Option<u64>)
    requires
        from <= cs@.len(),
        bound >= 9,
    ensures
        ({
            let ds = cs@.skip(from as int);
            match r {
                Some(v) => ds.len() > 0 && all_digits(ds) && digits_val(ds) == v
                    && v <= bound,
                None => !(ds.len() > 0 && all_digits(ds) && digits_val(ds) <= bound),
            }
        }),
{
    let ghost ds = cs@.skip(from as int);
    let n = cs.len();
    if from == n {
        return None;
    }
    let mut acc: u64 = 0;
    let mut i: usize = from;
    while i < n
        invariant
            from <= i <= n,
            n == cs@.len(),
            from < n,
            bound >= 9,
            ds == cs@.skip(from as int),
            all_digits(ds.take((i - from) as int)),
            acc == digits_val(ds.take((i - from) as int)),
            acc <= bound,
        decreases n - i,
    {
        let c = cs[i];
        proof {
            assert(ds[(i - from) as int] == cs@[i as int]);
        }
        if !(c >= '0' && c <= '9') {
            proof {
                assert(!is_digit(ds[(i - from) as int]));
            }
            return None;
        }
        let d: u64 = (c as u32 as u64) - 48;
        let q = (bound - d) / 10;
        proof {
            let p = ds.take((i - from) as int);
            let x = ds[(i - from) as int];
            assert(ds.take((i - from + 1) as int) =~= p.push(x));
            assert(p.push(x).drop_last() =~= p);
            assert(p.push(x).last() == x);
            assert(digits_val(p.push(x)) == digits_val(p) * 10 + digit_val(x));
            assert(d == digit_val(x));
        }
        if acc > q {
            proof {
                // the value denoted so far already exceeds the bound, and
                // further digits cannot shrink it
                assert(acc * 10 + d > bound) by (nonlinear_arith)
                    requires
                        acc > (bound - d) / 10,
                        d <= 9,
                        bound >= d,
                ;
                assert(digits_val(ds.take((i - from + 1) as int)) == acc * 10 + d);
                lemma_digits_val_prefix_le(ds, i - from + 1);
            }
            return None;
        }
        proof {
            assert(acc * 10 + d <= bound) by (nonlinear_arith)
                requires
                    acc <= (bound - d) / 10,
                    d <= 9,
                    bound >= d,
            ;
        }
        acc = acc * 10 + d;
        i += 1;
    }
    proof {
        assert(ds.take((n - from) as int) =~= ds);
    }
    Some(acc)
}

/// Parses a decimal `u64`: an optional `+` sign followed by digits.
pub fn parse_u64(s: &str) -> (r: Option<u64>)
    ensures
        r == spec_parse_u64(s@),
{
    let cs = str_to_chars(s);
    if cs.len() == 0 {
        return None;
    }
    let start: usize = if cs[0] == '+' {
        1
    } else {
        0
    };
    proof {
        if s@[0] == '+' {
            assert(s@.skip(1) =~= s@.drop_first());
        } else {
            assert(s@.skip(0) =~= s@);
        }
    }
    parse_digits(&cs, start, u64::MAX)
}

/// Parses a decimal `i64`: an optional sign followed by digits.
pub fn parse_i64(s: &str) -> (r: Option<i64>)
    ensures
        r == spec_parse_i64(s@),
{
    let cs = str_to_chars(s);
    if cs.len() == 0 {
        return None;
    }
    if cs[0] == '-' {
        proof {
            assert(s@.skip(1) =~= s@.drop_first());
        }
        match parse_digits(&cs, 1, 0x8000_0000_0000_0000u64) {
            Some(v) => {
                if v == 0x8000_0000_0000_0000u64 {
                    Some(i64::MIN)
                } else {
                    Some(-(v as i64))
                }
            },
            None => None,
        }
    } else {
        let start: usize = if cs[0] == '+' {
            1
        } else {
            0
        };
        proof {
            if s@[0] == '+' {
                assert(s@.skip(1) =~= s@.drop_first());
            } else {
                assert(s@.skip(0) =~= s@);
            }
        }
        match parse_digits(&cs, start, 0x7fff_ffff_ffff_ffffu64) {
            Some(v) => Some(v as i64),
            None => None,
        }
    }
}

pub open spec fn digit_char(d: nat) -> char {
    ((48 + d) as u8) as char
}

/// The decimal rendering of `n`, without sign or leading zeros
/// (`0` renders as the single digit `0`).
pub open spec fn spec_u64_digits(n: nat) -> Seq<char>
    decreases n,
{
    if n < 10 {
        seq![digit_char(n)]
    } else {
        spec_u64_digits(n / 10).push(digit_char(n % 10))
    }
}

fn push_u64_digits(n: u64, out: &mut Vec<char>)
    ensures
        final(out)@ == old(out)@ + spec_u64_digits(n as nat),
    decreases n,
{
    if n < 10 {
        let c = ((48 + n) as u8) as char;
        out.push(c);
        proof {
            assert(out@ =~= old(out)@ + spec_u64_digits(n as nat));
        }
    } else {
        push_u64_digits(n / 10, out);
        let c = ((48 + (n % 10)) as u8) as char;
        out.push(c);
        proof {
            assert(out@ =~= old(out)@ + spec_u64_digits(n as nat));
        }
    }
}

/// Renders `n` in decimal.
pub fn u64_to_string(n: u64) -> (r: String)
    ensures
        r@ == spec_u64_digits(n as nat),
{
    let mut v: Vec<char> = Vec::new();
    push_u64_digits(n, &mut v);
    proof {
        assert(v@ =~= spec_u64_digits(n as nat));
    }
    chars_to_string(&v)
}

} // verus!
