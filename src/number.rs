//! Exact reading of the decimal numbers that the log prints.
//!
//! A value is held as a whole number of units of 10^-24, so that reading and
//! adding values loses nothing. A field is accepted when it is a decimal
//! literal (optional sign, digits with at most one point, optional `e`/`E`
//! exponent) with at most 36 digits before the exponent and at most 4 in it,
//! whose value is a whole number of units and lies strictly between -10^8
//! and 10^8.
use vstd::prelude::*;
use crate::text::{find_either, find_either_in};

verus! {

/// Decimal places of a [`Fixed`] value.
pub const PLACES: u32 = 24;

/// Digits that a magnitude below [`fixed_limit`] can have in units.
pub const LIMIT_DIGITS: u32 = 32;

/// Digits allowed before the exponent.
pub const MAX_DIGITS: usize = 36;

/// Digits allowed in the exponent.
pub const MAX_EXP_DIGITS: usize = 4;

/// A number read from the log: `units` times 10^-24.
#[derive(Clone, Copy, Debug, PartialEq, Eq, Structural)]
pub struct Fixed {
    pub units: i128,
}

pub open spec fn pow10(n: nat) -> nat
    decreases n,
{
    if n == 0 {
        1
    } else {
        10 * pow10((n - 1) as nat)
    }
}

/// The bound on the magnitude of a value in units: 10^32 units, that is 10^8.
pub open spec fn fixed_limit() -> nat {
    pow10(LIMIT_DIGITS as nat)
}

pub open spec fn is_digit(b: u8) -> bool {
    48 <= b <= 57
}

pub open spec fn all_digits(s: Seq<u8>) -> bool {
    forall|i: int| 0 <= i < s.len() ==> is_digit(#[trigger] s[i])
}

/// The number that a string of decimal digits writes.
pub open spec fn digits_value(s: Seq<u8>) -> nat
    decreases s.len(),
{
    if s.len() == 0 {
        0
    } else {
        digits_value(s.drop_last()) * 10 + (s.last() - 48) as nat
    }
}

pub open spec fn has_sign(s: Seq<u8>) -> bool {
    s.len() > 0 && (s[0] == 43 || s[0] == 45)
}

pub open spec fn is_negative(s: Seq<u8>) -> bool {
    s.len() > 0 && s[0] == 45
}

/// `s` without a leading `+` or `-`.
pub open spec fn unsigned_part(s: Seq<u8>) -> Seq<u8> {
    if has_sign(s) {
        s.drop_first()
    } else {
        s
    }
}

/// The value of an exponent: an optional sign and one to four digits.
pub open spec fn exponent_value(s: Seq<u8>) -> Option<int> {
    let d = unsigned_part(s);
    if 1 <= d.len() <= MAX_EXP_DIGITS && all_digits(d) {
        Some(
            if is_negative(s) {
                -digits_value(d)
            } else {
                digits_value(d) as int
            },
        )
    } else {
        None
    }
}

/// A decimal literal read as `(negative, m, e)`: its value is `m * 10^e`,
/// negated when `negative`.
pub open spec fn decimal_parts(s: Seq<u8>) -> Option<(bool, nat, int)> {
    let body = unsigned_part(s);
    let e = find_either(body, 101, 69);
    let mant = body.subrange(0, e);
    let exp = if e < body.len() {
        exponent_value(body.subrange(e + 1, body.len() as int))
    } else {
        Some(0)
    };
    let p = find_either(mant, 46, 46);
    let int_part = mant.subrange(0, p);
    let frac = if p < mant.len() {
        mant.subrange(p + 1, mant.len() as int)
    } else {
        Seq::empty()
    };
    if all_digits(int_part) && all_digits(frac) && 1 <= int_part.len() + frac.len() <= MAX_DIGITS
        && exp is Some {
        Some((is_negative(s), digits_value(int_part + frac), exp.unwrap() - frac.len()))
    } else {
        None
    }
}

/// `m * 10^e` (negated when `negative`) in units of 10^-24, where it is a
/// whole number of units of magnitude below [`fixed_limit`].
pub open spec fn units_of(negative: bool, m: nat, e: int) -> Option<int> {
    let k = e + PLACES;
    let u: int = if k >= 0 {
        (m * pow10(k as nat)) as int
    } else if m % pow10((-k) as nat) == 0 {
        (m / pow10((-k) as nat)) as int
    } else {
        -1
    };
    if 0 <= u < fixed_limit() {
        Some(
            if negative {
                -u
            } else {
                u
            },
        )
    } else {
        None
    }
}

/// The value of a decimal literal in units of 10^-24, where it is accepted.
pub open spec fn number_units(s: Seq<u8>) -> Option<int> {
    match decimal_parts(s) {
        Some((negative, m, e)) => units_of(negative, m, e),
        None => None,
    }
}

pub proof fn lemma_pow10_positive(n: nat)
    ensures
        pow10(n) >= 1,
    decreases n,
{
    if n > 0 {
        lemma_pow10_positive((n - 1) as nat);
    }
}

pub proof fn lemma_pow10_add(a: nat, b: nat)
    ensures
        pow10(a + b) == pow10(a) * pow10(b),
    decreases b,
{
    if b == 0 {
        assert(pow10(0) == 1);
        assert(a + b == a);
    } else {
        lemma_pow10_add(a, (b - 1) as nat);
        assert((a + b - 1) as nat == a + (b - 1) as nat);
        assert(pow10(a + b) == 10 * pow10((a + b - 1) as nat));
        assert(pow10(a) * pow10(b) == pow10(a) * (10 * pow10((b - 1) as nat)));
        assert(pow10(a) * (10 * pow10((b - 1) as nat)) == 10 * (pow10(a) * pow10((b - 1) as nat)))
            by (nonlinear_arith);
    }
}

pub proof fn lemma_pow10_mono(a: nat, b: nat)
    requires
        a <= b,
    ensures
        pow10(a) <= pow10(b),
{
    lemma_pow10_add(a, (b - a) as nat);
    lemma_pow10_positive((b - a) as nat);
    lemma_pow10_positive(a);
    assert(pow10(a) * pow10((b - a) as nat) >= pow10(a)) by (nonlinear_arith)
        requires
            pow10((b - a) as nat) >= 1,
            pow10(a) >= 1,
    ;
}

pub proof fn lemma_digits_bound(s: Seq<u8>)
    requires
        all_digits(s),
    ensures
        digits_value(s) < pow10(s.len()),
    decreases s.len(),
{
    if s.len() > 0 {
        let t = s.drop_last();
        assert(all_digits(t)) by {
            assert forall|i: int| 0 <= i < t.len() implies is_digit(#[trigger] t[i]) by {
                assert(t[i] == s[i]);
            }
        }
        lemma_digits_bound(t);
        assert(is_digit(s[s.len() - 1]));
        assert(digits_value(t) * 10 + 9 < pow10(t.len()) * 10) by (nonlinear_arith)
            requires
                digits_value(t) < pow10(t.len()),
        ;
    }
}

pub proof fn lemma_digits_concat(a: Seq<u8>, b: Seq<u8>)
    ensures
        digits_value(a + b) == digits_value(a) * pow10(b.len()) + digits_value(b),
    decreases b.len(),
{
    if b.len() == 0 {
        assert(a + b =~= a);
        assert(pow10(0) == 1);
        assert(digits_value(b) == 0);
    } else {
        let b1 = b.drop_last();
        lemma_digits_concat(a, b1);
        assert((a + b).drop_last() =~= a + b1);
        assert((a + b).last() == b.last());
        let x = digits_value(a);
        let p = pow10(b1.len());
        assert(pow10(b.len()) == 10 * p);
        assert((x * p + digits_value(b1)) * 10 == x * (10 * p) + digits_value(b1) * 10)
            by (nonlinear_arith);
        assert(digits_value(a + b) == digits_value(a + b1) * 10 + ((a + b).last() - 48) as nat);
        assert(digits_value(b) == digits_value(b1) * 10 + (b.last() - 48) as nat);
    }
}

pub proof fn lemma_pow10_38()
    ensures
        pow10(38) == 100000000000000000000000000000000000000nat,
{
    reveal_with_fuel(pow10, 39);
}

pub proof fn lemma_fixed_limit()
    ensures
        fixed_limit() == 100000000000000000000000000000000nat,
{
    reveal_with_fuel(pow10, 33);
}

/// A value that [`number_units`] gives lies strictly between `-fixed_limit()`
/// and `fixed_limit()`.
pub proof fn lemma_number_units_bound(s: Seq<u8>)
    ensures
        number_units(s) matches Some(u) ==> -fixed_limit() < u < fixed_limit(),
{
}

/// 10^n.
pub fn pow10_exec(n: u32) -> (r: u128)
    requires
        n <= 38,
    ensures
        r == pow10(n as nat),
{
    let mut r: u128 = 1;
    let mut i: u32 = 0;
    while i < n
        invariant
            i <= n <= 38,
            r == pow10(i as nat),
        decreases n - i,
    {
        proof {
            lemma_pow10_mono((i + 1) as nat, 38);
            lemma_pow10_38();
        }
        r = r * 10;
        i += 1;
    }
    r
}

/// Whether `s[lo..hi]` is all decimal digits.
pub fn all_digits_in(s: &[u8], lo: usize, hi: usize) -> (r: bool)
    requires
        lo <= hi <= s.len(),
    ensures
        r == all_digits(s@.subrange(lo as int, hi as int)),
{
    let mut i: usize = lo;
    while i < hi
        invariant
            lo <= i <= hi <= s.len(),
            forall|k: int| lo <= k < i ==> is_digit(s@[k]),
        decreases hi - i,
    {
        if s[i] < 48 || s[i] > 57 {
            assert(s@.subrange(lo as int, hi as int)[i - lo] == s@[i as int]);
            return false;
        }
        i += 1;
    }
    assert forall|k: int| 0 <= k < hi - lo implies is_digit(
        #[trigger] s@.subrange(lo as int, hi as int)[k],
    ) by {
        assert(s@.subrange(lo as int, hi as int)[k] == s@[lo + k]);
    }
    true
}

/// The number that the digits `s[lo..hi]` write.
pub fn digits_in(s: &[u8], lo: usize, hi: usize) -> (r: u128)
    requires
        lo <= hi <= s.len(),
        hi - lo <= MAX_DIGITS,
        all_digits(s@.subrange(lo as int, hi as int)),
    ensures
        r == digits_value(s@.subrange(lo as int, hi as int)),
{
    let mut r: u128 = 0;
    let mut i: usize = lo;
    while i < hi
        invariant
            lo <= i <= hi <= s.len(),
            hi - lo <= MAX_DIGITS,
            all_digits(s@.subrange(lo as int, hi as int)),
            r == digits_value(s@.subrange(lo as int, i as int)),
        decreases hi - i,
    {
        let ghost next = s@.subrange(lo as int, i + 1);
        proof {
            assert(next.drop_last() =~= s@.subrange(lo as int, i as int));
            assert(s@.subrange(lo as int, hi as int)[i - lo] == s@[i as int]);
            assert(all_digits(next)) by {
                assert forall|k: int| 0 <= k < next.len() implies is_digit(#[trigger] next[k]) by {
                    assert(next[k] == s@.subrange(lo as int, hi as int)[k]);
                }
            }
            lemma_digits_bound(next);
            lemma_pow10_mono(next.len(), 38);
            lemma_pow10_38();
        }
        r = r * 10 + (s[i] - 48) as u128;
        i += 1;
    }
    r
}

/// Reads the exponent `s[lo..hi]`: an optional sign and one to four digits.
fn exponent_in(s: &[u8], lo: usize, hi: usize) -> (r: Option<i64>)
    requires
        lo <= hi <= s.len(),
    ensures
        match r {
            Some(v) => exponent_value(s@.subrange(lo as int, hi as int)) == Some(v as int) && -10000
                < v < 10000,
            None => exponent_value(s@.subrange(lo as int, hi as int)) is None,
        },
{
    let ghost t = s@.subrange(lo as int, hi as int);
    let signed = lo < hi && (s[lo] == 43 || s[lo] == 45);
    let negative = lo < hi && s[lo] == 45;
    let d0 = if signed {
        lo + 1
    } else {
        lo
    };
    proof {
        if lo < hi {
            assert(t[0] == s@[lo as int]);
        }
        assert(unsigned_part(t) =~= s@.subrange(d0 as int, hi as int));
    }
    if hi - d0 < 1 || hi - d0 > MAX_EXP_DIGITS || !all_digits_in(s, d0, hi) {
        return None;
    }
    let v = digits_in(s, d0, hi);
    proof {
        lemma_digits_bound(s@.subrange(d0 as int, hi as int));
        lemma_pow10_mono((hi - d0) as nat, 4);
        reveal_with_fuel(pow10, 5);
    }
    Some(
        if negative {
            -(v as i64)
        } else {
            v as i64
        },
    )
}

/// Scales `m * 10^e` to units of 10^-24 where the result is whole and below
/// [`fixed_limit`].
fn scale_units(m: u128, e: i64) -> (r: Option<u128>)
    requires
        m < pow10(MAX_DIGITS as nat),
        -20000 <= e <= 20000,
    ensures
        match r {
            Some(u) => units_of(false, m as nat, e as int) == Some(u as int),
            None => units_of(false, m as nat, e as int) is None,
        },
{
    let k: i64 = e + PLACES as i64;
    proof {
        lemma_pow10_positive(32);
        lemma_pow10_mono(MAX_DIGITS as nat, 38);
        lemma_pow10_38();
    }
    if k >= 0 {
        if m == 0 {
            proof {
                assert(0 * pow10(k as nat) == 0);
            }
            return Some(0);
        }
        if k >= LIMIT_DIGITS as i64 {
            proof {
                lemma_pow10_mono(LIMIT_DIGITS as nat, k as nat);
                let pk = pow10(k as nat);
                assert(m * pk >= pk) by (nonlinear_arith)
                    requires
                        m >= 1,
                        pk >= 1,
                ;
            }
            return None;
        }
        let q = pow10_exec((LIMIT_DIGITS as i64 - k) as u32);
        let pk = pow10_exec(k as u32);
        proof {
            let kk = (e + PLACES) as nat;
            assert(pk == pow10(kk));
            assert(q == pow10((LIMIT_DIGITS - kk) as nat));
            lemma_pow10_add(kk, (LIMIT_DIGITS - kk) as nat);
            assert(kk + (LIMIT_DIGITS - kk) as nat == LIMIT_DIGITS as nat);
            assert(pow10(kk + (LIMIT_DIGITS - kk) as nat) == pow10(LIMIT_DIGITS as nat));
            assert(pk * q == q * pk) by (nonlinear_arith);
            assert(q * pk == fixed_limit());
            lemma_pow10_positive(kk);
            lemma_pow10_mono(LIMIT_DIGITS as nat, 38);
            if m >= q {
                assert(m * pk >= q * pk) by (nonlinear_arith)
                    requires
                        m >= q,
                ;
            } else {
                assert(m * pk < q * pk) by (nonlinear_arith)
                    requires
                        m < q,
                        pk >= 1,
                ;
            }
        }
        if m >= q {
            return None;
        }
        Some(m * pk)
    } else {
        let n: i64 = -k;
        if n > MAX_DIGITS as i64 {
            proof {
                lemma_pow10_mono(MAX_DIGITS as nat, n as nat);
                vstd::arithmetic::div_mod::lemma_small_mod(m as nat, pow10(n as nat));
            }
            if m == 0 {
                proof {
                    assert(0nat / pow10(n as nat) == 0) by (nonlinear_arith)
                        requires
                            pow10(n as nat) >= 1,
                    ;
                }
                return Some(0);
            }
            return None;
        }
        let p = pow10_exec(n as u32);
        proof {
            lemma_pow10_positive(n as nat);
        }
        if m % p != 0 {
            return None;
        }
        let u = m / p;
        if u >= pow10_exec(LIMIT_DIGITS) {
            return None;
        }
        Some(u)
    }
}

/// The number that the digits `s[lo..p]` followed by `s[fs..hi]` write.
fn mantissa_in(s: &[u8], lo: usize, p: usize, fs: usize, hi: usize) -> (r: u128)
    requires
        lo <= p <= fs <= hi <= s.len(),
        (p - lo) + (hi - fs) <= MAX_DIGITS,
        all_digits(s@.subrange(lo as int, p as int)),
        all_digits(s@.subrange(fs as int, hi as int)),
    ensures
        r == digits_value(s@.subrange(lo as int, p as int) + s@.subrange(fs as int, hi as int)),
        r < pow10(MAX_DIGITS as nat),
{
    let m_int = digits_in(s, lo, p);
    let m_frac = digits_in(s, fs, hi);
    let pf = pow10_exec((hi - fs) as u32);
    let ghost ip = s@.subrange(lo as int, p as int);
    let ghost fp = s@.subrange(fs as int, hi as int);
    proof {
        lemma_digits_concat(ip, fp);
        lemma_digits_bound(ip);
        lemma_digits_bound(fp);
        lemma_pow10_add(ip.len(), fp.len());
        lemma_pow10_mono(ip.len() + fp.len(), MAX_DIGITS as nat);
        lemma_pow10_mono(MAX_DIGITS as nat, 38);
        lemma_pow10_38();
        let a = digits_value(ip);
        let b = digits_value(fp);
        let pi = pow10(ip.len());
        assert(a * pf + b < pi * pf) by (nonlinear_arith)
            requires
                a < pi,
                b < pf,
        ;
    }
    m_int * pf + m_frac
}

/// Reads the decimal literal `s[from..to]` as its parts `(negative, m, e)`.
#[verifier::rlimit(40)]
fn decimal_parts_in(s: &[u8], from: usize, to: usize) -> (r: Option<(bool, u128, i64)>)
    requires
        from <= to <= s.len(),
    ensures
        match r {
            Some((negative, m, e)) => decimal_parts(s@.subrange(from as int, to as int)) == Some(
                (negative, m as nat, e as int),
            ) && m < pow10(MAX_DIGITS as nat) && -20000 <= e <= 20000,
            None => decimal_parts(s@.subrange(from as int, to as int)) is None,
        },
{
    let ghost t = s@.subrange(from as int, to as int);
    let signed = from < to && (s[from] == 43 || s[from] == 45);
    let negative = from < to && s[from] == 45;
    let b0 = if signed {
        from + 1
    } else {
        from
    };
    let ghost body = s@.subrange(b0 as int, to as int);
    proof {
        if from < to {
            assert(t[0] == s@[from as int]);
        }
        assert(unsigned_part(t) =~= body);
    }
    let e = find_either_in(s, b0, to, 101, 69);
    let exp = if e < to {
        exponent_in(s, e + 1, to)
    } else {
        Some(0)
    };
    let p = find_either_in(s, b0, e, 46, 46);
    let ghost mant = body.subrange(0, e - b0);
    proof {
        assert(mant =~= s@.subrange(b0 as int, e as int));
        if e < to {
            assert(body.subrange(e - b0 + 1, body.len() as int) =~= s@.subrange(
                e + 1,
                to as int,
            ));
        }
        assert(mant.subrange(0, p - b0) =~= s@.subrange(b0 as int, p as int));
    }
    let fs = if p < e {
        p + 1
    } else {
        e
    };
    proof {
        if p < e {
            assert(mant.subrange(p - b0 + 1, mant.len() as int) =~= s@.subrange(
                fs as int,
                e as int,
            ));
        } else {
            assert(s@.subrange(fs as int, e as int) =~= Seq::<u8>::empty());
        }
    }
    if !all_digits_in(s, b0, p) || !all_digits_in(s, fs, e) {
        return None;
    }
    let n = (p - b0) + (e - fs);
    if n < 1 || n > MAX_DIGITS {
        return None;
    }
    let x = match exp {
        Some(x) => x,
        None => {
            return None;
        },
    };
    let m = mantissa_in(s, b0, p, fs, e);
    Some((negative, m, x - (e - fs) as i64))
}

/// Reads the decimal literal `s[from..to]` as a [`Fixed`] value.
pub fn number_in(s: &[u8], from: usize, to: usize) -> (r: Option<Fixed>)
    requires
        from <= to <= s.len(),
    ensures
        match r {
            Some(v) => number_units(s@.subrange(from as int, to as int)) == Some(v.units as int),
            None => number_units(s@.subrange(from as int, to as int)) is None,
        },
{
    let (negative, m, e) = match decimal_parts_in(s, from, to) {
        Some(parts) => parts,
        None => {
            return None;
        },
    };
    let u = match scale_units(m, e) {
        Some(u) => u,
        None => {
            return None;
        },
    };
    proof {
        lemma_pow10_mono(LIMIT_DIGITS as nat, 38);
        lemma_pow10_38();
    }
    Some(
        Fixed {
            units: if negative {
                -(u as i128)
            } else {
                u as i128
            },
        },
    )
}

} // verus!
