//! Exact decimal numbers as read from recordings, and the derived quantities
//! (products and ratios) that plotting needs.

use vstd::prelude::*;
use crate::text::{chars_of, find_char, index_of, same_chars, slice_to_vec};

verus! {

/// The largest number of digits after the point that a [`Decimal`] holds.
pub const MAX_SCALE: u32 = 18;

/// The number of digits after the point that [`parse_decimal`] keeps, rounding
/// any further ones; it leaves room for a scaling by 10^-3.
pub const MAX_PARSED_SCALE: u32 = 15;

pub open spec fn pow10(k: nat) -> int
    decreases k,
{
    if k == 0 {
        1
    } else {
        10 * pow10((k - 1) as nat)
    }
}

pub proof fn lemma_pow10_positive(k: nat)
    ensures
        pow10(k) >= 1,
    decreases k,
{
    if k > 0 {
        lemma_pow10_positive((k - 1) as nat);
    }
}

pub proof fn lemma_pow10_monotone(i: nat, j: nat)
    requires
        i <= j,
    ensures
        pow10(i) <= pow10(j),
    decreases j,
{
    if i < j {
        lemma_pow10_monotone(i, (j - 1) as nat);
        lemma_pow10_positive((j - 1) as nat);
    }
}

pub proof fn lemma_pow10_36()
    ensures
        pow10(36) == 1_000_000_000_000_000_000_000_000_000_000_000_000int,
        pow10(18) == 1_000_000_000_000_000_000int,
{
    reveal_with_fuel(pow10, 37);
}

/// `10^k` as an exact integer.
pub fn pow10_exec(k: u32) -> (r: i128)
    requires
        k <= 36,
    ensures
        r == pow10(k as nat),
        r >= 1,
{
    let mut r: i128 = 1;
    let mut i: u32 = 0;
    while i < k
        invariant
            i <= k <= 36,
            r == pow10(i as nat),
        decreases k - i,
    {
        proof {
            lemma_pow10_monotone(i as nat, 35);
            lemma_pow10_positive(i as nat);
            lemma_pow10_36();
            assert(pow10(36) == 10 * pow10(35));
            assert(r <= 100_000_000_000_000_000_000_000_000_000_000_000int);
        }
        r = r * 10;
        i = i + 1;
    }
    proof {
        lemma_pow10_positive(k as nat);
    }
    r
}

/// A decimal number `mantissa * 10^-scale`.
#[derive(Clone, Copy, Debug, PartialEq, Eq, Structural)]
pub struct Decimal {
    pub mantissa: i64,
    pub scale: u32,
}

/// A wider decimal `mantissa * 10^-scale`: the product of two [`Decimal`]s.
#[derive(Clone, Copy, Debug, PartialEq, Eq, Structural)]
pub struct Fixed {
    pub mantissa: i128,
    pub scale: u32,
}

/// An exact fraction `numer / denom` with a positive denominator.
#[derive(Clone, Copy, Debug, PartialEq, Eq, Structural)]
pub struct Ratio {
    pub numer: i128,
    pub denom: i128,
}

impl Decimal {
    pub open spec fn wf(&self) -> bool {
        self.scale <= MAX_SCALE
    }

    /// `self` and `other` denote the same number.
    pub open spec fn same_value(&self, other: Decimal) -> bool {
        self.mantissa * pow10(other.scale as nat) == other.mantissa * pow10(self.scale as nat)
    }

    /// `self` denotes a number below `other`.
    pub open spec fn less_than(&self, other: Decimal) -> bool {
        self.mantissa * pow10(other.scale as nat) < other.mantissa * pow10(self.scale as nat)
    }

    pub open spec fn is_zero(&self) -> bool {
        self.mantissa == 0
    }

    pub open spec fn is_positive(&self) -> bool {
        self.mantissa > 0
    }

    pub fn integer(n: i64) -> (r: Decimal)
        ensures
            r == (Decimal { mantissa: n, scale: 0 }),
    {
        Decimal { mantissa: n, scale: 0 }
    }

    /// The exact product of two decimals.
    pub fn times(&self, other: &Decimal) -> (r: Fixed)
        requires
            self.wf(),
            other.wf(),
        ensures
            r.mantissa == self.mantissa * other.mantissa,
            r.scale == self.scale + other.scale,
    {
        proof {
            assert(-0x8000_0000_0000_0000int * 0x8000_0000_0000_0000int <= self.mantissa
                * other.mantissa <= 0x8000_0000_0000_0000int * 0x8000_0000_0000_0000int)
                by (nonlinear_arith)
                requires
                    -0x8000_0000_0000_0000int <= self.mantissa < 0x8000_0000_0000_0000int,
                    -0x8000_0000_0000_0000int <= other.mantissa < 0x8000_0000_0000_0000int,
            ;
        }
        Fixed {
            mantissa: self.mantissa as i128 * other.mantissa as i128,
            scale: self.scale + other.scale,
        }
    }

    /// Whether `self < other` as numbers.
    pub fn lt(&self, other: &Decimal) -> (r: bool)
        requires
            self.wf(),
            other.wf(),
        ensures
            r == self.less_than(*other),
    {
        let (a, b) = self.cross(other);
        a < b
    }

    /// Whether `self` and `other` denote the same number.
    pub fn equals(&self, other: &Decimal) -> (r: bool)
        requires
            self.wf(),
            other.wf(),
        ensures
            r == self.same_value(*other),
    {
        let (a, b) = self.cross(other);
        a == b
    }

    /// Both numbers brought to the common denominator `10^(s1+s2)`.
    fn cross(&self, other: &Decimal) -> (r: (i128, i128))
        requires
            self.wf(),
            other.wf(),
        ensures
            r.0 == self.mantissa * pow10(other.scale as nat),
            r.1 == other.mantissa * pow10(self.scale as nat),
    {
        let ps = pow10_exec(self.scale);
        let po = pow10_exec(other.scale);
        proof {
            lemma_pow10_monotone(self.scale as nat, 18);
            lemma_pow10_monotone(other.scale as nat, 18);
            lemma_pow10_36();
            lemma_mul_fits(self.mantissa as int, po as int);
            lemma_mul_fits(other.mantissa as int, ps as int);
        }
        (self.mantissa as i128 * po, other.mantissa as i128 * ps)
    }
}

proof fn lemma_mul_fits(m: int, p: int)
    requires
        -0x8000_0000_0000_0000int <= m < 0x8000_0000_0000_0000int,
        1 <= p <= 1_000_000_000_000_000_000int,
    ensures
        -0x8000_0000_0000_0000int * 1_000_000_000_000_000_000int <= m * p
            <= 0x8000_0000_0000_0000int * 1_000_000_000_000_000_000int,
{
    assert(-0x8000_0000_0000_0000int * 1_000_000_000_000_000_000int <= m * p
        <= 0x8000_0000_0000_0000int * 1_000_000_000_000_000_000int) by (nonlinear_arith)
        requires
            -0x8000_0000_0000_0000int <= m < 0x8000_0000_0000_0000int,
            1 <= p <= 1_000_000_000_000_000_000int,
    ;
}

pub open spec fn is_digit(c: char) -> bool {
    '0' <= c && c <= '9'
}

pub open spec fn digit_value(c: char) -> int {
    c as int - '0' as int
}

pub open spec fn all_digits(s: Seq<char>) -> bool {
    forall|i: int| 0 <= i < s.len() ==> is_digit(#[trigger] s[i])
}

/// The value of a sequence of decimal digits, most significant first.
pub open spec fn digits_value(s: Seq<char>) -> int
    decreases s.len(),
{
    if s.len() == 0 {
        0
    } else {
        digits_value(s.drop_last()) * 10 + digit_value(s.last())
    }
}

pub open spec fn sign_len(s: Seq<char>) -> int {
    if s.len() > 0 && (s[0] == '-' || s[0] == '+') {
        1
    } else {
        0
    }
}

/// Where the exponent marker (`e` or `E`) stands in `b`, or its length.
pub open spec fn exponent_mark(b: Seq<char>) -> int {
    let e = index_of(b, 'e', 0);
    let u = index_of(b, 'E', 0);
    if e < u {
        e
    } else {
        u
    }
}

/// The digits before the decimal point of a mantissa.
pub open spec fn int_digits(m: Seq<char>) -> Seq<char> {
    m.subrange(0, index_of(m, '.', 0))
}

/// The digits after the decimal point of a mantissa.
pub open spec fn frac_digits(m: Seq<char>) -> Seq<char> {
    let d = index_of(m, '.', 0);
    if d < m.len() {
        m.subrange(d + 1, m.len() as int)
    } else {
        seq![]
    }
}

/// The text after the exponent marker.
pub open spec fn exponent_part(b: Seq<char>) -> Seq<char> {
    if exponent_mark(b) < b.len() {
        b.subrange(exponent_mark(b) + 1, b.len() as int)
    } else {
        seq![]
    }
}

/// The exponent's digits, after its optional sign.
pub open spec fn exponent_digits(b: Seq<char>) -> Seq<char> {
    let e = exponent_part(b);
    e.subrange(sign_len(e), e.len() as int)
}

/// There is no exponent, or it is an optional sign and at least one digit.
pub open spec fn exponent_ok(b: Seq<char>) -> bool {
    exponent_mark(b) < b.len() ==> exponent_digits(b).len() > 0 && all_digits(exponent_digits(b))
}

pub open spec fn exponent_value(b: Seq<char>) -> int {
    if exponent_mark(b) < b.len() {
        if exponent_part(b)[0] == '-' {
            -digits_value(exponent_digits(b))
        } else {
            digits_value(exponent_digits(b))
        }
    } else {
        0
    }
}

/// `n * 10^e` as a mantissa and a scale: exact with at most
/// [`MAX_PARSED_SCALE`] digits after the point, otherwise rounded (half away
/// from zero) to that many.
pub open spec fn scaled_mantissa(n: int, e: int) -> (int, int) {
    if e >= 0 {
        (n * pow10(e as nat), 0)
    } else if e >= -(MAX_PARSED_SCALE as int) {
        (n, -e)
    } else {
        let k = -e - MAX_PARSED_SCALE;
        ((n + 5 * pow10((k - 1) as nat)) / pow10(k as nat), MAX_PARSED_SCALE as int)
    }
}

/// The number written in `s`: an optional sign, digits with at most one
/// decimal point (at least one digit in all), and an optional exponent (`e`
/// or `E`, an optional sign, digits). Digits past [`MAX_PARSED_SCALE`]
/// decimal places are rounded; a magnitude past `i64::MAX` in the result's
/// mantissa gives `None`.
pub open spec fn decimal_of(s: Seq<char>) -> Option<Decimal> {
    match number_parts(s) {
        Some((neg, ds, e)) => {
            let (v, sc) = scaled_mantissa(digits_value(ds), e);
            if v <= i64::MAX {
                Some(Decimal { mantissa: if neg { -v } else { v } as i64, scale: sc as u32 })
            } else {
                None
            }
        },
        None => None,
    }
}

/// A number in the notation [`decimal_of`] reads, taken apart: whether it is
/// negative, all its digits (before and after the point), and the power of
/// ten that the digits are multiplied by.
pub open spec fn number_parts(s: Seq<char>) -> Option<(bool, Seq<char>, int)> {
    let b = s.subrange(sign_len(s), s.len() as int);
    let m = b.subrange(0, exponent_mark(b));
    let ip = int_digits(m);
    let fp = frac_digits(m);
    if all_digits(ip) && all_digits(fp) && ip.len() + fp.len() >= 1 && exponent_ok(b) {
        Some((s.len() > 0 && s[0] == '-', ip + fp, exponent_value(b) - fp.len()))
    } else {
        None
    }
}

proof fn lemma_digits_value_bounds(s: Seq<char>)
    requires
        all_digits(s),
    ensures
        0 <= digits_value(s) < pow10(s.len()),
    decreases s.len(),
{
    if s.len() > 0 {
        let p = s.drop_last();
        assert(all_digits(p)) by {
            assert forall|i: int| 0 <= i < p.len() implies is_digit(#[trigger] p[i]) by {
                assert(p[i] == s[i]);
            }
        }
        assert(is_digit(s[s.len() - 1]));
        lemma_digits_value_bounds(p);
        assert(pow10(s.len()) == 10 * pow10(p.len()));
    }
}

proof fn lemma_digits_value_concat(a: Seq<char>, b: Seq<char>)
    ensures
        digits_value(a + b) == digits_value(a) * pow10(b.len()) + digits_value(b),
    decreases b.len(),
{
    if b.len() == 0 {
        assert(a + b =~= a);
    } else {
        let b0 = b.drop_last();
        assert((a + b).drop_last() =~= a + b0);
        assert((a + b).last() == b.last());
        lemma_digits_value_concat(a, b0);
        assert(pow10(b.len()) == 10 * pow10(b0.len()));
        assert(digits_value(a) * (10 * pow10(b0.len())) == (digits_value(a) * pow10(b0.len())) * 10)
            by (nonlinear_arith);
    }
}

/// Rounding away the last `k` digits of `P * 10^k + d * 10^(k-1) + r`, where
/// `d` is the first digit dropped: one more than `P` exactly when `d >= 5`.
proof fn lemma_round_digits(big_p: int, d: int, r: int, p: int)
    requires
        big_p >= 0,
        0 <= d <= 9,
        0 <= r < p,
        p >= 1,
    ensures
        (big_p * (10 * p) + d * p + r + 5 * p) / (10 * p) == big_p + if d >= 5 { 1int } else { 0 },
{
    let c: int = if d >= 5 { 1 } else { 0 };
    let x = big_p * (10 * p) + d * p + r + 5 * p;
    let rem = (d + 5 - 10 * c) * p + r;
    assert(x == (big_p + c) * (10 * p) + rem) by (nonlinear_arith)
        requires x == big_p * (10 * p) + d * p + r + 5 * p, rem == (d + 5 - 10 * c) * p + r;
    assert(0 <= rem < 10 * p) by (nonlinear_arith)
        requires rem == (d + 5 - 10 * c) * p + r, 0 <= r < p, p >= 1, 0 <= d + 5 - 10 * c <= 9;
    vstd::arithmetic::div_mod::lemma_fundamental_div_mod_converse(x, 10 * p, big_p + c, rem);
}

/// `min(digits_value(d), cap)`.
fn digits_value_capped(d: &[char], cap: u128) -> (r: u128)
    requires
        all_digits(d@),
        cap <= 0x1_0000_0000_0000_0000_0000_0000_0000,
    ensures
        r == if digits_value(d@) < cap {
            digits_value(d@)
        } else {
            cap as int
        },
{
    let mut v: u128 = 0;
    let mut i: usize = 0;
    assert(d@.subrange(0, 0).len() == 0);
    while i < d.len()
        invariant
            all_digits(d@),
            cap <= 0x1_0000_0000_0000_0000_0000_0000_0000,
            i <= d@.len(),
            v == if digits_value(d@.subrange(0, i as int)) < cap {
                digits_value(d@.subrange(0, i as int))
            } else {
                cap as int
            },
        decreases d@.len() - i,
    {
        let ghost pre = d@.subrange(0, i as int);
        let ghost next = d@.subrange(0, i + 1);
        assert(next.drop_last() == pre);
        assert(next.last() == d@[i as int]);
        assert(is_digit(d@[i as int]));
        proof {
            assert(all_digits(pre));
            lemma_digits_value_bounds(pre);
        }
        let dg = (d[i] as u32 - '0' as u32) as u128;
        if v < cap {
            let nv = v * 10 + dg;
            v = if nv >= cap {
                cap
            } else {
                nv
            };
        }
        i = i + 1;
    }
    assert(d@.subrange(0, i as int) == d@);
    v
}

fn all_digits_exec(d: &[char]) -> (r: bool)
    ensures
        r == all_digits(d@),
{
    let mut i: usize = 0;
    while i < d.len()
        invariant
            i <= d@.len(),
            forall|k: int| 0 <= k < i ==> is_digit(#[trigger] d@[k]),
        decreases d@.len() - i,
    {
        if !('0' <= d[i] && d[i] <= '9') {
            return false;
        }
        i = i + 1;
    }
    true
}

const I64_MAX: u128 = 0x7fff_ffff_ffff_ffff;

/// `digits_value(digits) * 10^e` as [`scaled_mantissa`] gives it, where `e`
/// is the exponent or, where it was capped, lies on the same side of +-40.
#[verifier::rlimit(50)]
fn scale_digits(digits: &Vec<char>, e_sat: i128, Ghost(big_e): Ghost<int>) -> (r: Option<(u128, u32)>)
    requires
        all_digits(digits@),
        digits@.len() >= 1,
        e_sat == big_e || (e_sat >= 40 && big_e >= e_sat) || (e_sat <= -40 && big_e <= e_sat),
        -0x1_0000_0000_0000_0000_0000_0000_0000 <= e_sat <= 0x1_0000_0000_0000_0000_0000_0000_0000,
        (e_sat <= -40 && big_e < e_sat) ==> -e_sat - 15 > digits@.len(),
    ensures
        match r {
            Some((v, sc)) => scaled_mantissa(digits_value(digits@), big_e) == (v as int, sc as int)
                && v <= I64_MAX && sc <= MAX_PARSED_SCALE,
            None => scaled_mantissa(digits_value(digits@), big_e).0 > i64::MAX,
        },
        (e_sat <= -40 && big_e < e_sat) ==> r is Some,
{
    let d_len = digits.len();
    let ghost big_n = digits_value(digits@);
    proof {
        lemma_digits_value_bounds(digits@);
    }
    if e_sat >= 0 {
        let nv = digits_value_capped(digits.as_slice(), I64_MAX + 1);
        if nv > I64_MAX {
            proof {
                lemma_pow10_positive(big_e as nat);
                assert(big_n * pow10(big_e as nat) >= big_n) by (nonlinear_arith)
                    requires big_n >= 0, pow10(big_e as nat) >= 1;
            }
            return None;
        }
        if nv == 0 {
            assert(big_n == 0);
            assert(big_n * pow10(big_e as nat) == 0) by (nonlinear_arith)
                requires big_n == 0;
            Some((0, 0))
        } else if e_sat >= 19 {
            proof {
                lemma_pow10_monotone(19, big_e as nat);
                lemma_pow10_36();
                assert(pow10(19) == 10 * pow10(18));
                assert(big_n * pow10(big_e as nat) >= pow10(big_e as nat)) by (nonlinear_arith)
                    requires big_n >= 1, pow10(big_e as nat) >= 1;
            }
            return None;
        } else {
            let p = pow10_exec(e_sat as u32);
            proof {
                lemma_pow10_monotone(e_sat as nat, 18);
                lemma_pow10_36();
                assert(nv * p <= I64_MAX * 1_000_000_000_000_000_000int) by (nonlinear_arith)
                    requires nv <= I64_MAX, 1 <= p <= 1_000_000_000_000_000_000int, nv >= 0;
            }
            let mv = nv * (p as u128);
            if mv > I64_MAX {
                return None;
            }
            Some((mv, 0))
        }
    } else if e_sat >= -15 {
        let nv = digits_value_capped(digits.as_slice(), I64_MAX + 1);
        if nv > I64_MAX {
            return None;
        }
        Some((nv, (-e_sat) as u32))
    } else {
        let k = -e_sat - 15;
        if k > d_len as i128 {
            proof {
                let kk = -big_e - 15;
                lemma_pow10_monotone(d_len as nat, (kk - 1) as nat);
                assert(pow10(kk as nat) == 10 * pow10((kk - 1) as nat));
                lemma_round_digits(0, 0, big_n, pow10((kk - 1) as nat));
                assert(0 * (10 * pow10((kk - 1) as nat)) == 0);
            }
            Some((0, 15))
        } else {
            let cut = d_len - k as usize;
            let kept = slice_to_vec(digits.as_slice(), 0, cut);
            let ghost dropped = digits@.subrange(cut as int, d_len as int);
            let ghost rest = dropped.drop_first();
            proof {
                assert(digits@ =~= kept@ + dropped);
                lemma_digits_value_concat(kept@, dropped);
                assert(dropped =~= seq![dropped[0]] + rest);
                lemma_digits_value_concat(seq![dropped[0]], rest);
                assert(seq![dropped[0]].drop_last() =~= Seq::<char>::empty());
                assert(seq![dropped[0]].last() == dropped[0]);
                assert(digits_value(Seq::<char>::empty()) == 0);
                assert(digits_value(seq![dropped[0]]) == digit_value(dropped[0]));
                assert(all_digits(rest)) by {
                    assert forall|i: int| 0 <= i < rest.len() implies is_digit(#[trigger] rest[i]) by {
                        assert(rest[i] == digits@[cut + 1 + i]);
                    }
                }
                assert(all_digits(kept@)) by {
                    assert forall|i: int| 0 <= i < kept@.len() implies is_digit(#[trigger] kept@[i]) by {
                        assert(kept@[i] == digits@[i]);
                    }
                }
                lemma_digits_value_bounds(rest);
                lemma_digits_value_bounds(kept@);
                assert(is_digit(digits@[cut as int]));
                assert(pow10(k as nat) == 10 * pow10((k - 1) as nat));
                assert(rest.len() == k - 1);
                lemma_round_digits(
                    digits_value(kept@),
                    digit_value(dropped[0]),
                    digits_value(rest),
                    pow10((k - 1) as nat),
                );
                assert(digits_value(kept@) * (10 * pow10((k - 1) as nat)) + digit_value(dropped[0])
                    * pow10((k - 1) as nat) + digits_value(rest) == big_n) by (nonlinear_arith)
                    requires
                        big_n == digits_value(kept@) * pow10(dropped.len()) + digits_value(dropped),
                        digits_value(dropped) == digits_value(seq![dropped[0]]) * pow10(rest.len())
                            + digits_value(rest),
                        digits_value(seq![dropped[0]]) == digit_value(dropped[0]),
                        pow10(dropped.len()) == 10 * pow10((k - 1) as nat),
                        pow10(rest.len()) == pow10((k - 1) as nat),
                ;
            }
            let pv = digits_value_capped(kept.as_slice(), I64_MAX + 1);
            if pv > I64_MAX {
                return None;
            }
            let first_dropped = digits[cut];
            let up: u128 = if first_dropped >= '5' {
                1
            } else {
                0
            };
            let mv = pv + up;
            if mv > I64_MAX {
                return None;
            }
            Some((mv, 15))
        }
    }
}

/// Takes a number apart as [`number_parts`] does; the power of ten is capped
/// where its magnitude no longer matters.
#[verifier::rlimit(100)]
fn number_of(s: &[char]) -> (r: Option<(bool, Vec<char>, i128)>)
    ensures
        match r {
            None => number_parts(s@) is None,
            Some((neg, digits, e_sat)) => number_parts(s@) matches Some((n2, d2, be)) && n2 == neg
                && d2 == digits@ && all_digits(digits@) && digits@.len() >= 1
                && -0x1_0000_0000_0000_0000_0000_0000 <= e_sat <= 0x1_0000_0000_0000_0000_0000_0000
                && (e_sat == be || (e_sat >= 400 && be >= e_sat) || (e_sat <= -400 && be <= e_sat
                && -e_sat - 15 > digits@.len())),
        },
{
    let n = s.len();
    let sl: usize = if n > 0 && (s[0] == '-' || s[0] == '+') {
        1
    } else {
        0
    };
    let negative = n > 0 && s[0] == '-';
    let b = slice_to_vec(s, sl, n);
    let e1 = find_char(b.as_slice(), 'e', 0);
    let e2 = find_char(b.as_slice(), 'E', 0);
    let ep = if e1 < e2 {
        e1
    } else {
        e2
    };
    let m = slice_to_vec(b.as_slice(), 0, ep);
    let dp = find_char(m.as_slice(), '.', 0);
    let ip = slice_to_vec(m.as_slice(), 0, dp);
    let fp: Vec<char> = if dp < m.len() {
        slice_to_vec(m.as_slice(), dp + 1, m.len())
    } else {
        Vec::new()
    };
    assert(ip@ == int_digits(m@));
    assert(fp@ == frac_digits(m@));
    if !all_digits_exec(ip.as_slice()) || !all_digits_exec(fp.as_slice()) || ip.len() + fp.len()
        == 0 {
        return None;
    }
    let mut digits = ip.clone();
    let mut j: usize = 0;
    assert(digits@ == ip@);
    while j < fp.len()
        invariant
            j <= fp@.len(),
            digits@ == ip@ + fp@.subrange(0, j as int),
        decreases fp@.len() - j,
    {
        digits.push(fp[j]);
        j = j + 1;
        assert(digits@ =~= ip@ + fp@.subrange(0, j as int));
    }
    assert(fp@.subrange(0, j as int) == fp@);
    let ghost big_n = digits_value(ip@ + fp@);
    assert(all_digits(digits@));
    proof {
        lemma_digits_value_bounds(digits@);
    }
    let d_len = digits.len();
    let cap: u128 = d_len as u128 + 400;
    // the exponent, its magnitude capped where the result no longer depends on it
    let mut x: i128 = 0;
    let ghost mut saturated = false;
    if ep < b.len() {
        let e = slice_to_vec(b.as_slice(), ep + 1, b.len());
        assert(e@ == exponent_part(b@));
        let esl: usize = if e.len() > 0 && (e[0] == '-' || e[0] == '+') {
            1
        } else {
            0
        };
        if e.len() <= esl {
            return None;
        }
        let ed = slice_to_vec(e.as_slice(), esl, e.len());
        if !all_digits_exec(ed.as_slice()) {
            return None;
        }
        let xv = digits_value_capped(ed.as_slice(), cap);
        proof {
            saturated = digits_value(ed@) >= cap;
        }
        x = if e[0] == '-' {
            -(xv as i128)
        } else {
            xv as i128
        };
    }
    let ghost big_e = exponent_value(b@) - fp@.len();
    let e_sat: i128 = x - fp.len() as i128;
    assert(!saturated ==> e_sat == big_e);
    assert(saturated && x > 0 ==> e_sat >= 400 && big_e >= e_sat);
    assert(saturated && x < 0 ==> e_sat <= -400 && big_e <= e_sat && -e_sat - 15 > d_len);
    Some((negative, digits, e_sat))
}

/// Reads a number in decimal notation, with an optional exponent.
pub fn parse_decimal(s: &[char]) -> (r: Option<Decimal>)
    ensures
        r == decimal_of(s@),
        r matches Some(d) ==> d.wf() && d.scale <= MAX_PARSED_SCALE,
{
    let (negative, digits, e_sat) = match number_of(s) {
        Some(p) => p,
        None => {
            return None;
        },
    };
    let ghost big_e = match number_parts(s@) {
        Some(p) => p.2,
        None => 0,
    };
    let (v, sc) = match scale_digits(&digits, e_sat, Ghost(big_e)) {
        Some(r) => r,
        None => {
            return None;
        },
    };
    let mag = v as i64;
    Some(Decimal { mantissa: if negative { -mag } else { mag }, scale: sc })
}

pub proof fn lemma_pow10_add(i: nat, j: nat)
    ensures
        pow10(i + j) == pow10(i) * pow10(j),
    decreases j,
{
    if j > 0 {
        lemma_pow10_add(i, (j - 1) as nat);
        assert(pow10(i + j) == 10 * pow10((i + j - 1) as nat));
        assert(pow10(i) * (10 * pow10((j - 1) as nat)) == 10 * (pow10(i) * pow10((j - 1) as nat)))
            by (nonlinear_arith);
    }
}

/// A value read from a recording, as floating-point parsing reads it.
#[derive(Clone, Copy, Debug, PartialEq, Eq, Structural)]
pub enum Sample {
    /// A number whose mantissa fits in `i64` with at most
    /// [`MAX_PARSED_SCALE`] decimal places.
    Number(Decimal),
    /// A larger number, `mantissa * 10^exponent`, rounded to
    /// [`WIDE_DIGITS`] significant digits.
    Wide { mantissa: i64, exponent: i128 },
    Infinity { negative: bool },
    NaN,
}

/// The significant digits a [`Sample::Wide`] keeps.
pub const WIDE_DIGITS: u32 = 18;

/// With [`OVERFLOW_EXPONENT`]: the largest finite `f64` rounded up to
/// [`WIDE_DIGITS`] digits, `179769313486231581 * 10^291`; a wide number this
/// large or larger is infinite, as it would be in `f64`.
pub const OVERFLOW_MANTISSA: i64 = 179_769_313_486_231_581;
pub const OVERFLOW_EXPONENT: i128 = 291;

/// The number of leading `0`s.
pub open spec fn leading_zeros(ds: Seq<char>) -> int
    decreases ds.len(),
{
    if ds.len() > 0 && ds[0] == '0' {
        1 + leading_zeros(ds.drop_first())
    } else {
        0
    }
}

/// `digits_value(ds) * 10^e` rounded (half up) to [`WIDE_DIGITS`] significant
/// digits, as a mantissa and an exponent.
pub open spec fn wide_of(ds: Seq<char>, e: int) -> (int, int) {
    let sd = ds.subrange(leading_zeros(ds), ds.len() as int);
    let k = sd.len() - WIDE_DIGITS;
    if k > 0 {
        ((digits_value(sd) + 5 * pow10((k - 1) as nat)) / pow10(k as nat), e + k)
    } else {
        (digits_value(sd) * pow10((-k) as nat), e + k)
    }
}

/// A sample whose parts lie within the bounds that arithmetic on it needs.
pub open spec fn sample_ok(v: Sample) -> bool {
    match v {
        Sample::Number(d) => d.wf(),
        Sample::Wide { exponent, .. } => exponent >= -0x1_0000_0000_0000_0000_0000_0000_0000,
        _ => true,
    }
}

pub open spec fn overflows(m: int, e: int) -> bool {
    e > OVERFLOW_EXPONENT || (e == OVERFLOW_EXPONENT && m >= OVERFLOW_MANTISSA)
}

pub open spec fn ascii_lower(c: char) -> char {
    if 'A' <= c && c <= 'Z' {
        ((c as u32) + 32) as char
    } else {
        c
    }
}

/// The value written in `s`, as `f64` parsing accepts it: a number in the
/// notation of [`decimal_of`], or (after an optional sign, in any case)
/// `inf`, `infinity` or `nan`. A number too large for [`Sample::Number`] is
/// [`Sample::Wide`], or infinite past `f64`'s range.
pub open spec fn sample_of_text(s: Seq<char>) -> Option<Sample> {
    let neg = s.len() > 0 && s[0] == '-';
    let lb = s.subrange(sign_len(s), s.len() as int).map_values(|c: char| ascii_lower(c));
    if lb == "inf"@ || lb == "infinity"@ {
        Some(Sample::Infinity { negative: neg })
    } else if lb == "nan"@ {
        Some(Sample::NaN)
    } else {
        match number_parts(s) {
            None => None,
            Some((_, ds, e)) => match decimal_of(s) {
                Some(d) => Some(Sample::Number(d)),
                None => {
                    let (m, we) = wide_of(ds, e);
                    if overflows(m, we) {
                        Some(Sample::Infinity { negative: neg })
                    } else {
                        Some(Sample::Wide { mantissa: if neg { -m } else { m } as i64, exponent: we as i128 })
                    }
                },
            },
        }
    }
}

/// Rounds the digits to [`WIDE_DIGITS`] significant ones: the mantissa, the
/// exponent (with `e_sat` for the power of ten), and whether the result
/// overflows.
#[verifier::rlimit(50)]
fn wide_digits(digits: &Vec<char>, e_sat: i128, Ghost(big_e): Ghost<int>) -> (r: (u128, i128, bool))
    requires
        all_digits(digits@),
        e_sat == big_e || (e_sat >= 400 && big_e >= e_sat),
        -0x1_0000_0000_0000_0000_0000_0000 <= e_sat <= 0x1_0000_0000_0000_0000_0000_0000,
    ensures
        r.2 == overflows(wide_of(digits@, big_e).0, wide_of(digits@, big_e).1),
        !r.2 ==> r.0 == wide_of(digits@, big_e).0 && r.1 == wide_of(digits@, big_e).1,
        r.0 <= 1_000_000_000_000_000_000,
        r.1 >= -0x2_0000_0000_0000_0000_0000_0000,
{
    let ghost ds = digits@;
    let mut z: usize = 0;
    assert(ds.subrange(0, ds.len() as int) == ds);
    while z < digits.len() && digits[z] == '0'
        invariant
            ds == digits@,
            z <= ds.len(),
            leading_zeros(ds) == z + leading_zeros(ds.subrange(z as int, ds.len() as int)),
        decreases ds.len() - z,
    {
        assert(ds.subrange(z as int, ds.len() as int).drop_first() =~= ds.subrange(z + 1, ds.len() as int));
        z = z + 1;
    }
    assert(leading_zeros(ds.subrange(z as int, ds.len() as int)) == 0);
    let sd = slice_to_vec(digits.as_slice(), z, digits.len());
    assert(all_digits(sd@)) by {
        assert forall|i: int| 0 <= i < sd@.len() implies is_digit(#[trigger] sd@[i]) by {
            assert(sd@[i] == ds[z + i]);
        }
    }
    proof {
        lemma_digits_value_bounds(sd@);
        lemma_pow10_36();
    }
    let len = sd.len();
    let (m, k): (u128, i128) = if len > 18 {
        let kept = slice_to_vec(sd.as_slice(), 0, 18);
        let ghost dropped = sd@.subrange(18, len as int);
        let ghost rest = dropped.drop_first();
        let ghost k = len - 18;
        proof {
            assert(sd@ =~= kept@ + dropped);
            lemma_digits_value_concat(kept@, dropped);
            assert(dropped =~= seq![dropped[0]] + rest);
            lemma_digits_value_concat(seq![dropped[0]], rest);
            assert(seq![dropped[0]].drop_last() =~= Seq::<char>::empty());
            assert(seq![dropped[0]].last() == dropped[0]);
            assert(digits_value(Seq::<char>::empty()) == 0);
            assert(digits_value(seq![dropped[0]]) == digit_value(dropped[0]));
            assert(all_digits(rest)) by {
                assert forall|i: int| 0 <= i < rest.len() implies is_digit(#[trigger] rest[i]) by {
                    assert(rest[i] == sd@[19 + i]);
                }
            }
            assert(all_digits(kept@)) by {
                assert forall|i: int| 0 <= i < kept@.len() implies is_digit(#[trigger] kept@[i]) by {
                    assert(kept@[i] == sd@[i]);
                }
            }
            lemma_digits_value_bounds(rest);
            lemma_digits_value_bounds(kept@);
            assert(is_digit(sd@[18]));
            assert(pow10(k as nat) == 10 * pow10((k - 1) as nat));
            lemma_round_digits(
                digits_value(kept@),
                digit_value(dropped[0]),
                digits_value(rest),
                pow10((k - 1) as nat),
            );
            assert(digits_value(kept@) * (10 * pow10((k - 1) as nat)) + digit_value(dropped[0])
                * pow10((k - 1) as nat) + digits_value(rest) == digits_value(sd@)) by (nonlinear_arith)
                requires
                    digits_value(sd@) == digits_value(kept@) * pow10(dropped.len()) + digits_value(dropped),
                    digits_value(dropped) == digits_value(seq![dropped[0]]) * pow10(rest.len())
                        + digits_value(rest),
                    digits_value(seq![dropped[0]]) == digit_value(dropped[0]),
                    pow10(dropped.len()) == 10 * pow10((k - 1) as nat),
                    pow10(rest.len()) == pow10((k - 1) as nat),
            ;
        }
        let pv = digits_value_capped(kept.as_slice(), 0x1_0000_0000_0000_0000);
        let up: u128 = if sd[18] >= '5' {
            1
        } else {
            0
        };
        (pv + up, len as i128 - 18)
    } else {
        let pv = digits_value_capped(sd.as_slice(), 0x1_0000_0000_0000_0000);
        let p = pow10_exec((18 - len) as u32);
        proof {
            lemma_pow10_monotone(len as nat, 18);
            lemma_pow10_add(len as nat, (18 - len) as nat);
            assert(pv * p < pow10(len as nat) * p) by (nonlinear_arith)
                requires pv < pow10(len as nat), p >= 1;
        }
        (pv * p as u128, len as i128 - 18)
    };
    let e_w = e_sat + k;
    let over = e_w > OVERFLOW_EXPONENT || (e_w == OVERFLOW_EXPONENT && m >= OVERFLOW_MANTISSA as u128);
    (m, e_w, over)
}

/// Reads a value as `f64` parsing would accept it.
pub fn parse_sample(s: &[char]) -> (r: Option<Sample>)
    ensures
        r == sample_of_text(s@),
        r matches Some(Sample::Number(d)) ==> d.wf() && d.scale <= MAX_PARSED_SCALE,
        r matches Some(Sample::Wide { exponent, .. }) ==> exponent >= -0x2_0000_0000_0000_0000_0000_0000,
{
    let n = s.len();
    let sl: usize = if n > 0 && (s[0] == '-' || s[0] == '+') {
        1
    } else {
        0
    };
    let negative = n > 0 && s[0] == '-';
    let mut lb: Vec<char> = Vec::new();
    let mut i: usize = sl;
    while i < n
        invariant
            sl <= i <= n == s@.len(),
            lb@ == s@.subrange(sl as int, i as int).map_values(|c: char| ascii_lower(c)),
        decreases n - i,
    {
        let c = s[i];
        let l = if 'A' <= c && c <= 'Z' {
            ((c as u32) + 32) as u8 as char
        } else {
            c
        };
        lb.push(l);
        i = i + 1;
        assert(lb@ =~= s@.subrange(sl as int, i as int).map_values(|c: char| ascii_lower(c)));
    }
    if same_chars(lb.as_slice(), chars_of("inf").as_slice()) || same_chars(
        lb.as_slice(),
        chars_of("infinity").as_slice(),
    ) {
        return Some(Sample::Infinity { negative });
    }
    if same_chars(lb.as_slice(), chars_of("nan").as_slice()) {
        return Some(Sample::NaN);
    }
    let (neg, digits, e_sat) = match number_of(s) {
        Some(p) => p,
        None => {
            return None;
        },
    };
    let ghost big_e = match number_parts(s@) {
        Some(p) => p.2,
        None => 0,
    };
    match scale_digits(&digits, e_sat, Ghost(big_e)) {
        Some((v, sc)) => {
            let mag = v as i64;
            Some(Sample::Number(Decimal { mantissa: if neg { -mag } else { mag }, scale: sc }))
        },
        None => {
            let (m, e, over) = wide_digits(&digits, e_sat, Ghost(big_e));
            if over {
                Some(Sample::Infinity { negative: neg })
            } else {
                let mag = m as i64;
                Some(Sample::Wide { mantissa: if neg { -mag } else { mag }, exponent: e })
            }
        },
    }
}

} // verus!
