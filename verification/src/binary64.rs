//! IEEE 754 binary64 numbers, carried as their 64-bit patterns.
//!
//! A pattern is a sign bit followed by 63 bits of magnitude. Within one sign
//! the magnitudes of the numbers ascend with their absolute values, positive
//! infinity has the magnitude [`INFINITY`], and every larger magnitude is a
//! NaN. The sign test, the NaN test, the absolute value and the numeric order
//! are therefore plain integer questions about the pattern, and so is the
//! pattern of a given whole number. These are the questions this module
//! answers; arithmetic that rounds is not among them.
use vstd::prelude::*;
use vstd::arithmetic::power2::{lemma2_to64, lemma2_to64_rest, lemma_pow2_unfold, pow2};

verus! {

/// The pattern of negative zero: the sign bit alone.
pub const SIGN: u64 = 0x8000_0000_0000_0000;

/// The pattern of positive infinity.
pub const INFINITY: u64 = 0x7FF0_0000_0000_0000;

/// The pattern of the number one.
pub const ONE: u64 = 0x3FF0_0000_0000_0000;

/// The NaN that stands where a number is wanted and none can be had.
pub const NAN: u64 = 0x7FF8_0000_0000_0000;

/// Whether the sign bit of `bits` is set.
pub open spec fn negative(bits: u64) -> bool {
    bits >= SIGN
}

/// `bits` with its sign bit cleared.
pub open spec fn magnitude(bits: u64) -> u64 {
    if bits >= SIGN {
        (bits - SIGN) as u64
    } else {
        bits
    }
}

/// Whether `bits` is a NaN.
pub open spec fn nan(bits: u64) -> bool {
    magnitude(bits) > INFINITY
}

/// Whether `bits` is a number other than an infinity.
pub open spec fn finite(bits: u64) -> bool {
    magnitude(bits) < INFINITY
}

/// The place of `bits` on the number line: for patterns `a` and `b` that are
/// not NaN, `a` is numerically below `b` exactly when `key(a) < key(b)`, and
/// the two zeros, which are numerically equal, share the key zero.
pub open spec fn key(bits: u64) -> int {
    if negative(bits) {
        -(magnitude(bits) as int)
    } else {
        magnitude(bits) as int
    }
}

/// Whether `bits` is a number above zero; positive infinity is one.
pub open spec fn positive(bits: u64) -> bool {
    !nan(bits) && key(bits) > 0
}

/// Whether `bits` is a number not below zero; both zeros are.
pub open spec fn not_negative(bits: u64) -> bool {
    !nan(bits) && key(bits) >= 0
}

/// Whether every pattern of `s` is finite.
pub open spec fn all_finite(s: Seq<u64>) -> bool {
    forall|i: int| 0 <= i < s.len() ==> finite(#[trigger] s[i])
}

/// Whether every pattern of `s` is a number not below zero.
pub open spec fn none_negative(s: Seq<u64>) -> bool {
    forall|i: int| 0 <= i < s.len() ==> not_negative(#[trigger] s[i])
}

/// The absolute value: the sign bit is cleared, a NaN stays a NaN.
pub fn abs(bits: u64) -> (r: u64)
    ensures
        r == magnitude(bits),
        nan(r) == nan(bits),
        key(r) >= 0,
{
    if bits >= SIGN {
        bits - SIGN
    } else {
        bits
    }
}

/// Whether `bits` is a NaN.
pub fn is_nan(bits: u64) -> (r: bool)
    ensures
        r == nan(bits),
{
    abs(bits) > INFINITY
}

/// Whether `bits` is a number other than an infinity.
pub fn is_finite(bits: u64) -> (r: bool)
    ensures
        r == finite(bits),
{
    abs(bits) < INFINITY
}

/// Whether `bits` is a number above zero.
pub fn is_positive(bits: u64) -> (r: bool)
    ensures
        r == positive(bits),
{
    0 < bits && bits <= INFINITY
}

/// Whether `bits` is a number not below zero.
pub fn is_not_negative(bits: u64) -> (r: bool)
    ensures
        r == not_negative(bits),
{
    bits <= INFINITY || bits == SIGN
}

/// The key of `bits` as a machine integer.
pub fn order_key(bits: u64) -> (r: i64)
    ensures
        r == key(bits),
{
    if bits >= SIGN {
        let m: u64 = bits - SIGN;
        -(m as i64)
    } else {
        bits as i64
    }
}

/// Whether `a` lies strictly below `b` on the number line.
pub fn precedes(a: u64, b: u64) -> (r: bool)
    ensures
        r == (key(a) < key(b)),
{
    order_key(a) < order_key(b)
}

/// Whether every pattern of `s` is finite.
pub fn are_finite(s: &Vec<u64>) -> (r: bool)
    ensures
        r == all_finite(s@),
{
    let mut i: usize = 0;
    while i < s.len()
        invariant
            i <= s@.len(),
            forall|k: int| 0 <= k < i ==> finite(#[trigger] s@[k]),
        decreases s@.len() - i,
    {
        if !is_finite(s[i]) {
            return false;
        }
        i = i + 1;
    }
    true
}

/// Whether every pattern of `s` is a number not below zero.
pub fn are_not_negative(s: &Vec<u64>) -> (r: bool)
    ensures
        r == none_negative(s@),
{
    let mut i: usize = 0;
    while i < s.len()
        invariant
            i <= s@.len(),
            forall|k: int| 0 <= k < i ==> not_negative(#[trigger] s@[k]),
        decreases s@.len() - i,
    {
        if !is_not_negative(s[i]) {
            return false;
        }
        i = i + 1;
    }
    true
}

/// Two to the power `e`.
pub open spec fn two_to(e: nat) -> nat
    decreases e,
{
    if e == 0 {
        1
    } else {
        2 * two_to((e - 1) as nat)
    }
}

/// The whole part of the binary logarithm of `n`: the `e` for which `n` is
/// at least `two_to(e)` and below `two_to(e + 1)`. It is zero for zero.
pub open spec fn whole_log2(n: nat) -> nat
    decreases n,
{
    if n < 2 {
        0
    } else {
        1 + whole_log2(n / 2)
    }
}

/// `n / unit` rounded to the nearest whole number, and to the even one where
/// two are equally near.
pub open spec fn rounded_quotient(n: nat, unit: nat) -> nat {
    if 2 * (n % unit) > unit || (2 * (n % unit) == unit && (n / unit) % 2 == 1) {
        n / unit + 1
    } else {
        n / unit
    }
}

/// The 53 bits to which `n > 0` is cut: `n` itself, scaled up, where it has
/// no more bits than that, and else `n` scaled down and rounded. It lies from
/// `two_to(52)` to `two_to(53)`, both included.
pub open spec fn significand(n: nat) -> nat {
    if whole_log2(n) <= 52 {
        n * two_to((52 - whole_log2(n)) as nat)
    } else {
        rounded_quotient(n, two_to((whole_log2(n) - 52) as nat))
    }
}

/// The pattern of the whole number `n` as a binary64: of `n` itself where
/// binary64 has it, and else of the nearest number that binary64 has, the
/// one with the even significand where two are equally near. The exponent
/// field holds the binary logarithm above its bias of 1023, the fraction
/// field what the significand has beyond its leading bit; a significand
/// rounded up to `two_to(53)` carries into the exponent.
pub open spec fn pattern_of_count(n: nat) -> nat {
    if n == 0 {
        0
    } else {
        ((1022 + whole_log2(n)) * two_to(52) + significand(n)) as nat
    }
}

/// `two_to` is the power of two that `vstd` tabulates.
proof fn lemma_two_to_is_pow2(e: nat)
    ensures
        two_to(e) == pow2(e),
    decreases e,
{
    if e == 0 {
        lemma2_to64();
    } else {
        lemma_two_to_is_pow2((e - 1) as nat);
        lemma_pow2_unfold(e);
    }
}

/// The powers of two are above zero and never descend.
proof fn lemma_two_to_ascends(a: nat, b: nat)
    requires
        a <= b,
    ensures
        0 < two_to(a) <= two_to(b),
    decreases b,
{
    if b == 0 {
    } else if a < b {
        lemma_two_to_ascends(a, (b - 1) as nat);
    } else {
        lemma_two_to_ascends(0, (b - 1) as nat);
    }
}

/// The power of a sum is the product of the powers.
proof fn lemma_two_to_adds(a: nat, b: nat)
    ensures
        two_to(a + b) == two_to(a) * two_to(b),
    decreases b,
{
    if b == 0 {
        assert(two_to(a) * 1 == two_to(a)) by (nonlinear_arith);
    } else {
        lemma_two_to_adds(a, (b - 1) as nat);
        let x = two_to(a);
        let y = two_to((b - 1) as nat);
        assert(2 * (x * y) == x * (2 * y)) by (nonlinear_arith);
    }
}

/// A number from `two_to(e)` up to the next power has the whole logarithm
/// `e`.
proof fn lemma_whole_log2(n: nat, e: nat)
    requires
        two_to(e) <= n < 2 * two_to(e),
    ensures
        whole_log2(n) == e,
    decreases e,
{
    if e > 0 {
        lemma_two_to_ascends(0, (e - 1) as nat);
        lemma_whole_log2(n / 2, (e - 1) as nat);
    }
}

/// The binary64 pattern of the whole number `n`, as a conversion of `n` to
/// binary64 yields it.
pub fn from_count(n: usize) -> (r: u64)
    ensures
        r == pattern_of_count(n as nat),
        finite(r),
        !negative(r),
{
    if n == 0 {
        return 0;
    }
    let whole: u64 = n as u64;
    let mut e: u64 = 0;
    let mut top: u64 = 1;
    proof {
        lemma_two_to_is_pow2(11);
        lemma_two_to_is_pow2(52);
        lemma_two_to_is_pow2(64);
        lemma2_to64();
        lemma2_to64_rest();
    }
    while whole - top >= top
        invariant
            top == two_to(e as nat),
            0 < top <= whole,
            e < 64,
            two_to(64) == 0x1_0000_0000_0000_0000,
        decreases whole - top,
    {
        proof {
            if e + 1 >= 64 {
                lemma_two_to_ascends(64, (e + 1) as nat);
            }
        }
        top = top * 2;
        e = e + 1;
    }
    proof {
        lemma_whole_log2(whole as nat, e as nat);
    }
    let mut sig: u64 = whole;
    assert(sig == whole * two_to(0)) by (nonlinear_arith)
        requires
            sig == whole,
            two_to(0) == 1,
    ;
    if e <= 52 {
        let mut k: u64 = e;
        let mut t: u64 = top;
        while k < 52
            invariant
                e <= k <= 52,
                t == two_to(k as nat),
                t <= sig < 2 * t,
                sig == whole * two_to((k - e) as nat),
                two_to(52) == 0x10_0000_0000_0000,
            decreases 52 - k,
        {
            proof {
                lemma_two_to_ascends((k + 1) as nat, 52);
                let y = two_to((k - e) as nat);
                assert(2 * (whole * y) == whole * (2 * y)) by (nonlinear_arith);
            }
            sig = sig * 2;
            t = t * 2;
            k = k + 1;
        }
    } else {
        let mut unit: u64 = 1;
        let mut k: u64 = 52;
        while k < e
            invariant
                52 <= k <= e < 64,
                unit == two_to((k - 52) as nat),
                0 < unit <= 0x800,
                two_to(11) == 0x800,
            decreases e - k,
        {
            proof {
                lemma_two_to_ascends((k + 1 - 52) as nat, 11);
            }
            unit = unit * 2;
            k = k + 1;
        }
        let quotient = whole / unit;
        let rest = whole % unit;
        proof {
            lemma_two_to_adds(52, (e - 52) as nat);
            let u = unit as int;
            let w = whole as int;
            let q = quotient as int;
            assert(0x10_0000_0000_0000 <= q < 0x20_0000_0000_0000) by (nonlinear_arith)
                requires
                    u > 0,
                    q == w / u,
                    0x10_0000_0000_0000 * u <= w < 2 * (0x10_0000_0000_0000 * u),
            ;
        }
        if rest > unit - rest || (rest == unit - rest && quotient % 2 == 1) {
            sig = quotient + 1;
        } else {
            sig = quotient;
        }
    }
    (1022 + e) * 0x10_0000_0000_0000 + sig
}

} // verus!
