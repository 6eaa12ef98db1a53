//! Floating point values by their bit pattern.
use vstd::arithmetic::power2::{
    lemma2_to64, lemma2_to64_rest, lemma_pow2_adds, lemma_pow2_pos, lemma_pow2_strictly_increases,
    lemma_pow2_unfold, pow2,
};
use vstd::prelude::*;

verus! {

/// A double precision value by its IEEE 754 bit pattern.
#[derive(Debug, Clone, Copy, PartialEq, Eq, Structural)]
pub struct Double {
    pub bits: u64,
}

/// A single precision value by its IEEE 754 bit pattern.
#[derive(Debug, Clone, Copy, PartialEq, Eq, Structural)]
pub struct Single {
    pub bits: u32,
}

/// The bits of a value without its sign.
pub open spec fn magnitude(bits: u64) -> int {
    bits as int % 0x8000_0000_0000_0000
}

/// The bit patterns that stand for no number.
pub open spec fn not_a_number(bits: u64) -> bool {
    magnitude(bits) > 0x7ff0_0000_0000_0000
}

/// A number that orders the values as they are ordered: both zeros are zero, and a greater
/// magnitude is further from zero.
pub open spec fn rank(bits: u64) -> int {
    if bits >= 0x8000_0000_0000_0000 {
        -magnitude(bits)
    } else {
        magnitude(bits)
    }
}

/// `a < b` of two values; never of one that is no number.
pub open spec fn float_less(a: u64, b: u64) -> bool {
    !not_a_number(a) && !not_a_number(b) && rank(a) < rank(b)
}

pub fn less(a: u64, b: u64) -> (r: bool)
    ensures
        r == float_less(a, b),
{
    let ma: u64 = a % 0x8000_0000_0000_0000;
    let mb: u64 = b % 0x8000_0000_0000_0000;
    if ma > 0x7ff0_0000_0000_0000 || mb > 0x7ff0_0000_0000_0000 {
        return false;
    }
    let a_negative: bool = a >= 0x8000_0000_0000_0000;
    let b_negative: bool = b >= 0x8000_0000_0000_0000;
    if a_negative && b_negative {
        mb < ma
    } else if a_negative {
        ma != 0 || mb != 0
    } else if b_negative {
        false
    } else {
        ma < mb
    }
}

/// No value is less than itself.
pub proof fn less_is_irreflexive(a: u64)
    ensures
        !float_less(a, a),
{
}

/// The order of values is transitive.
pub proof fn less_is_transitive(a: u64, b: u64, c: u64)
    requires
        float_less(a, b),
        float_less(b, c),
    ensures
        float_less(a, c),
{
}

/// Whether a double precision value is neither infinite nor no number.
pub open spec fn is_finite(bits: u64) -> bool {
    magnitude(bits) < 0x7ff0_0000_0000_0000
}

/// Whether a single precision value is neither infinite nor no number.
pub open spec fn is_single_finite(bits: u32) -> bool {
    bits % 0x8000_0000 < 0x7f80_0000
}

/// How a double precision value reads in a message.
pub uninterp spec fn double_shown(bits: u64) -> Seq<char>;

/// How a double precision value reads as JSON.
pub uninterp spec fn double_json(bits: u64) -> Seq<char>;

/// How a single precision value reads as JSON.
pub uninterp spec fn single_json(bits: u32) -> Seq<char>;

/// How a double precision value reads where it is shown for debugging.
pub uninterp spec fn double_debugged(bits: u64) -> Seq<char>;

/// How a single precision value reads where it is shown for debugging.
pub uninterp spec fn single_debugged(bits: u32) -> Seq<char>;

/// The place of the highest bit of a number, counted from zero.
pub open spec fn top_bit(n: nat) -> nat
    decreases n,
{
    if n < 2 {
        0
    } else {
        1 + top_bit(n / 2)
    }
}

/// A number divided by a power of two and rounded to the nearest integer; of two that are equally
/// near, the even one.
pub open spec fn rounded(n: nat, k: nat) -> nat {
    let q = n / pow2(k);
    let r = n % pow2(k);
    if 2 * r > pow2(k) || (2 * r == pow2(k) && q % 2 == 1) {
        q + 1
    } else {
        q
    }
}

/// The double precision value nearest to a number that is not negative, by its bit pattern: the
/// exponent, and behind it the 52 bits that follow the highest one.
pub open spec fn double_of_nat(n: nat) -> nat {
    let e = top_bit(n);
    if n == 0 {
        0
    } else if e <= 52 {
        (e + 1022) * 0x10_0000_0000_0000 + n * pow2((52 - e) as nat)
    } else {
        (e + 1022) * 0x10_0000_0000_0000 + rounded(n, (e - 52) as nat)
    }
}

/// The double precision value nearest to a number that is not negative.
pub open spec fn double_of_uint(n: u64) -> u64 {
    double_of_nat(n as nat) as u64
}

/// The double precision value nearest to an integer.
pub open spec fn double_of_int(n: i64) -> u64 {
    if n >= 0 {
        double_of_nat(n as nat) as u64
    } else {
        (0x8000_0000_0000_0000 + double_of_nat((-n) as nat)) as u64
    }
}

/// The double precision value that equals a finite single precision one, both without their sign.
/// The bits of the number stay, and the exponent is counted from elsewhere; the smallest numbers,
/// which have none of their own, get one.
pub open spec fn double_of_magnitude(bits: nat) -> nat {
    let e = bits / 0x80_0000;
    let m = bits % 0x80_0000;
    if bits == 0 {
        0
    } else if e == 0 {
        (top_bit(m) + 873) * 0x10_0000_0000_0000 + m * pow2((52 - top_bit(m)) as nat)
    } else {
        (e + 896) * 0x10_0000_0000_0000 + m * 0x2000_0000
    }
}

/// The double precision value that equals a finite single precision one.
pub open spec fn double_of_single(bits: u32) -> u64 {
    if bits < 0x8000_0000 {
        double_of_magnitude(bits as nat) as u64
    } else {
        (0x8000_0000_0000_0000 + double_of_magnitude((bits - 0x8000_0000) as nat)) as u64
    }
}

/// The `Display` form of a value that `bytes::Buf` reads from its bit pattern. The text depends
/// on the bits alone; its digits are left unsaid.
#[verifier::external_body]
pub(crate) fn shown(bits: u64) -> (r: String)
    ensures
        r@ == double_shown(bits),
{
    bytes::Buf::get_f64(&mut &bits.to_be_bytes()[..]).to_string()
}

/// `serde_json::to_string` of a double precision value that `bytes::Buf` reads from its bit
/// pattern. The text depends on the bits alone; its digits are left unsaid.
#[verifier::external_body]
pub(crate) fn double_json_text(bits: u64) -> (r: String)
    ensures
        r@ == double_json(bits),
{
    serde_json::to_string(&bytes::Buf::get_f64(&mut &bits.to_be_bytes()[..])).unwrap_or_default()
}

/// `serde_json::to_string` of a single precision value that `bytes::Buf` reads from its bit
/// pattern. The text depends on the bits alone; its digits are left unsaid.
#[verifier::external_body]
pub(crate) fn single_json_text(bits: u32) -> (r: String)
    ensures
        r@ == single_json(bits),
{
    serde_json::to_string(&bytes::Buf::get_f32(&mut &bits.to_be_bytes()[..])).unwrap_or_default()
}

/// `serde_json::Number::as_f64` of a number that is not negative, by its bit pattern: the nearest
/// value, the even one of two that are equally near.
#[verifier::external_body]
pub(crate) fn uint_double(n: u64) -> (r: u64)
    ensures
        r == double_of_uint(n),
{
    serde_json::Number::from(n).as_f64().unwrap_or_default().to_bits()
}

/// `serde_json::Number::as_f64` of an integer, by its bit pattern: the nearest value, the even one
/// of two that are equally near.
#[verifier::external_body]
pub(crate) fn int_double(n: i64) -> (r: u64)
    ensures
        r == double_of_int(n),
{
    serde_json::Number::from(n).as_f64().unwrap_or_default().to_bits()
}

/// The `Debug` form of a double precision value that `bytes::Buf` reads from its bit pattern. The
/// text depends on the bits alone; its digits are left unsaid.
#[verifier::external_body]
pub(crate) fn double_debug(bits: u64) -> (r: String)
    ensures
        r@ == double_debugged(bits),
{
    format!("{:?}", bytes::Buf::get_f64(&mut &bits.to_be_bytes()[..]))
}

/// The `Debug` form of a single precision value that `bytes::Buf` reads from its bit pattern. The
/// text depends on the bits alone; its digits are left unsaid.
#[verifier::external_body]
pub(crate) fn single_debug(bits: u32) -> (r: String)
    ensures
        r@ == single_debugged(bits),
{
    format!("{:?}", bytes::Buf::get_f32(&mut &bits.to_be_bytes()[..]))
}

/// `serde_json::Value::from` of a single precision value that `bytes::Buf` reads from its bit
/// pattern, as the bit pattern of the number that it makes: the same number.
#[verifier::external_body]
pub(crate) fn single_double(bits: u32) -> (r: u64)
    requires
        is_single_finite(bits),
    ensures
        r == double_of_single(bits),
{
    let value = serde_json::Value::from(bytes::Buf::get_f32(&mut &bits.to_be_bytes()[..]));
    value.as_f64().unwrap_or_default().to_bits()
}

// ---------------------------------------------------------------------------
// Integers keep their order
// ---------------------------------------------------------------------------

proof fn lemma_top_bit(n: nat)
    requires
        n > 0,
    ensures
        pow2(top_bit(n)) <= n < 2 * pow2(top_bit(n)),
    decreases n,
{
    lemma2_to64();
    if n >= 2 {
        lemma_top_bit(n / 2);
        lemma_pow2_unfold(top_bit(n));
    }
}

proof fn lemma_rounded(n: nat, k: nat, e: nat)
    requires
        pow2(e) <= n < 2 * pow2(e),
        e == 52 + k,
    ensures
        0x10_0000_0000_0000 <= rounded(n, k) <= 0x20_0000_0000_0000,
{
    lemma2_to64();
    lemma2_to64_rest();
    lemma_pow2_adds(52, k);
    lemma_pow2_pos(k);
    let p = pow2(k);
    let q = n / p;
    assert(q >= 0x10_0000_0000_0000) by (nonlinear_arith)
        requires
            n >= 0x10_0000_0000_0000 * p,
            p > 0,
            q == n / p,
    ;
    assert(q < 0x20_0000_0000_0000) by (nonlinear_arith)
        requires
            n < 2 * (0x10_0000_0000_0000 * p),
            p > 0,
            q == n / p,
    ;
}

/// The nearest value of a number lies between the powers of two that it lies between.
pub proof fn nearest_lies_between(n: nat)
    requires
        n > 0,
    ensures
        (top_bit(n) + 1023) * 0x10_0000_0000_0000 <= double_of_nat(n) <= (top_bit(n) + 1024)
            * 0x10_0000_0000_0000,
{
    let e = top_bit(n);
    lemma_top_bit(n);
    lemma2_to64();
    lemma2_to64_rest();
    if e <= 52 {
        let k = (52 - e) as nat;
        lemma_pow2_adds(e, k);
        lemma_pow2_pos(k);
        let p = pow2(k);
        let b = pow2(e);
        assert(n * p >= 0x10_0000_0000_0000 && n * p <= 0x20_0000_0000_0000) by (nonlinear_arith)
            requires
                b <= n < 2 * b,
                b * p == 0x10_0000_0000_0000,
                p > 0,
        ;
    } else {
        lemma_rounded(n, (e - 52) as nat, e);
    }
}

/// Among the nearest values of numbers that are not negative, 0x3ff0_0000_0000_0000 is that of one
/// and 0x40ef_ffe0_0000_0000 that of 65535; those of other numbers lie on the same side of them as
/// the numbers do, and all are finite.
pub proof fn nearest_keep_their_side(n: u64)
    ensures
        double_of_nat(n as nat) < 0x7ff0_0000_0000_0000,
        n < 1 <==> double_of_nat(n as nat) < 0x3ff0_0000_0000_0000,
        n > 65535 <==> double_of_nat(n as nat) > 0x40ef_ffe0_0000_0000,
{
    let m = n as nat;
    if m > 0 {
        let e = top_bit(m);
        lemma_top_bit(m);
        nearest_lies_between(m);
        lemma2_to64();
        lemma2_to64_rest();
        if e >= 64 {
            if e > 64 {
                lemma_pow2_strictly_increases(64, e);
            }
            assert(false);
        }
        if e > 16 {
            lemma_pow2_strictly_increases(16, e);
        }
        if e < 15 {
            lemma_pow2_strictly_increases(e, 15);
        }
        if e == 15 {
            let p = pow2((52 - e) as nat);
            assert(p == 0x20_0000_0000);
            assert(m * p == m * 0x20_0000_0000) by (nonlinear_arith)
                requires
                    p == 0x20_0000_0000,
            ;
        }
    }
}

proof fn lemma_exact(n: nat)
    requires
        0 < n < 0x20_0000_0000_0000,
    ensures
        top_bit(n) <= 52,
        0x10_0000_0000_0000 <= n * pow2((52 - top_bit(n)) as nat) < 0x20_0000_0000_0000,
{
    let e = top_bit(n);
    lemma_top_bit(n);
    lemma2_to64();
    lemma2_to64_rest();
    if e > 52 {
        if e > 53 {
            lemma_pow2_strictly_increases(53, e);
        }
        assert(false);
    }
    let k = (52 - e) as nat;
    lemma_pow2_adds(e, k);
    lemma_pow2_pos(k);
    let p = pow2(k);
    let b = pow2(e);
    assert(n * p >= 0x10_0000_0000_0000 && n * p < 0x20_0000_0000_0000) by (nonlinear_arith)
        requires
            b <= n < 2 * b,
            b * p == 0x10_0000_0000_0000,
            p > 0,
    ;
}

proof fn lemma_exact_order(n: nat, m: nat)
    requires
        n < m < 0x20_0000_0000_0000,
    ensures
        double_of_nat(n) < double_of_nat(m) < 0x7ff0_0000_0000_0000,
{
    lemma_exact(m);
    if n > 0 {
        lemma_exact(n);
        lemma_top_bit(n);
        lemma_top_bit(m);
        let a = top_bit(n);
        let b = top_bit(m);
        if a > b {
            lemma_pow2_unfold((b + 1) as nat);
            if a > b + 1 {
                lemma_pow2_strictly_increases((b + 1) as nat, a);
            }
            assert(false);
        }
        if a == b {
            let p = pow2((52 - a) as nat);
            assert(n * p < m * p) by (nonlinear_arith)
                requires
                    n < m,
                    n * p >= 0x10_0000_0000_0000,
            ;
        }
    }
}

/// Whole numbers below 2^53 that are not negative are ordered as their values are.
pub proof fn small_numbers_keep_their_order(n: u64, m: u64)
    requires
        n < 0x20_0000_0000_0000,
        m < 0x20_0000_0000_0000,
    ensures
        float_less(double_of_uint(n), double_of_uint(m)) <==> n < m,
{
    if n < m {
        lemma_exact_order(n as nat, m as nat);
    } else if m < n {
        lemma_exact_order(m as nat, n as nat);
    }
}

/// One value is below another exactly where both are numbers and it is further to the left: of two
/// that are not negative the one with the smaller bit pattern, of two negative ones the one with
/// the greater, and a negative one below one that is not, unless both are zero.
pub proof fn values_are_ordered_by_their_bits(a: u64, b: u64)
    ensures
        a % 0x8000_0000_0000_0000 > 0x7ff0_0000_0000_0000 || b % 0x8000_0000_0000_0000
            > 0x7ff0_0000_0000_0000 ==> !float_less(a, b),
        a <= 0x7ff0_0000_0000_0000 && b <= 0x7ff0_0000_0000_0000 ==> (float_less(a, b) <==> a < b),
        0x8000_0000_0000_0000 <= a <= 0xfff0_0000_0000_0000 && 0x8000_0000_0000_0000 <= b
            <= 0xfff0_0000_0000_0000 ==> (float_less(a, b) <==> a > b),
        0x8000_0000_0000_0000 < a <= 0xfff0_0000_0000_0000 && b <= 0x7ff0_0000_0000_0000
            ==> float_less(a, b),
        a == 0x8000_0000_0000_0000 && b <= 0x7ff0_0000_0000_0000 ==> (float_less(a, b) <==> b > 0),
        a <= 0x7ff0_0000_0000_0000 && 0x8000_0000_0000_0000 <= b ==> !float_less(a, b),
{
}

/// A value is finite exactly where its bit pattern, the sign aside, is below that of the infinite.
pub proof fn finite_values_are_below_the_infinite(a: u64, b: u32)
    ensures
        is_finite(a) <==> a % 0x8000_0000_0000_0000 < 0x7ff0_0000_0000_0000,
        is_single_finite(b) <==> b % 0x8000_0000 < 0x7f80_0000,
{
}

/// A number below zero is the number above it with the sign set.
pub proof fn numbers_below_zero_have_their_sign_set(n: i64)
    requires
        n != i64::MIN,
    ensures
        n >= 0 ==> double_of_int(n) == double_of_uint(n as u64),
        n < 0 ==> double_of_int(n) == (0x8000_0000_0000_0000 + double_of_nat(
            (-n) as nat,
        )) as u64,
{
}

} // verus!
