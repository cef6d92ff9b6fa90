//! Binary fractions with 53-bit significands, in whole numbers.
//!
//! Element lengths are scaled in double precision. Every length that occurs
//! lies well inside the range of normal doubles, so a double is a significand
//! of 53 bits over a power of two, and each operation returns the
//! representable fraction nearest to the exact result.
use vstd::arithmetic::div_mod::{lemma_fundamental_div_mod, lemma_mod_multiples_basic};
use vstd::arithmetic::power2::{
    lemma2_to64, lemma2_to64_rest, lemma_pow2_pos, lemma_pow2_unfold, pow2,
};
use vstd::prelude::*;

verus! {

/// `num / den` to the nearest whole number; a half goes to the even neighbour.
pub open spec fn round_even(num: nat, den: nat) -> nat {
    let quot = num / den;
    let rem = num % den;
    if 2 * rem < den || (2 * rem == den && quot % 2 == 0) {
        quot
    } else {
        quot + 1
    }
}

/// The number `significand / scale`, where `scale` is a power of two.
pub struct BinaryFraction {
    pub significand: nat,
    pub scale: nat,
}

/// The double nearest to `num / den`, for a quotient below `2^53`: doubles
/// `num` and the scale until the quotient takes 53 bits, and rounds it.
pub open spec fn nearest_double(num: nat, den: nat) -> BinaryFraction
    decreases (if num < 0x10_0000_0000_0000 * den { 0x10_0000_0000_0000 * den - num } else { 0 }),
{
    if num == 0 || num >= 0x10_0000_0000_0000 * den {
        BinaryFraction { significand: round_even(num, den), scale: 1 }
    } else {
        let fraction = nearest_double(2 * num, den);
        BinaryFraction { significand: fraction.significand, scale: 2 * fraction.scale }
    }
}

/// The double nearest to `a * b`: the exact product of the significands takes
/// 105 or 106 bits, of which the lowest 52 or 53 are rounded away.
pub open spec fn double_product(a: BinaryFraction, b: BinaryFraction) -> BinaryFraction {
    let exact = a.significand * b.significand;
    let dropped: nat = if exact < 0x200_0000_0000_0000_0000_0000_0000 {
        0x10_0000_0000_0000
    } else {
        0x20_0000_0000_0000
    };
    BinaryFraction {
        significand: round_even(exact, dropped),
        scale: (a.scale * b.scale) / dropped,
    }
}

/// Computes [`round_even`].
pub fn round_to_even(num: u128, den: u128) -> (rounded: u128)
    requires
        0 < den < 0x8000_0000_0000_0000_0000_0000_0000_0000,
        num < 0x8000_0000_0000_0000_0000_0000_0000_0000,
    ensures
        rounded == round_even(num as nat, den as nat),
{
    let quot: u128 = num / den;
    let rem: u128 = num % den;
    assert(quot <= num) by (nonlinear_arith)
        requires
            quot == num / den,
            den > 0,
    ;
    if 2 * rem < den || (2 * rem == den && quot % 2 == 0) {
        quot
    } else {
        quot + 1
    }
}

/// The double nearest to `num / den`, computed.
pub fn to_double(num: u128, den: u128) -> (fraction: (u128, u128))
    requires
        0 < den <= 0x4000_0000,
        0 < num < 0x20_0000_0000_0000 * den,
    ensures
        fraction.0 == nearest_double(num as nat, den as nat).significand,
        fraction.1 == nearest_double(num as nat, den as nat).scale,
{
    let mut scaled: u128 = num;
    let mut scale: u128 = 1;
    while scaled < 0x10_0000_0000_0000 * den
        invariant
            0 < den <= 0x4000_0000,
            0 < scale <= scaled < 0x20_0000_0000_0000 * den,
            ({
                let whole = nearest_double(num as nat, den as nat);
                let rest = nearest_double(scaled as nat, den as nat);
                whole.significand == rest.significand && whole.scale == scale * rest.scale
            }),
        decreases 0x20_0000_0000_0000 * den - scaled,
    {
        proof {
            let rest = nearest_double(2 * scaled as nat, den as nat);
            assert(scale * (2 * rest.scale) == (2 * scale) * rest.scale) by (nonlinear_arith);
        }
        scaled = 2 * scaled;
        scale = 2 * scale;
    }
    (round_to_even(scaled, den), scale)
}

/// A rounded quotient is off by at most half a unit.
pub proof fn lemma_round_even_is_nearest(num: nat, den: nat)
    requires
        den > 0,
    ensures
        2 * (round_even(num, den) * den) <= 2 * num + den,
        2 * num <= 2 * (round_even(num, den) * den) + den,
{
    let quot = num / den;
    let rem = num % den;
    assert(num == quot * den + rem && rem < den) by (nonlinear_arith)
        requires
            quot == num / den,
            rem == num % den,
            den > 0,
    ;
    assert((quot + 1) * den == quot * den + den) by (nonlinear_arith);
}

/// What doubling does to `num` and the scale: together they bring the
/// quotient to 53 bits, and the significand is that quotient rounded.
pub proof fn lemma_nearest_double_scale(num: nat, den: nat)
    requires
        0 < num < 0x20_0000_0000_0000 * den,
    ensures
        ({
            let fraction = nearest_double(num, den);
            &&& fraction.scale > 0
            &&& 0x10_0000_0000_0000 * den <= num * fraction.scale < 0x20_0000_0000_0000 * den
            &&& fraction.significand == round_even(num * fraction.scale, den)
        }),
    decreases (if num < 0x10_0000_0000_0000 * den { 0x10_0000_0000_0000 * den - num } else { 0 }),
{
    if num < 0x10_0000_0000_0000 * den {
        lemma_nearest_double_scale(2 * num, den);
        let rest = nearest_double(2 * num, den);
        assert((2 * num) * rest.scale == num * (2 * rest.scale)) by (nonlinear_arith);
    }
}

/// A quotient below `2^53 / 2^bits` leaves a scale that `2^bits` divides.
pub proof fn lemma_scale_divisible(num: nat, den: nat, bits: nat)
    requires
        0 < num,
        num * pow2(bits) < 0x20_0000_0000_0000 * den,
    ensures
        nearest_double(num, den).scale % pow2(bits) == 0,
    decreases bits,
{
    lemma_pow2_pos(bits);
    if bits == 0 {
        lemma2_to64();
    } else {
        let less = (bits - 1) as nat;
        lemma_pow2_pos(less);
        lemma_pow2_unfold(bits);
        assert(num * pow2(bits) == (2 * num) * pow2(less)) by (nonlinear_arith)
            requires
                pow2(bits) == 2 * pow2(less),
        ;
        assert(2 * num <= (2 * num) * pow2(less)) by (nonlinear_arith)
            requires
                pow2(less) >= 1,
        ;
        lemma_scale_divisible(2 * num, den, less);
        let rest = nearest_double(2 * num, den).scale;
        let quot = rest / pow2(less);
        assert((2 * rest) % (2 * pow2(less)) == 0) by {
            lemma_fundamental_div_mod(rest as int, pow2(less) as int);
            assert(2 * rest == quot * (2 * pow2(less))) by (nonlinear_arith)
                requires
                    rest == pow2(less) * quot,
            ;
            lemma_mod_multiples_basic(quot as int, 2 * pow2(less) as int);
        }
    }
}

/// A fraction whose significand takes 53 bits and whose value is below two.
pub open spec fn is_small_normal(fraction: BinaryFraction) -> bool {
    &&& 0x10_0000_0000_0000 <= fraction.significand <= 0x20_0000_0000_0000
    &&& fraction.scale >= 0x10_0000_0000_0000
    &&& fraction.scale % 0x10_0000_0000_0000 == 0
}

/// The double nearest to a quotient below two is small and normal, and off by
/// at most half a unit in the last place.
pub proof fn lemma_nearest_double(num: nat, den: nat)
    requires
        0 < num < 2 * den,
    ensures
        ({
            let fraction = nearest_double(num, den);
            &&& is_small_normal(fraction)
            &&& num * fraction.scale < 0x20_0000_0000_0000 * den
            &&& 2 * (fraction.significand * den) <= 2 * (num * fraction.scale) + den
            &&& 2 * (num * fraction.scale) <= 2 * (fraction.significand * den) + den
        }),
{
    lemma2_to64_rest();
    lemma_nearest_double_scale(num, den);
    lemma_scale_divisible(num, den, 52);
    let fraction = nearest_double(num, den);
    let whole = num * fraction.scale;
    lemma_round_even_is_nearest(whole, den);
    let m = fraction.significand;
    assert(m >= 0x10_0000_0000_0000) by (nonlinear_arith)
        requires
            2 * whole <= 2 * (m * den) + den,
            0x10_0000_0000_0000 * den <= whole,
            den > 0,
    ;
    assert(m <= 0x20_0000_0000_0000) by (nonlinear_arith)
        requires
            2 * (m * den) <= 2 * whole + den,
            whole < 0x20_0000_0000_0000 * den,
            den > 0,
    ;
}

} // verus!
