//! How long dits, dashes and the gaps around them last, in nanoseconds.
use crate::double::{
    double_product, is_small_normal, lemma_nearest_double, lemma_round_even_is_nearest,
    nearest_double, round_even, round_to_even, to_double, BinaryFraction,
};
use vstd::prelude::*;

verus! {

pub const MIN_WPM: u8 = 5;

pub const MAX_WPM: u8 = 99;

pub const MIN_WEIGHTING: u8 = 10;

pub const MAX_WEIGHTING: u8 = 90;

/// The weighting at which marks keep their nominal length.
pub const NOMINAL_WEIGHTING: u8 = 50;

pub open spec fn valid_wpm(wpm: u8) -> bool {
    MIN_WPM <= wpm <= MAX_WPM
}

pub open spec fn valid_weighting(weighting: u8) -> bool {
    MIN_WEIGHTING <= weighting <= MAX_WEIGHTING
}

/// The length of one dit: `1200 / wpm` milliseconds, to the nearest nanosecond.
pub open spec fn unit_nanos(wpm: u8) -> nat {
    round_even(1_200_000_000, wpm as nat)
}

/// A mark of nominal length `nominal` scaled by `weighting / 50`, as double
/// precision seconds give it, to the nearest nanosecond.
pub open spec fn weighted_nanos(nominal: nat, weighting: u8) -> nat {
    if nominal == 0 {
        0
    } else {
        let ratio = nearest_double(weighting as nat, 50);
        let seconds = nearest_double(nominal, 1_000_000_000);
        let product = double_product(ratio, seconds);
        round_even(product.significand * 1_000_000_000, product.scale)
    }
}

/// The space inside a character that goes with a nominal space: what one unit
/// more than `nominal` leaves beside a weighted dit, or nothing.
pub open spec fn space_nanos(nominal: nat, wpm: u8, weighting: u8) -> nat {
    let room = nominal + unit_nanos(wpm);
    let dit = weighted_nanos(unit_nanos(wpm), weighting);
    if dit <= room {
        (room - dit) as nat
    } else {
        0
    }
}

/// The length of one dit at `wpm` words per minute.
pub fn unit(wpm: u8) -> (nanos: u64)
    requires
        wpm > 0,
    ensures
        nanos == unit_nanos(wpm),
        nanos <= 1_200_000_000,
{
    proof {
        lemma_unit_bounds(wpm);
    }
    let rounded: u128 = round_to_even(1_200_000_000, wpm as u128);
    rounded as u64
}

/// At least one word per minute makes a unit of at most 1.2 seconds, and the
/// valid speeds keep a dash under a second.
pub proof fn lemma_unit_bounds(wpm: u8)
    requires
        wpm > 0,
    ensures
        4_705_882 <= unit_nanos(wpm) <= 1_200_000_000,
        valid_wpm(wpm) ==> 12_121_212 <= unit_nanos(wpm) <= 240_000_000,
{
    let w = wpm as nat;
    let u = unit_nanos(wpm);
    lemma_round_even_is_nearest(1_200_000_000, w);
    assert(4_705_882 <= u <= 1_200_000_000 && (5 <= w <= 99 ==> 12_121_212 <= u <= 240_000_000))
        by (nonlinear_arith)
        requires
            0 < w <= 255,
            2 * (u * w) <= 2_400_000_000 + w,
            2_400_000_000 <= 2 * (u * w) + w,
    ;
}

/// The product of two small normal doubles drops bits that its exact scale
/// holds in full.
proof fn lemma_product_scale(a: BinaryFraction, b: BinaryFraction)
    requires
        is_small_normal(a),
        is_small_normal(b),
    ensures
        ({
            let exact = a.significand * b.significand;
            let product = double_product(a, b);
            let high = a.scale / 0x10_0000_0000_0000;
            &&& high >= 1
            &&& exact <= 0x400_0000_0000_0000_0000_0000_0000
            &&& if exact < 0x200_0000_0000_0000_0000_0000_0000 {
                &&& product.scale == high * b.scale
                &&& a.scale * b.scale == 0x10_0000_0000_0000 * product.scale
            } else {
                &&& product.scale == high * (b.scale / 2)
                &&& a.scale * b.scale == 0x20_0000_0000_0000 * product.scale
            }
        }),
{
    let high = a.scale / 0x10_0000_0000_0000;
    let half = b.scale / 2;
    assert(a.scale == 0x10_0000_0000_0000 * high);
    assert(b.scale == 2 * half);
    assert(a.significand * b.significand <= 0x20_0000_0000_0000 * 0x20_0000_0000_0000)
        by (nonlinear_arith)
        requires
            a.significand <= 0x20_0000_0000_0000,
            b.significand <= 0x20_0000_0000_0000,
    ;
    assert(a.scale * b.scale == 0x10_0000_0000_0000 * (high * b.scale)) by (nonlinear_arith)
        requires
            a.scale == 0x10_0000_0000_0000 * high,
    ;
    assert(a.scale * b.scale == 0x20_0000_0000_0000 * (high * half)) by (nonlinear_arith)
        requires
            a.scale == 0x10_0000_0000_0000 * high,
            b.scale == 2 * half,
    ;
}

/// A weighted mark is a whole number of nanoseconds nearest to
/// `nominal * weighting / 50`.
pub proof fn weighted_mark_is_nearest(nominal: nat, weighting: u8)
    requires
        nominal < 1_000_000_000,
        valid_weighting(weighting),
    ensures
        50 * weighted_nanos(nominal, weighting) <= nominal * weighting + 25,
        nominal * weighting <= 50 * weighted_nanos(nominal, weighting) + 25,
{
    if nominal == 0 {
        assert(nominal * weighting == 0) by (nonlinear_arith)
            requires
                nominal == 0,
        ;
    } else {
        let w = weighting as int;
        let n = nominal as int;
        let a = nearest_double(weighting as nat, 50);
        let b = nearest_double(nominal, 1_000_000_000);
        let p = double_product(a, b);
        let r = weighted_nanos(nominal, weighting) as int;
        lemma_nearest_double(weighting as nat, 50);
        lemma_nearest_double(nominal, 1_000_000_000);
        lemma_product_scale(a, b);
        let exact = a.significand * b.significand;
        let dropped: nat = if exact < 0x200_0000_0000_0000_0000_0000_0000 {
            0x10_0000_0000_0000
        } else {
            0x20_0000_0000_0000
        };
        lemma_round_even_is_nearest(exact, dropped);
        let scales = (a.scale * b.scale) as int;
        assert(p.scale > 0) by (nonlinear_arith)
            requires
                scales == dropped * p.scale,
                scales == a.scale * b.scale,
                a.scale > 0,
                b.scale > 0,
                p.scale >= 0,
        ;
        lemma_round_even_is_nearest(p.significand * 1_000_000_000, p.scale);
        lemma_error_sum(
            w,
            n,
            a.significand as int,
            a.scale as int,
            b.significand as int,
            b.scale as int,
            p.significand as int,
            p.scale as int,
            dropped as int,
            r,
        );
    }
}

/// The roundings of two factors, of their product and of the final quotient
/// add up to less than one fiftieth of a nanosecond beyond the half.
proof fn lemma_error_sum(
    w: int,
    n: int,
    ma: int,
    sa: int,
    mb: int,
    sb: int,
    mp: int,
    sp: int,
    dropped: int,
    r: int,
)
    requires
        10 <= w <= 90,
        0 < n < 1_000_000_000,
        sa >= 0x10_0000_0000_0000,
        sb >= 0x10_0000_0000_0000,
        -50 <= 2 * (ma * 50) - 2 * (w * sa) <= 50,
        -1_000_000_000 <= 2 * (mb * 1_000_000_000) - 2 * (n * sb) <= 1_000_000_000,
        0 < dropped <= 0x20_0000_0000_0000,
        -dropped <= 2 * (mp * dropped) - 2 * (ma * mb) <= dropped,
        sa * sb == dropped * sp,
        sp > 0,
        -sp <= 2 * (r * sp) - 2 * (mp * 1_000_000_000) <= sp,
    ensures
        50 * r <= n * w + 25,
        n * w <= 50 * r + 25,
{
    let s = sa * sb;
    let d1 = 50 * ma - w * sa;
    let d2 = 1_000_000_000 * mb - n * sb;
    // the exact value of the rounded factors, over the product of the scales
    assert((50 * ma) * (1_000_000_000 * mb) == n * w * s + w * sa * d2 + n * sb * d1 + d1 * d2)
        by (nonlinear_arith)
        requires
            50 * ma == w * sa + d1,
            1_000_000_000 * mb == n * sb + d2,
            s == sa * sb,
    ;
    assert((50 * ma) * (1_000_000_000 * mb) == 50_000_000_000 * (ma * mb)) by (nonlinear_arith);
    let e1 = w * sa * d2;
    let e2 = n * sb * d1;
    let e3 = d1 * d2;
    assert(-45_000_000_000 * sa <= e1 <= 45_000_000_000 * sa) by (nonlinear_arith)
        requires
            e1 == w * sa * d2,
            0 < w <= 90,
            sa > 0,
            -500_000_000 <= d2 <= 500_000_000,
    ;
    assert(-25_000_000_000 * sb <= e2 <= 25_000_000_000 * sb) by (nonlinear_arith)
        requires
            e2 == n * sb * d1,
            0 < n < 1_000_000_000,
            sb > 0,
            -25 <= d1 <= 25,
    ;
    assert(-12_500_000_000 <= e3 <= 12_500_000_000) by (nonlinear_arith)
        requires
            e3 == d1 * d2,
            -25 <= d1 <= 25,
            -500_000_000 <= d2 <= 500_000_000,
    ;
    // each error is small beside the product of the scales
    assert(s >= 0x10_0000_0000_0000 * sa) by (nonlinear_arith)
        requires
            s == sa * sb,
            sb >= 0x10_0000_0000_0000,
            sa > 0,
    ;
    assert(s >= 0x10_0000_0000_0000 * sb) by (nonlinear_arith)
        requires
            s == sa * sb,
            sa >= 0x10_0000_0000_0000,
            sb > 0,
    ;
    // the final quotient, over the product of the scales
    assert(2 * (r * s) == dropped * (2 * (r * sp))) by (nonlinear_arith)
        requires
            s == dropped * sp,
    ;
    assert(dropped * (2 * (mp * 1_000_000_000)) == 1_000_000_000 * (2 * (mp * dropped)))
        by (nonlinear_arith);
    let e4 = dropped * (2 * (r * sp) - 2 * (mp * 1_000_000_000));
    assert(-s <= e4 <= s) by (nonlinear_arith)
        requires
            e4 == dropped * (2 * (r * sp) - 2 * (mp * 1_000_000_000)),
            -sp <= 2 * (r * sp) - 2 * (mp * 1_000_000_000) <= sp,
            dropped > 0,
            s == dropped * sp,
    ;
    assert(e4 == dropped * (2 * (r * sp)) - dropped * (2 * (mp * 1_000_000_000)))
        by (nonlinear_arith)
        requires
            e4 == dropped * (2 * (r * sp) - 2 * (mp * 1_000_000_000)),
    ;
    let gap = 50 * r - n * w;
    assert(gap * s == 50 * (r * s) - n * w * s) by (nonlinear_arith)
        requires
            gap == 50 * r - n * w,
    ;
    assert(-26 * s < gap * s < 26 * s);
    assert(-26 < gap < 26) by (nonlinear_arith)
        requires
            -26 * s < gap * s < 26 * s,
            s > 0,
    ;
}

/// The length of a mark whose nominal length is `nominal`, weighted. The
/// longest mark, a dash at the lowest speed, nominally lasts 720 milliseconds.
pub fn mark_duration(nominal: u64, weighting: u8) -> (nanos: u64)
    requires
        nominal < 1_000_000_000,
        valid_weighting(weighting),
    ensures
        nanos == weighted_nanos(nominal as nat, weighting),
        nanos < 2_000_000_000,
{
    if nominal == 0 {
        return 0;
    }
    let ghost a = nearest_double(weighting as nat, 50);
    let ghost b = nearest_double(nominal as nat, 1_000_000_000);
    let (ratio, ratio_scale) = to_double(weighting as u128, 50);
    let (seconds, seconds_scale) = to_double(nominal as u128, 1_000_000_000);
    proof {
        lemma_nearest_double(weighting as nat, 50);
        lemma_nearest_double(nominal as nat, 1_000_000_000);
        lemma_product_scale(a, b);
        weighted_mark_is_nearest(nominal as nat, weighting);
        assert(ratio_scale < 0x100_0000_0000_0000) by (nonlinear_arith)
            requires
                weighting * ratio_scale < 0x20_0000_0000_0000 * 50,
                weighting >= 10,
        ;
        assert(seconds_scale < 0x20_0000_0000_0000 * 1_000_000_000) by (nonlinear_arith)
            requires
                nominal * seconds_scale < 0x20_0000_0000_0000 * 1_000_000_000,
                nominal >= 1,
        ;
    }
    assert(nominal * weighting <= 90_000_000_000) by (nonlinear_arith)
        requires
            nominal < 1_000_000_000,
            weighting <= 90,
    ;
    assert(ratio * seconds <= 0x20_0000_0000_0000 * 0x20_0000_0000_0000) by (nonlinear_arith)
        requires
            ratio <= 0x20_0000_0000_0000,
            seconds <= 0x20_0000_0000_0000,
    ;
    let exact: u128 = ratio * seconds;
    let high: u128 = ratio_scale / 0x10_0000_0000_0000;
    assert(0 < high * seconds_scale <= 16 * seconds_scale) by (nonlinear_arith)
        requires
            1 <= high <= 16,
            seconds_scale > 0,
    ;
    let half_scale: u128 = seconds_scale / 2;
    assert(0 < high * half_scale <= 16 * half_scale) by (nonlinear_arith)
        requires
            1 <= high <= 16,
            half_scale > 0,
    ;
    proof {
        lemma_round_even_is_nearest(exact as nat, 0x10_0000_0000_0000);
        lemma_round_even_is_nearest(exact as nat, 0x20_0000_0000_0000);
    }
    let nanos: u128 = if exact < 0x200_0000_0000_0000_0000_0000_0000 {
        let significand: u128 = round_to_even(exact, 0x10_0000_0000_0000);
        round_to_even(significand * 1_000_000_000, high * seconds_scale)
    } else {
        let significand: u128 = round_to_even(exact, 0x20_0000_0000_0000);
        round_to_even(significand * 1_000_000_000, high * half_scale)
    };
    nanos as u64
}

/// The space that follows a mark inside a character: together with a weighted
/// dit it stays close to `nominal` and one unit.
pub fn space_duration(nominal: u64, wpm: u8, weighting: u8) -> (nanos: u64)
    requires
        nominal < 1_000_000_000,
        valid_wpm(wpm),
        valid_weighting(weighting),
    ensures
        nanos == space_nanos(nominal as nat, wpm, weighting),
        nanos < 2_000_000_000,
{
    proof {
        lemma_unit_bounds(wpm);
    }
    let unit: u64 = unit(wpm);
    let weighted_dit: u64 = mark_duration(unit, weighting);
    (nominal + unit).saturating_sub(weighted_dit)
}

/// One dit lasts `1200 / wpm` milliseconds, off by at most half a nanosecond.
pub proof fn dit_is_1200_millis_over_wpm(wpm: u8)
    requires
        wpm > 0,
    ensures
        2 * (unit_nanos(wpm) * wpm) <= 2 * 1_200_000_000 + wpm,
        2 * 1_200_000_000 <= 2 * (unit_nanos(wpm) * wpm) + wpm,
{
    lemma_round_even_is_nearest(1_200_000_000, wpm as nat);
}

/// At a higher speed a dit is shorter.
pub proof fn faster_is_shorter(slow: u8, fast: u8)
    requires
        0 < slow < fast,
    ensures
        unit_nanos(fast) < unit_nanos(slow),
{
    let (u, v) = (unit_nanos(slow), unit_nanos(fast));
    dit_is_1200_millis_over_wpm(slow);
    dit_is_1200_millis_over_wpm(fast);
    assert(v < u) by (nonlinear_arith)
        requires
            0 < slow < fast <= 255,
            2_400_000_000 <= 2 * (u * slow) + slow,
            2_400_000_000 <= 2 * (v * fast) + fast,
            2 * (v * fast) <= 2_400_000_000 + fast,
            2 * (u * slow) <= 2_400_000_000 + slow,
    ;
}

/// A weighting of 50 is nominal: it leaves every mark as it is.
pub proof fn nominal_weighting_keeps_marks(nominal: nat)
    requires
        nominal < 1_000_000_000,
    ensures
        weighted_nanos(nominal, NOMINAL_WEIGHTING) == nominal,
{
    weighted_mark_is_nearest(nominal, NOMINAL_WEIGHTING);
}

/// At nominal weighting a dash lasts three dits and the space inside a
/// character lasts one.
pub proof fn nominal_elements(wpm: u8)
    requires
        valid_wpm(wpm),
    ensures
        weighted_nanos(unit_nanos(wpm), NOMINAL_WEIGHTING) == unit_nanos(wpm),
        weighted_nanos(3 * unit_nanos(wpm), NOMINAL_WEIGHTING) == 3 * unit_nanos(wpm),
        space_nanos(unit_nanos(wpm), wpm, NOMINAL_WEIGHTING) == unit_nanos(wpm),
{
    lemma_unit_bounds(wpm);
    nominal_weighting_keeps_marks(unit_nanos(wpm));
    nominal_weighting_keeps_marks(3 * unit_nanos(wpm));
}

/// Whatever the weighting, a dit and the space after it last two units.
pub proof fn dit_and_space_last_two_units(wpm: u8, weighting: u8)
    requires
        valid_wpm(wpm),
        valid_weighting(weighting),
    ensures
        weighted_nanos(unit_nanos(wpm), weighting) + space_nanos(unit_nanos(wpm), wpm, weighting)
            == 2 * unit_nanos(wpm),
{
    let u = unit_nanos(wpm);
    lemma_unit_bounds(wpm);
    weighted_mark_is_nearest(u, weighting);
    assert(u * weighting <= 90 * u) by (nonlinear_arith)
        requires
            weighting <= 90,
    ;
}

/// A heavier weighting makes a longer mark.
pub proof fn heavier_is_longer(nominal: nat, light: u8, heavy: u8)
    requires
        50 < nominal < 1_000_000_000,
        valid_weighting(light),
        valid_weighting(heavy),
        light < heavy,
    ensures
        weighted_nanos(nominal, light) < weighted_nanos(nominal, heavy),
{
    weighted_mark_is_nearest(nominal, light);
    weighted_mark_is_nearest(nominal, heavy);
    assert(nominal * heavy >= nominal * light + nominal) by (nonlinear_arith)
        requires
            light < heavy,
    ;
}

/// Whatever the weighting, a dash lasts three times a dit, but for what is
/// rounded.
pub proof fn dash_lasts_three_dits(wpm: u8, weighting: u8)
    requires
        valid_wpm(wpm),
        valid_weighting(weighting),
    ensures
        weighted_nanos(3 * unit_nanos(wpm), weighting) <= 3 * weighted_nanos(
            unit_nanos(wpm),
            weighting,
        ) + 2,
        3 * weighted_nanos(unit_nanos(wpm), weighting) <= weighted_nanos(
            3 * unit_nanos(wpm),
            weighting,
        ) + 2,
{
    let u = unit_nanos(wpm);
    lemma_unit_bounds(wpm);
    weighted_mark_is_nearest(u, weighting);
    weighted_mark_is_nearest(3 * u, weighting);
    assert((3 * u) * weighting == 3 * (u * weighting)) by (nonlinear_arith);
}

/// A space and the dit before it last one unit more than the nominal space, if
/// there is room for the dit; if there is none, there is no space.
pub proof fn space_gives_what_the_dit_takes(nominal: nat, wpm: u8, weighting: u8)
    requires
        valid_wpm(wpm),
        valid_weighting(weighting),
    ensures
        ({
            let unit = unit_nanos(wpm);
            let space = space_nanos(nominal, wpm, weighting);
            let room = 50 * (nominal + unit);
            &&& space <= nominal + unit
            &&& room >= unit * weighting + 25 ==> {
                &&& room <= 50 * space + unit * weighting + 25
                &&& 50 * space + unit * weighting <= room + 25
            }
            &&& room + 25 < unit * weighting ==> space == 0
        }),
{
    lemma_unit_bounds(wpm);
    weighted_mark_is_nearest(unit_nanos(wpm), weighting);
}

} // verus!
