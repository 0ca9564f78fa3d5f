//! Single-precision numbers as the bits they are stored in.
use vstd::arithmetic::mul::{lemma_mul_is_associative, lemma_mul_is_distributive_add_other_way};
use vstd::arithmetic::power2::{
    lemma2_to64, lemma2_to64_rest, lemma_pow2_adds, lemma_pow2_pos, lemma_pow2_strictly_increases,
    lemma_pow2_unfold, pow2,
};
use vstd::prelude::*;

verus! {

/// The bits of an IEEE 754 single-precision number.
#[derive(Clone, Copy, Debug, PartialEq, Eq, Structural)]
pub struct F32Bits(pub u32);

/// The bits of positive infinity: the finite numbers that are not negative come before it.
pub const INFINITY: u32 = 0x7f80_0000;

/// The finite number with these bits, in units of the least positive number, which is
/// `2` to the power `-149`.
pub open spec fn magnitude(bits: nat) -> nat {
    let exponent = bits / 0x80_0000;
    let fraction = bits % 0x80_0000;
    if exponent == 0 {
        fraction
    } else {
        (0x80_0000 + fraction) * pow2((exponent - 1) as nat)
    }
}

/// How far apart two numbers are.
pub open spec fn distance(a: nat, b: nat) -> nat {
    if a <= b {
        (b - a) as nat
    } else {
        (a - b) as nat
    }
}

/// `bits` are those of the number nearest to `value` that is not negative. Where two are equally
/// near, it is the one whose last bit is zero.
pub open spec fn is_nearest(value: nat, bits: u32) -> bool {
    let target = value * pow2(149);
    &&& bits < INFINITY
    &&& forall|other: u32|
        #![trigger magnitude(other as nat)]
        other < INFINITY ==> {
            let here = distance(magnitude(bits as nat), target);
            let there = distance(magnitude(other as nat), target);
            here < there || other == bits || (here == there && bits % 2 == 0)
        }
}

/// The bits of the number nearest to `value`.
pub open spec fn nearest(value: nat) -> u32 {
    choose|bits: u32| is_nearest(value, bits)
}

/// The number that starts the exponent `k + 1`, or the one `fraction` after it.
proof fn lemma_magnitude(k: nat, mantissa: nat)
    requires
        0x80_0000 <= mantissa <= 0x100_0000,
    ensures
        magnitude(k * 0x80_0000 + mantissa) == mantissa * pow2(k),
{
    let bits = k * 0x80_0000 + mantissa;
    if mantissa < 0x100_0000 {
        assert(bits / 0x80_0000 == k + 1);
        assert(bits % 0x80_0000 == mantissa - 0x80_0000);
        assert((0x80_0000 + bits % 0x80_0000) as nat == mantissa);
        assert((bits / 0x80_0000 - 1) as nat == k);
    } else {
        assert(bits / 0x80_0000 == k + 2);
        assert(bits % 0x80_0000 == 0);
        assert((bits / 0x80_0000 - 1) as nat == k + 1);
        lemma_pow2_unfold(k + 1);
        let fraction = bits % 0x80_0000;
        let p = pow2(k);
        let q = pow2(k + 1);
        assert((0x80_0000 + fraction) * q == mantissa * p) by (nonlinear_arith)
            requires
                fraction == 0,
                mantissa == 0x100_0000,
                q == 2 * p,
        ;
    }
}

/// Numbers grow with their bits.
pub proof fn lemma_magnitude_grows(a: nat, b: nat)
    requires
        a < b,
    ensures
        magnitude(a) < magnitude(b),
    decreases b,
{
    let c = (b - 1) as nat;
    if a < c {
        lemma_magnitude_grows(a, c);
    }
    let exponent = c / 0x80_0000;
    let fraction = c % 0x80_0000;
    if exponent > 0 {
        let k = (exponent - 1) as nat;
        let m = 0x80_0000 + fraction;
        assert(c == k * 0x80_0000 + m);
        lemma_magnitude(k, m);
        lemma_magnitude(k, m + 1);
        lemma_pow2_pos(k);
        lemma_mul_is_distributive_add_other_way(pow2(k) as int, m as int, 1);
        assert(magnitude(c) < magnitude(b));
    } else if b == 0x80_0000 {
        lemma2_to64();
        let fraction = b % 0x80_0000;
        let p = pow2(0);
        assert((0x80_0000 + fraction) * p == b) by (nonlinear_arith)
            requires
                fraction == 0,
                p == 1,
                b == 0x80_0000,
        ;
        assert((b / 0x80_0000 - 1) as nat == 0);
    }
}

/// The nearest number is one of the two that the target lies between.
proof fn lemma_nearest_of_two(value: nat, low: u32, bits: u32)
    requires
        low + 1 < INFINITY,
        magnitude(low as nat) <= value * pow2(149) < magnitude((low + 1) as nat),
        bits == low || bits == low + 1,
        ({
            let below = value * pow2(149) - magnitude(low as nat);
            let above = magnitude((low + 1) as nat) - value * pow2(149);
            &&& below < above ==> bits == low
            &&& above < below ==> bits == low + 1
            &&& below == above ==> bits % 2 == 0
        }),
    ensures
        is_nearest(value, bits),
{
    assert forall|other: u32|
        #![trigger magnitude(other as nat)]
        other < INFINITY implies {
        let target = value * pow2(149);
        let here = distance(magnitude(bits as nat), target);
        let there = distance(magnitude(other as nat), target);
        here < there || other == bits || (here == there && bits % 2 == 0)
    } by {
        if other < low {
            lemma_magnitude_grows(other as nat, low as nat);
        } else if other > low + 1 {
            lemma_magnitude_grows((low + 1) as nat, other as nat);
        }
    }
}

/// No number but one is nearest to `value`.
pub proof fn lemma_nearest_is_unique(value: nat, a: u32, b: u32)
    requires
        is_nearest(value, a),
        is_nearest(value, b),
    ensures
        a == b,
{
    let target = value * pow2(149);
    assert(distance(magnitude(a as nat), target) == distance(magnitude(b as nat), target) || a
        == b);
    if a < b {
        let c = (a + 1) as u32;
        lemma_magnitude_grows(a as nat, b as nat);
        lemma_magnitude_grows(a as nat, c as nat);
        lemma_magnitude_grows(c as nat, b as nat);
        assert(magnitude(c as nat) >= 0);
    } else if b < a {
        let c = (b + 1) as u32;
        lemma_magnitude_grows(b as nat, a as nat);
        lemma_magnitude_grows(b as nat, c as nat);
        lemma_magnitude_grows(c as nat, a as nat);
        assert(magnitude(c as nat) >= 0);
    }
}

/// A value whose binary digits fit a mantissa is stored as it is.
proof fn lemma_exact(value: nat, mantissa: nat, shift: nat, bits: u32)
    requires
        shift <= 149,
        0x80_0000 <= mantissa < 0x100_0000,
        mantissa == value * pow2(shift),
        bits == (149 - shift) * 0x80_0000 + mantissa,
    ensures
        magnitude(bits as nat) == value * pow2(149),
        is_nearest(value, bits),
{
    let k = (149 - shift) as nat;
    lemma_magnitude(k, mantissa);
    lemma_pow2_adds(shift, k);
    lemma_mul_is_associative(value as int, pow2(shift) as int, pow2(k) as int);
    assert(bits == k * 0x80_0000 + mantissa);
    lemma_magnitude_grows(bits as nat, (bits + 1) as nat);
    lemma_nearest_of_two(value, bits, bits);
}

/// A value with more binary digits than a mantissa holds is rounded by what is cut off.
proof fn lemma_rounded(value: nat, mantissa: nat, shift: nat, low: u32, bits: u32)
    requires
        0 < shift <= 41,
        0x80_0000 <= mantissa < 0x100_0000,
        mantissa * pow2(shift) <= value < (mantissa + 1) * pow2(shift),
        low == (149 + shift) * 0x80_0000 + mantissa,
        ({
            let cut = value - mantissa * pow2(shift);
            if 2 * cut < pow2(shift) || (2 * cut == pow2(shift) && low % 2 == 0) {
                bits == low
            } else {
                bits == low + 1
            }
        }),
    ensures
        is_nearest(value, bits),
{
    let k = 149 + shift;
    let ulp = pow2(shift) as int;
    let unit = pow2(149) as int;
    let cut = value - mantissa * ulp;
    lemma_magnitude(k, mantissa);
    lemma_magnitude(k, mantissa + 1);
    lemma_pow2_adds(shift, 149);
    lemma_pow2_pos(149);
    assert(pow2(k) == ulp * unit);
    assert(low + 1 == k * 0x80_0000 + (mantissa + 1));
    assert(mantissa * (ulp * unit) + cut * unit == value * unit) by (nonlinear_arith)
        requires
            cut == value - mantissa * ulp,
    ;
    assert((mantissa + 1) * (ulp * unit) - (ulp - cut) * unit == value * unit) by (nonlinear_arith)
        requires
            cut == value - mantissa * ulp,
    ;
    assert(cut < ulp) by (nonlinear_arith)
        requires
            cut == value - mantissa * ulp,
            value < (mantissa + 1) * ulp,
    ;
    assert(0 <= cut * unit && 0 < (ulp - cut) * unit) by (nonlinear_arith)
        requires
            0 <= cut < ulp,
            unit > 0,
    ;
    assert(2 * cut < ulp <==> cut * unit < (ulp - cut) * unit) by (nonlinear_arith)
        requires
            unit > 0,
    ;
    assert(2 * cut == ulp <==> cut * unit == (ulp - cut) * unit) by (nonlinear_arith)
        requires
            unit > 0,
    ;
    lemma_nearest_of_two(value, low, bits);
}

/// The number nearest to `value`, the one with its last bit zero where two are equally near: what a
/// conversion of an integer to a single-precision number gives.
pub fn from_integer(value: u64) -> (number: F32Bits)
    ensures
        is_nearest(value as nat, number.0),
        number.0 == nearest(value as nat),
{
    let bits: u32 = round(value);
    proof {
        lemma_nearest_is_unique(value as nat, bits, nearest(value as nat));
    }
    F32Bits(bits)
}

fn round(value: u64) -> (bits: u32)
    ensures
        is_nearest(value as nat, bits),
{
    proof {
        lemma2_to64();
    }
    if value == 0 {
        proof {
            assert(magnitude(0) == 0);
            assert(magnitude(1) == 1);
            lemma_nearest_of_two(0, 0, 0);
        }
        return 0;
    }
    let mut mantissa: u64 = value;
    if value < 0x100_0000 {
        let mut shift: u32 = 0;
        while mantissa < 0x80_0000
            invariant
                0 < mantissa < 0x100_0000,
                mantissa >= pow2(shift as nat),
                mantissa == value * pow2(shift as nat),
            decreases 0x100_0000 - mantissa,
        {
            proof {
                let p = pow2(shift as nat);
                lemma_pow2_unfold((shift + 1) as nat);
                assert(value * (2 * p) == 2 * (value * p)) by (nonlinear_arith);
                if shift >= 24 {
                    lemma2_to64();
                    lemma_pow2_adds(24, (shift - 24) as nat);
                    lemma_pow2_pos((shift - 24) as nat);
                    assert(0x100_0000 * pow2((shift - 24) as nat) >= 0x100_0000);
                }
            }
            mantissa = mantissa * 2;
            shift = shift + 1;
        }
        proof {
            lemma2_to64();
            if shift >= 24 {
                lemma_pow2_adds(24, (shift - 24) as nat);
                lemma_pow2_pos((shift - 24) as nat);
                assert(0x100_0000 * pow2((shift - 24) as nat) >= 0x100_0000);
            }
        }
        let bits: u32 = (149 - shift) * 0x80_0000 + mantissa as u32;
        proof {
            lemma_exact(value as nat, mantissa as nat, shift as nat, bits);
        }
        return bits;
    }
    let mut shift: u32 = 0;
    let mut ulp: u64 = 1;
    while mantissa >= 0x100_0000
        invariant
            mantissa >= 0x80_0000,
            mantissa >= 0x100_0000 || shift > 0,
            shift <= 41,
            ulp == pow2(shift as nat),
            mantissa * ulp <= value < (mantissa + 1) * ulp,
        decreases mantissa,
    {
        let half: u64 = mantissa / 2;
        proof {
            lemma_pow2_unfold((shift + 1) as nat);
            lemma_pow2_pos(shift as nat);
            assert(half * (2 * ulp) <= value && value < (half + 1) * (2 * ulp)) by (nonlinear_arith)
                requires
                    mantissa * ulp <= value < (mantissa + 1) * ulp,
                    half == mantissa / 2,
                    ulp >= 1,
            ;
            assert(ulp <= 0xff_ffff_ffff) by (nonlinear_arith)
                requires
                    mantissa * ulp <= value <= 0xffff_ffff_ffff_ffff,
                    mantissa >= 0x100_0000,
            ;
            if shift > 40 {
                lemma2_to64_rest();
                lemma_pow2_strictly_increases(40, shift as nat);
            }
        }
        mantissa = half;
        ulp = ulp * 2;
        shift = shift + 1;
    }
    assert(value - mantissa * ulp < ulp) by (nonlinear_arith)
        requires
            value < (mantissa + 1) * ulp,
    ;
    let cut: u64 = value - mantissa * ulp;
    let low: u32 = (149 + shift) * 0x80_0000 + mantissa as u32;
    let bits: u32 = if cut < ulp - cut || (cut == ulp - cut && mantissa % 2 == 0) {
        low
    } else {
        low + 1
    };
    proof {
        lemma_rounded(value as nat, mantissa as nat, shift as nat, low, bits);
    }
    bits
}

/// Finds the bits of a value that a mantissa can hold, by shifting it until it fills one.
proof fn lemma_fills_mantissa(value: nat, mantissa: nat, shift: nat) -> (bits: u32)
    requires
        0 < mantissa < 0x100_0000,
        pow2(shift) <= mantissa,
        mantissa == value * pow2(shift),
    ensures
        is_nearest(value, bits),
        magnitude(bits as nat) == value * pow2(149),
    decreases 0x100_0000 - mantissa,
{
    lemma2_to64();
    if shift >= 24 {
        lemma_pow2_adds(24, (shift - 24) as nat);
        lemma_pow2_pos((shift - 24) as nat);
        assert(0x100_0000 * pow2((shift - 24) as nat) >= 0x100_0000);
    }
    if mantissa < 0x80_0000 {
        let p = pow2(shift);
        lemma_pow2_unfold(shift + 1);
        assert(value * (2 * p) == 2 * (value * p)) by (nonlinear_arith);
        lemma_fills_mantissa(value, 2 * mantissa, shift + 1)
    } else {
        let bits = ((149 - shift) * 0x80_0000 + mantissa) as u32;
        lemma_exact(value, mantissa, shift, bits);
        bits
    }
}

/// Integers up to `2` to the power `24` are stored by value: no rounding takes place. Every byte and
/// every 16-bit integer is among them.
pub proof fn law_small_integers_are_exact(value: nat)
    requires
        value <= 0x100_0000,
    ensures
        is_nearest(value, nearest(value)),
        magnitude(nearest(value) as nat) == value * pow2(149),
{
    lemma2_to64();
    lemma_pow2_pos(149);
    let bits: u32;
    if value == 0 {
        bits = 0;
        assert(magnitude(0) == 0);
        assert(magnitude(1) == 1);
        lemma_nearest_of_two(0, 0, 0);
    } else if value == 0x100_0000 {
        bits = (151 * 0x80_0000) as u32;
        lemma_magnitude(150, 0x80_0000);
        lemma_pow2_unfold(150);
        lemma_magnitude_grows(bits as nat, (bits + 1) as nat);
        lemma_nearest_of_two(value, bits, bits);
    } else {
        bits = lemma_fills_mantissa(value, value, 0);
    }
    lemma_nearest_is_unique(value, bits, nearest(value));
}

/// Rounding keeps order: a greater integer never gives a lesser number.
pub proof fn law_rounding_keeps_order(a: nat, b: nat, x: u32, y: u32)
    requires
        a <= b,
        is_nearest(a, x),
        is_nearest(b, y),
    ensures
        x <= y,
        magnitude(x as nat) <= magnitude(y as nat),
{
    let unit = pow2(149);
    lemma_pow2_pos(149);
    assert(a * unit <= b * unit) by (nonlinear_arith)
        requires
            a <= b,
    ;
    assert(a * unit == b * unit ==> a == b) by (nonlinear_arith)
        requires
            unit > 0,
    ;
    if x > y {
        lemma_magnitude_grows(y as nat, x as nat);
        assert(distance(magnitude(x as nat), a * unit) <= distance(magnitude(y as nat), a * unit));
        assert(distance(magnitude(y as nat), b * unit) <= distance(magnitude(x as nat), b * unit));
        assert(a * unit == b * unit);
        lemma_nearest_is_unique(a, x, y);
    } else if x < y {
        lemma_magnitude_grows(x as nat, y as nat);
    }
}

/// An integer that is a number itself is not rounded, and one between two numbers that follow one
/// another is rounded to one of them.
pub proof fn law_rounding_stays_between_neighbours(value: nat, bits: u32, low: u32)
    requires
        is_nearest(value, bits),
        low + 1 < INFINITY,
        magnitude(low as nat) <= value * pow2(149) <= magnitude((low + 1) as nat),
    ensures
        bits == low || bits == low + 1,
        magnitude(low as nat) == value * pow2(149) ==> bits == low,
        magnitude((low + 1) as nat) == value * pow2(149) ==> bits == low + 1,
{
    let target = value * pow2(149);
    let high = (low + 1) as u32;
    lemma_magnitude_grows(low as nat, high as nat);
    assert(distance(magnitude(bits as nat), target) <= distance(magnitude(low as nat), target));
    assert(distance(magnitude(bits as nat), target) <= distance(magnitude(high as nat), target));
    if bits < low {
        lemma_magnitude_grows(bits as nat, low as nat);
    } else if bits > high {
        lemma_magnitude_grows(high as nat, bits as nat);
    }
}

} // verus!
