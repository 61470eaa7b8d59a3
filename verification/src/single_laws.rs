//! What holds of numbers in single precision.

use crate::binary32::{
    distance, law_rounding_is_nearest, law_rounding_is_representable, lemma_doubled_is_representable,
    lemma_spacing_bounds, representable, rounded, spacing,
};
use crate::single::{is_nan, magnitude_of, nearest, value_of_bits};
use vstd::arithmetic::power2::{lemma2_to64, lemma_pow2_pos, lemma_pow2_unfold, pow2};
use vstd::prelude::*;

verus! {

/// The spacing is a power of two.
proof fn lemma_spacing_is_power(n: nat) -> (k: nat)
    ensures
        spacing(n) == pow2(k),
    decreases n,
{
    if n < 0x100_0000 {
        lemma2_to64();
        0
    } else {
        let k = lemma_spacing_is_power(n / 2);
        lemma_pow2_unfold(k + 1);
        k + 1
    }
}

/// A number can be represented exactly where it is a significand of at most 24 bits, doubled some
/// number of times.
pub proof fn law_what_can_be_represented(n: nat)
    ensures
        representable(n) <==> exists|significand: nat, k: nat|
            significand < 0x100_0000 && n == #[trigger] (significand * pow2(k)),
{
    if representable(n) {
        let k = lemma_spacing_is_power(n);
        let u = spacing(n);
        lemma_spacing_bounds(n);
        vstd::arithmetic::div_mod::lemma_fundamental_div_mod(n as int, u as int);
        let q = n / u;
        assert(q < 0x100_0000) by (nonlinear_arith)
            requires
                n == u * q,
                n < u * 0x100_0000,
                u >= 1,
        ;
        assert(n == q * pow2(k)) by (nonlinear_arith)
            requires
                n == u * q,
                u == pow2(k),
        ;
    }
    if exists|significand: nat, k: nat|
        significand < 0x100_0000 && n == #[trigger] (significand * pow2(k)) {
        let (significand, k) = choose|significand: nat, k: nat|
            significand < 0x100_0000 && n == #[trigger] (significand * pow2(k));
        assert(spacing(significand) == 1);
        lemma_doubled_is_representable(significand, k);
    }
}

/// Of the numbers that can be represented none is nearer than the one that a number is rounded to,
/// and on a tie its significand is even. What lies below 0 is rounded like what lies above.
pub proof fn law_nearest_is_nearest(n: int, other: int)
    requires
        representable(magnitude_of(other)),
    ensures
        representable(magnitude_of(nearest(n))),
        -magnitude_of(n - other) <= n - nearest(n) <= magnitude_of(n - other),
        nearest(-n) == -nearest(n),
        n >= 0 && other >= 0 && other != nearest(n) && magnitude_of(n - other) == magnitude_of(
            n - nearest(n),
        ) ==> (nearest(n) as nat / spacing(n as nat)) % 2 == 0,
{
    let m = magnitude_of(n);
    let r = rounded(m);
    law_rounding_is_representable(m);
    lemma_spacing_bounds(m);
    let u = spacing(m);
    let q = m / u;
    vstd::arithmetic::div_mod::lemma_fundamental_div_mod(m as int, u as int);
    vstd::arithmetic::div_mod::lemma_mod_bound(m as int, u as int);
    assert(q * u == u * q && (q + 1) * u == q * u + u) by (nonlinear_arith);
    assert(representable(0)) by {
        assert(spacing(0) == 1);
    }
    law_rounding_is_nearest(m, 0);
    law_rounding_is_nearest(m, magnitude_of(other));
    if n >= 0 && other >= 0 && other != r && distance(m, other as nat) == distance(m, r) {
        lemma_tie(m, other as nat);
        vstd::arithmetic::div_mod::lemma_div_multiples_vanish(q as int, u as int);
        vstd::arithmetic::div_mod::lemma_div_multiples_vanish((q + 1) as int, u as int);
    }
}

/// On a tie between two numbers they are the two neighbours, and the rest is half of the spacing.
proof fn lemma_tie(n: nat, other: nat)
    requires
        representable(other),
        other != rounded(n),
        distance(n, other) == distance(n, rounded(n)),
    ensures
        2 * (n % spacing(n)) == spacing(n),
{
    let u = spacing(n);
    let q = n / u;
    lemma_spacing_bounds(n);
    vstd::arithmetic::div_mod::lemma_fundamental_div_mod(n as int, u as int);
    vstd::arithmetic::div_mod::lemma_mod_bound(n as int, u as int);
    assert(q * u == u * q && (q + 1) * u == q * u + u) by (nonlinear_arith);
    let rest = n % u;
    let low = q * u;
    let high = (q + 1) * u;
    crate::binary32::law_no_number_between_neighbours(n, other);
}

/// A pattern of bits is its sign before that of its magnitude.
pub proof fn law_first_bit_is_the_sign(bits: u32)
    requires
        bits < 0x8000_0000,
    ensures
        value_of_bits(bits) >= 0,
        value_of_bits((bits + 0x8000_0000) as u32) == -value_of_bits(bits),
        is_nan((bits + 0x8000_0000) as u32) == is_nan(bits),
{
    let low = bits;
    let high = (bits + 0x8000_0000) as u32;
    assert(high / 0x80_0000 == bits / 0x80_0000 + 256);
    assert(high % 0x80_0000 == bits % 0x80_0000);
    assert((bits / 0x80_0000 + 256) % 256 == (bits / 0x80_0000) % 256);
}

/// Larger patterns stand for larger numbers; the smallest stands for 0, the next for 2^-149, and
/// that of an exponent of 127 for 1.
pub proof fn law_patterns_are_ordered(bits: u32)
    requires
        bits < 0x7f80_0000,
    ensures
        value_of_bits(bits) < value_of_bits((bits + 1) as u32),
        value_of_bits(0) == 0,
        value_of_bits(1) == 1,
        value_of_bits(0x3f80_0000) == pow2(149),
        value_of_bits(0x7f80_0000) == pow2(277),
        0x80_0000 <= bits < 0x7f00_0000 ==> value_of_bits((bits + 0x80_0000) as u32) == 2
            * value_of_bits(bits),
        !is_nan(bits),
{
    lemma2_to64();
    vstd::arithmetic::power2::lemma_pow2_adds(23, 126);
    vstd::arithmetic::power2::lemma_pow2_adds(23, 254);
    let next = (bits + 1) as u32;
    let e = bits / 0x80_0000;
    let f = bits % 0x80_0000;
    assert(e < 256 && e % 256 == e);
    if f + 1 < 0x80_0000 {
        assert(next / 0x80_0000 == e && next % 0x80_0000 == f + 1);
        if e > 0 {
            let p = pow2((e - 1) as nat);
            lemma_pow2_pos((e - 1) as nat);
            assert(value_of_bits(bits) == (0x80_0000 + f) as nat * p);
            assert(value_of_bits(next) == (0x80_0000 + (f + 1)) as nat * p);
            assert((0x80_0000 + f) * p < (0x80_0000 + f + 1) * p) by (nonlinear_arith)
                requires
                    p > 0,
            ;
        }
    } else {
        assert(next / 0x80_0000 == e + 1 && next % 0x80_0000 == 0);
        assert((e + 1) % 256 == e + 1);
        assert(value_of_bits(next) == (0x80_0000 + 0) as nat * pow2(e as nat));
        if e > 0 {
            assert(value_of_bits(bits) == (0x80_0000 + f) as nat * pow2((e - 1) as nat));
            let p = pow2((e - 1) as nat);
            lemma_pow2_pos((e - 1) as nat);
            lemma_pow2_unfold(e as nat);
            assert((0x80_0000 + f) * p < 0x80_0000 * (2 * p)) by (nonlinear_arith)
                requires
                    p > 0,
                    f < 0x80_0000,
            ;
        }
    }
    if 0x80_0000 <= bits < 0x7f00_0000 {
        let doubled = (bits + 0x80_0000) as u32;
        assert(doubled / 0x80_0000 == e + 1 && doubled % 0x80_0000 == f);
        assert((e + 1) % 256 == e + 1);
        lemma_pow2_unfold(e as nat);
        let p = pow2((e - 1) as nat);
        assert((0x80_0000 + f) * (2 * p) == 2 * ((0x80_0000 + f) * p)) by (nonlinear_arith);
    }
}

} // verus!
