//! Single-precision arithmetic carried out on integers.
//!
//! A binary32 number has a significand of 24 bits. Any non-negative one is
//! therefore an integer with at most 24 significant bits, counted in some power
//! of two. Every single-precision sum, product or quotient is the exact result
//! rounded to such a number, to the nearest one and to the even one on a tie.
//! [`round`] is that rounding; the functions below it are the formulas of this
//! crate that are evaluated in single precision.

use vstd::prelude::*;

verus! {

/// The first integer with more than 24 significant bits.
pub const SIGNIFICAND_LIMIT: u128 = 0x100_0000;

/// The number 1, counted in units of 2^-64.
pub const ONE: u128 = 0x1_0000_0000_0000_0000;

/// The spacing of the binary32 numbers around `n`: the power of two by which `n`
/// has to be divided until at most 24 bits are left.
pub open spec fn spacing(n: nat) -> nat
    decreases n,
{
    if n < 0x100_0000 {
        1
    } else {
        2 * spacing(n / 2)
    }
}

/// `n` has at most 24 significant bits.
pub open spec fn representable(n: nat) -> bool {
    n % spacing(n) == 0
}

/// The binary32 number nearest to `n`; the one with the even significand on a tie.
pub open spec fn rounded(n: nat) -> nat {
    let unit = spacing(n);
    let significand = n / unit;
    let rest = n % unit;
    if 2 * rest < unit || (2 * rest == unit && significand % 2 == 0) {
        significand * unit
    } else {
        (significand + 1) * unit
    }
}

/// The binary32 number nearest to the quotient `a / b`, for a quotient of at least 2^24;
/// the one with the even significand on a tie.
pub open spec fn rounded_ratio(a: nat, b: nat) -> nat {
    let unit = spacing(a / b);
    let significand = a / (b * unit);
    let rest = a % (b * unit);
    if 2 * rest < b * unit || (2 * rest == b * unit && significand % 2 == 0) {
        significand * unit
    } else {
        (significand + 1) * unit
    }
}

/// The distance between two numbers.
pub open spec fn distance(a: nat, b: nat) -> nat {
    if a <= b {
        (b - a) as nat
    } else {
        (a - b) as nat
    }
}

/// A number of more than 24 bits has a significand of exactly 24 bits.
pub proof fn lemma_spacing_bounds(n: nat)
    ensures
        spacing(n) >= 1,
        n < spacing(n) * 0x100_0000,
        n >= 0x100_0000 ==> spacing(n) >= 2 && spacing(n) * 0x80_0000 <= n,
    decreases n,
{
    if n >= 0x100_0000 {
        lemma_spacing_bounds(n / 2);
    }
}

/// Numbers with the same leading bit have the same spacing.
pub proof fn lemma_same_spacing(n: nat, m: nat)
    requires
        n >= 0x100_0000,
        spacing(n) * 0x80_0000 <= m < spacing(n) * 0x100_0000,
    ensures
        m >= 0x100_0000,
        spacing(m) == spacing(n),
    decreases n,
{
    lemma_spacing_bounds(n / 2);
    if n / 2 < 0x100_0000 {
        assert(spacing(n) == 2);
        assert(spacing(m / 2) == 1);
    } else {
        lemma_same_spacing(n / 2, m / 2);
    }
}

/// The two candidates for the rounding of `n`: the neighbouring multiples of its spacing.
proof fn lemma_neighbours(n: nat)
    ensures
        (n / spacing(n)) * spacing(n) <= n < (n / spacing(n) + 1) * spacing(n),
        n == (n / spacing(n)) * spacing(n) + n % spacing(n),
        n % spacing(n) < spacing(n),
        (n / spacing(n) + 1) * spacing(n) == (n / spacing(n)) * spacing(n) + spacing(n),
        n / spacing(n) < 0x100_0000,
        n >= 0x100_0000 ==> n / spacing(n) >= 0x80_0000,
        rounded(n) == (n / spacing(n)) * spacing(n) || rounded(n) == (n / spacing(n) + 1)
            * spacing(n),
{
    lemma_spacing_bounds(n);
    let u = spacing(n);
    let q = n / u;
    vstd::arithmetic::div_mod::lemma_fundamental_div_mod(n as int, u as int);
    vstd::arithmetic::div_mod::lemma_mod_bound(n as int, u as int);
    assert(u * q == q * u) by (nonlinear_arith);
    assert((q + 1) * u == q * u + u) by (nonlinear_arith);
    assert(q < 0x100_0000) by (nonlinear_arith)
        requires
            q * u <= n,
            n < u * 0x100_0000,
            u >= 1,
    ;
    if n >= 0x100_0000 {
        assert(q >= 0x80_0000) by (nonlinear_arith)
            requires
                n < (q + 1) * u,
                u * 0x80_0000 <= n,
                u >= 1,
        ;
    }
}

/// Rounding gives a number with at most 24 significant bits.
pub proof fn law_rounding_is_representable(n: nat)
    ensures
        representable(rounded(n)),
{
    lemma_neighbours(n);
    lemma_spacing_bounds(n);
    let u = spacing(n);
    let q = n / u;
    let r = rounded(n);
    if n < 0x100_0000 {
        assert(u == 1);
        assert(q * 1 == n) by (nonlinear_arith)
            requires
                q == n,
        ;
    } else {
        let s = if r == q * u {
            q
        } else {
            (q + 1) as nat
        };
        assert(r == s * u);
        if s < 0x100_0000 {
            assert(u * 0x80_0000 <= r < u * 0x100_0000) by (nonlinear_arith)
                requires
                    r == s * u,
                    0x80_0000 <= s < 0x100_0000,
                    u >= 1,
            ;
            lemma_same_spacing(n, r);
            vstd::arithmetic::div_mod::lemma_mod_multiples_basic(s as int, u as int);
        } else {
            assert(r == 0x100_0000 * u);
            assert(spacing(2 * n) == 2 * u);
            lemma_same_spacing(2 * n, r);
            assert(r == 0x80_0000 * (2 * u));
            vstd::arithmetic::div_mod::lemma_mod_multiples_basic(0x80_0000, (2 * u) as int);
        }
    }
}

/// No number with at most 24 significant bits is nearer to `n` than the rounding of `n`.
pub proof fn law_rounding_is_nearest(n: nat, m: nat)
    requires
        representable(m),
    ensures
        distance(n, rounded(n)) <= distance(n, m),
{
    lemma_neighbours(n);
    lemma_spacing_bounds(n);
    lemma_spacing_bounds(m);
    let u = spacing(n);
    let q = n / u;
    let low = q * u;
    let high = (q + 1) * u;
    if low < m < high {
        if n < 0x100_0000 {
            assert(u == 1);
            assert(false);
        } else {
            assert(low >= u * 0x80_0000) by (nonlinear_arith)
                requires
                    low == q * u,
                    q >= 0x80_0000,
                    u >= 1,
            ;
            let j = m / spacing(m);
            vstd::arithmetic::div_mod::lemma_fundamental_div_mod(m as int, spacing(m) as int);
            assert(high <= u * 0x100_0000) by (nonlinear_arith)
                requires
                    high == (q + 1) * u,
                    q < 0x100_0000,
                    u >= 1,
            ;
            lemma_same_spacing(n, m);
            assert(m == u * j);
            assert(false) by (nonlinear_arith)
                requires
                    m == u * j,
                    q * u < m < (q + 1) * u,
                    u >= 1,
            ;
        }
    }
}

/// No number with at most 24 significant bits lies between the neighbouring multiples of the
/// spacing of `n`.
pub proof fn law_no_number_between_neighbours(n: nat, m: nat)
    requires
        representable(m),
    ensures
        m <= (n / spacing(n)) * spacing(n) || m >= (n / spacing(n) + 1) * spacing(n),
{
    lemma_neighbours(n);
    lemma_spacing_bounds(n);
    lemma_spacing_bounds(m);
    let u = spacing(n);
    let q = n / u;
    let low = q * u;
    let high = (q + 1) * u;
    if low < m < high {
        if n < 0x100_0000 {
            assert(u == 1);
        } else {
            assert(low >= u * 0x80_0000) by (nonlinear_arith)
                requires
                    low == q * u,
                    q >= 0x80_0000,
                    u >= 1,
            ;
            let j = m / spacing(m);
            vstd::arithmetic::div_mod::lemma_fundamental_div_mod(m as int, spacing(m) as int);
            assert(high <= u * 0x100_0000) by (nonlinear_arith)
                requires
                    high == (q + 1) * u,
                    q < 0x100_0000,
                    u >= 1,
            ;
            lemma_same_spacing(n, m);
            assert(false) by (nonlinear_arith)
                requires
                    m == u * j,
                    q * u < m < (q + 1) * u,
                    u >= 1,
            ;
        }
    }
}

/// A number with at most 24 significant bits keeps that property when it is doubled `k` times.
pub proof fn lemma_doubled_is_representable(n: nat, k: nat)
    requires
        representable(n),
    ensures
        representable(n * vstd::arithmetic::power2::pow2(k)),
    decreases k,
{
    if k == 0 {
        vstd::arithmetic::power2::lemma2_to64();
        assert(n * 1 == n) by (nonlinear_arith);
    } else {
        let half = n * vstd::arithmetic::power2::pow2((k - 1) as nat);
        let full = n * vstd::arithmetic::power2::pow2(k);
        lemma_doubled_is_representable(n, (k - 1) as nat);
        vstd::arithmetic::power2::lemma_pow2_unfold(k);
        assert(full == 2 * half) by (nonlinear_arith)
            requires
                full == n * vstd::arithmetic::power2::pow2(k),
                half == n * vstd::arithmetic::power2::pow2((k - 1) as nat),
                vstd::arithmetic::power2::pow2(k) == 2 * vstd::arithmetic::power2::pow2(
                    (k - 1) as nat,
                ),
        ;
        if full >= 0x100_0000 {
            let u = spacing(half);
            lemma_spacing_bounds(half);
            assert(full / 2 == half);
            assert(spacing(full) == 2 * u);
            vstd::arithmetic::div_mod::lemma_fundamental_div_mod(half as int, u as int);
            let j = half / u;
            assert(full == j * (2 * u)) by (nonlinear_arith)
                requires
                    full == 2 * half,
                    half == u * j,
            ;
            vstd::arithmetic::div_mod::lemma_mod_multiples_basic(j as int, (2 * u) as int);
        }
    }
}

/// Of the binary32 numbers none is nearer to the quotient `a / b` than its rounding: the
/// distances are compared after multiplication with `b`.
pub proof fn law_ratio_rounding_is_nearest(a: nat, b: nat, m: nat)
    requires
        b > 0,
        representable(m),
    ensures
        distance(a, b * rounded_ratio(a, b)) <= distance(a, b * m),
{
    let n = a / b;
    lemma_neighbours(n);
    lemma_spacing_bounds(n);
    lemma_spacing_bounds(m);
    let u = spacing(n);
    let q = n / u;
    vstd::arithmetic::div_mod::lemma_div_denominator(a as int, b as int, u as int);
    assert(b * u > 0) by (nonlinear_arith)
        requires
            b > 0,
            u >= 1,
    ;
    vstd::arithmetic::div_mod::lemma_fundamental_div_mod(a as int, (b * u) as int);
    vstd::arithmetic::div_mod::lemma_mod_bound(a as int, (b * u) as int);
    let low = q * u;
    let high = (q + 1) * u;
    assert((b * u) * q == b * low) by (nonlinear_arith)
        requires
            low == q * u,
    ;
    assert(b * high == b * low + b * u) by (nonlinear_arith)
        requires
            high == q * u + u,
            low == q * u,
    ;
    assert(m <= low || m >= high) by {
        if low < m < high {
            if n >= 0x100_0000 {
                assert(low >= u * 0x80_0000) by (nonlinear_arith)
                    requires
                        low == q * u,
                        q >= 0x80_0000,
                        u >= 1,
                ;
                assert(high <= u * 0x100_0000) by (nonlinear_arith)
                    requires
                        high == (q + 1) * u,
                        q < 0x100_0000,
                        u >= 1,
                ;
                let j = m / spacing(m);
                vstd::arithmetic::div_mod::lemma_fundamental_div_mod(m as int, spacing(m) as int);
                lemma_same_spacing(n, m);
                assert(false) by (nonlinear_arith)
                    requires
                        m == u * j,
                        q * u < m < (q + 1) * u,
                        u >= 1,
                ;
            }
        }
    }
    if m <= low {
        assert(b * m <= b * low) by (nonlinear_arith)
            requires
                m <= low,
        ;
    } else {
        assert(b * m >= b * high) by (nonlinear_arith)
            requires
                m >= high,
        ;
    }
}

/// A number with at most 24 significant bits is left as it is.
pub proof fn law_rounding_keeps_representable(n: nat)
    requires
        representable(n),
    ensures
        rounded(n) == n,
{
    lemma_neighbours(n);
    lemma_spacing_bounds(n);
}

/// Rounding keeps the order of numbers.
pub proof fn law_rounding_is_monotone(a: nat, b: nat)
    requires
        a <= b,
    ensures
        rounded(a) <= rounded(b),
{
    law_rounding_is_representable(a);
    law_rounding_is_representable(b);
    law_rounding_is_nearest(a, rounded(b));
    law_rounding_is_nearest(b, rounded(a));
}

/// A number with at most 24 significant bits that is large enough can be halved `k` times, and
/// nothing is cut off.
pub proof fn lemma_halved(n: nat, k: nat)
    requires
        representable(n),
        n >= 0x80_0000 * vstd::arithmetic::power2::pow2(k),
    ensures
        n % vstd::arithmetic::power2::pow2(k) == 0,
        representable(n / vstd::arithmetic::power2::pow2(k)),
    decreases k,
{
    let p = vstd::arithmetic::power2::pow2(k);
    vstd::arithmetic::power2::lemma2_to64();
    if k == 0 {
        assert(n / 1 == n);
    } else {
        let h = (k - 1) as nat;
        let q = vstd::arithmetic::power2::pow2(h);
        vstd::arithmetic::power2::lemma_pow2_unfold(k);
        vstd::arithmetic::power2::lemma_pow2_pos(h);
        assert(p == 2 * q);
        lemma_spacing_bounds(n);
        assert(n >= 0x100_0000);
        let u = spacing(n / 2);
        let j = n / spacing(n);
        lemma_spacing_bounds(n / 2);
        vstd::arithmetic::div_mod::lemma_fundamental_div_mod(n as int, spacing(n) as int);
        assert(n == 2 * (u * j)) by (nonlinear_arith)
            requires
                n == (2 * u) * j,
        ;
        assert(n / 2 == j * u) by (nonlinear_arith)
            requires
                n == 2 * (u * j),
        ;
        vstd::arithmetic::div_mod::lemma_mod_multiples_basic(j as int, u as int);
        lemma_halved(n / 2, h);
        vstd::arithmetic::div_mod::lemma_div_denominator(n as int, 2, q as int);
        vstd::arithmetic::div_mod::lemma_fundamental_div_mod((n / 2) as int, q as int);
        let m = (n / 2) / q;
        assert(n == p * m) by (nonlinear_arith)
            requires
                n == 2 * (n / 2),
                n / 2 == q * m,
                p == 2 * q,
        ;
        assert(p * m == m * p) by (nonlinear_arith);
        vstd::arithmetic::div_mod::lemma_mod_multiples_basic(m as int, p as int);
    }
}

/// Rounding goes by the significant bits alone: a number that is doubled `k` times is rounded to
/// what its rounding becomes.
pub proof fn lemma_rounded_scaled(n: nat, k: nat)
    ensures
        rounded(n * vstd::arithmetic::power2::pow2(k)) == rounded(n)
            * vstd::arithmetic::power2::pow2(k),
    decreases k,
{
    let p = vstd::arithmetic::power2::pow2(k);
    if n < 0x100_0000 {
        assert(spacing(n) == 1);
        law_rounding_keeps_representable(n);
        lemma_doubled_is_representable(n, k);
        law_rounding_keeps_representable(n * p);
    } else if k == 0 {
        vstd::arithmetic::power2::lemma2_to64();
        assert(n * 1 == n && rounded(n) * 1 == rounded(n)) by (nonlinear_arith);
    } else {
        let q = vstd::arithmetic::power2::pow2((k - 1) as nat);
        let m = n * q;
        vstd::arithmetic::power2::lemma_pow2_unfold(k);
        vstd::arithmetic::power2::lemma_pow2_pos((k - 1) as nat);
        lemma_rounded_scaled(n, (k - 1) as nat);
        assert(n * p == 2 * m && rounded(n) * p == 2 * (rounded(n) * q)) by (nonlinear_arith)
            requires
                p == 2 * q,
                m == n * q,
        ;
        assert(m >= 0x100_0000) by (nonlinear_arith)
            requires
                m == n * q,
                n >= 0x100_0000,
                q >= 1,
        ;
        let u = spacing(m);
        lemma_neighbours(m);
        lemma_spacing_bounds(m);
        assert((2 * m) / 2 == m);
        assert(spacing(2 * m) == 2 * u);
        let significand = m / u;
        let rest = m % u;
        assert(significand * (2 * u) == 2 * (significand * u) && (significand + 1) * (2 * u) == 2 * ((
        significand + 1) * u)) by (nonlinear_arith);
        vstd::arithmetic::div_mod::lemma_fundamental_div_mod_converse(
            (2 * m) as int,
            (2 * u) as int,
            significand as int,
            (2 * rest) as int,
        );
    }
}

/// What is small beside the spacing of a number with at most 24 significant bits is lost when it
/// is added to that number, or taken from it.
pub proof fn lemma_small_is_lost(n: nat, k: nat, small: int)
    requires
        representable(n),
        k > 0,
        n >= 0x80_0000 * vstd::arithmetic::power2::pow2(k),
        -vstd::arithmetic::power2::pow2(k) < 4 * small < vstd::arithmetic::power2::pow2(k),
    ensures
        n + small >= 0,
        rounded((n + small) as nat) == n,
{
    let h = (k - 1) as nat;
    let p = vstd::arithmetic::power2::pow2(h);
    vstd::arithmetic::power2::lemma_pow2_unfold(k);
    vstd::arithmetic::power2::lemma_pow2_pos(h);
    let m = (n + small) as nat;
    let r = rounded(m);
    law_rounding_is_representable(m);
    law_rounding_is_nearest(m, n);
    lemma_halved(r, h);
    lemma_halved(n, h);
    vstd::arithmetic::div_mod::lemma_fundamental_div_mod(r as int, p as int);
    vstd::arithmetic::div_mod::lemma_fundamental_div_mod(n as int, p as int);
    let i = r / p;
    let j = n / p;
    assert(i == j) by (nonlinear_arith)
        requires
            r == p * i,
            n == p * j,
            -p < r - n < p,
            p > 0,
    ;
}

/// Rounds to the nearest number with at most 24 significant bits, ties to even.
pub fn round(n: u128) -> (r: u128)
    requires
        n < 0x8000_0000_0000_0000_0000_0000_0000_0000,
    ensures
        r == rounded(n as nat),
        r <= 2 * n,
{
    let mut significand: u128 = n;
    let mut unit: u128 = 1;
    while significand >= SIGNIFICAND_LIMIT
        invariant
            n < 0x8000_0000_0000_0000_0000_0000_0000_0000,
            unit >= 1,
            significand == n as nat / unit as nat,
            significand * unit <= n,
            spacing(n as nat) == unit * spacing(significand as nat),
        decreases significand,
    {
        let ghost before: u128 = significand;
        let ghost unit_before: u128 = unit;
        proof {
            vstd::arithmetic::div_mod::lemma_div_denominator(n as int, unit as int, 2);
            assert(unit * 2 <= n) by (nonlinear_arith)
                requires
                    significand * unit <= n,
                    significand >= 0x100_0000,
                    unit >= 1,
            ;
        }
        significand = significand / 2;
        unit = unit * 2;
        proof {
            assert(significand * unit <= n) by (nonlinear_arith)
                requires
                    significand == before / 2,
                    unit == unit_before * 2,
                    before * unit_before <= n,
                    unit_before >= 1,
            ;
            assert(unit_before * (2 * spacing(significand as nat)) == unit * spacing(
                significand as nat,
            )) by (nonlinear_arith)
                requires
                    unit == unit_before * 2,
            ;
        }
    }
    proof {
        lemma_neighbours(n as nat);
        lemma_spacing_bounds(n as nat);
        assert(spacing(significand as nat) == 1);
        assert(unit * 1 == unit) by (nonlinear_arith);
    }
    let whole: u128 = significand * unit;
    let rest: u128 = n - whole;
    if 2 * rest < unit || (2 * rest == unit && significand % 2 == 0) {
        whole
    } else {
        whole + unit
    }
}

/// Rounds the quotient `a / b` to the nearest number with at most 24 significant bits, ties to
/// even.
pub fn round_ratio(a: u128, b: u128) -> (r: u128)
    requires
        0 < b,
        a < 0x4000_0000_0000_0000_0000_0000_0000_0000,
        b <= a,
    ensures
        r == rounded_ratio(a as nat, b as nat),
        r * b <= 2 * a,
{
    let mut rest_of_quotient: u128 = a / b;
    let mut unit: u128 = 1;
    proof {
        assert(b * (a as nat / b as nat) <= a) by {
            vstd::arithmetic::div_mod::lemma_fundamental_div_mod(a as int, b as int);
        }
        vstd::arithmetic::div_mod::lemma_div_by_multiple((a / b) as int, 1);
        assert((a / b) * 1 == (a / b)) by (nonlinear_arith);
        assert(b * 1 == b) by (nonlinear_arith);
    }
    while rest_of_quotient >= SIGNIFICAND_LIMIT
        invariant
            0 < b,
            a < 0x4000_0000_0000_0000_0000_0000_0000_0000,
            b <= a,
            unit >= 1,
            b * (a as nat / b as nat) <= a,
            b * unit <= a,
            rest_of_quotient == (a as nat / b as nat) / unit as nat,
            rest_of_quotient * unit <= a as nat / b as nat,
            spacing(a as nat / b as nat) == unit * spacing(rest_of_quotient as nat),
        decreases rest_of_quotient,
    {
        let ghost before: u128 = rest_of_quotient;
        let ghost unit_before: u128 = unit;
        let ghost n = a as nat / b as nat;
        proof {
            vstd::arithmetic::div_mod::lemma_div_denominator(n as int, unit as int, 2);
            assert(unit * 2 <= n) by (nonlinear_arith)
                requires
                    rest_of_quotient * unit <= n,
                    rest_of_quotient >= 0x100_0000,
                    unit >= 1,
            ;
            assert(n <= a && b * (unit * 2) <= a) by (nonlinear_arith)
                requires
                    b * n <= a,
                    b >= 1,
                    unit * 2 <= n,
            ;
        }
        rest_of_quotient = rest_of_quotient / 2;
        unit = unit * 2;
        proof {
            assert(rest_of_quotient * unit <= n) by (nonlinear_arith)
                requires
                    rest_of_quotient == before / 2,
                    unit == unit_before * 2,
                    before * unit_before <= n,
                    unit_before >= 1,
            ;
            assert(unit_before * (2 * spacing(rest_of_quotient as nat)) == unit * spacing(
                rest_of_quotient as nat,
            )) by (nonlinear_arith)
                requires
                    unit == unit_before * 2,
            ;
        }
    }
    let step: u128 = b * unit;
    proof {
        assert(step > 0) by (nonlinear_arith)
            requires
                step == b * unit,
                b >= 1,
                unit >= 1,
        ;
    }
    let significand: u128 = a / step;
    let rest: u128 = a % step;
    proof {
        assert(spacing(rest_of_quotient as nat) == 1);
        assert(unit * 1 == unit) by (nonlinear_arith);
        vstd::arithmetic::div_mod::lemma_fundamental_div_mod(a as int, step as int);
        assert(significand * unit * b <= a) by (nonlinear_arith)
            requires
                a == step * significand + rest,
                step == b * unit,
                rest >= 0,
        ;
        assert(significand * unit <= a) by (nonlinear_arith)
            requires
                significand * unit * b <= a,
                b >= 1,
        ;
        assert((significand + 1) * unit == significand * unit + unit) by (nonlinear_arith);
        assert((significand * unit + unit) * b <= 2 * a) by (nonlinear_arith)
            requires
                significand * unit * b <= a,
                b * unit <= a,
        ;
        assert(unit <= a) by (nonlinear_arith)
            requires
                b * unit <= a,
                b >= 1,
        ;
    }
    if 2 * rest < step || (2 * rest == step && significand % 2 == 0) {
        significand * unit
    } else {
        significand * unit + unit
    }
}

} // verus!
