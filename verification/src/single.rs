//! Numbers in single precision, held as integers.

use crate::binary32::{
    lemma_doubled_is_representable, lemma_halved, lemma_rounded_scaled, lemma_small_is_lost,
    law_rounding_is_representable, law_rounding_keeps_representable, representable, round, rounded,
    spacing,
};
use vstd::arithmetic::power2::{
    lemma2_to64, lemma_pow2_adds, lemma_pow2_pos, lemma_pow2_strictly_increases, lemma_pow2_unfold,
    pow2,
};
use vstd::prelude::*;

verus! {

/// A number in single precision that is one: not NaN. Its magnitude is the significand, doubled
/// as often as the exponent says, in units of 2^-149.
#[derive(Debug, Clone, Copy, PartialEq, Eq, Structural)]
pub struct Single {
    negative: bool,
    significand: u32,
    exponent: u32,
}

/// The number, in units of 2^-149: every finite number in single precision is a whole one. An
/// infinite one counts as the first that is too large.
impl View for Single {
    type V = int;

    closed spec fn view(&self) -> int {
        if self.negative {
            -self.magnitude()
        } else {
            self.magnitude() as int
        }
    }
}

/// The number 1, in units of 2^-149.
pub open spec fn one() -> nat {
    pow2(149)
}

/// One half, in units of 2^-149.
pub open spec fn half() -> nat {
    pow2(148)
}

/// What stands for infinity, in units of 2^-149.
pub open spec fn infinity() -> nat {
    pow2(277)
}

/// The number in single precision that is nearest to `n`; the one with the even significand on a
/// tie.
pub open spec fn nearest(n: int) -> int {
    if n >= 0 {
        rounded(n as nat) as int
    } else {
        -rounded((-n) as nat)
    }
}

pub open spec fn magnitude_of(n: int) -> nat {
    if n >= 0 {
        n as nat
    } else {
        (-n) as nat
    }
}

/// The values that numbers in single precision have.
pub open spec fn is_single(n: int) -> bool {
    representable(magnitude_of(n)) && magnitude_of(n) <= infinity()
}

/// The pattern of bits is not that of a number.
pub open spec fn is_nan(bits: u32) -> bool {
    bits / 0x80_0000 % 256 == 255 && bits % 0x80_0000 != 0
}

/// The magnitude of the number with a pattern of bits: 23 bits of the significand, whose leading
/// bit is left out where it is set, below 8 bits of the exponent.
pub open spec fn magnitude_of_bits(bits: u32) -> nat {
    let exponent = bits / 0x80_0000 % 256;
    let fraction = bits % 0x80_0000;
    if exponent == 0 {
        fraction as nat
    } else {
        (0x80_0000 + fraction) as nat * pow2((exponent - 1) as nat)
    }
}

/// The number with a pattern of bits; the first bit is its sign.
pub open spec fn value_of_bits(bits: u32) -> int {
    if bits >= 0x8000_0000 {
        -magnitude_of_bits(bits)
    } else {
        magnitude_of_bits(bits) as int
    }
}

impl Single {
    spec fn magnitude(&self) -> nat {
        self.significand as nat * pow2(self.exponent as nat)
    }

    /// The leading bit of the significand is set, unless the number is too small for that.
    pub closed spec fn well_formed(&self) -> bool {
        &&& self.significand < 0x100_0000
        &&& self.exponent > 0 ==> self.significand >= 0x80_0000
        &&& self.exponent <= 254
        &&& self.exponent == 254 ==> self.significand == 0x80_0000
    }

    /// The value is that of a number in single precision.
    pub proof fn lemma_is_single(&self)
        requires
            self.well_formed(),
        ensures
            is_single(self@),
    {
        lemma2_to64();
        lemma_pow2_pos(self.exponent as nat);
        assert(spacing(self.significand as nat) == 1);
        lemma_doubled_is_representable(self.significand as nat, self.exponent as nat);
        lemma_pow2_adds(23, 254);
        let p = pow2(self.exponent as nat);
        let m = self.significand as nat;
        if self.exponent < 254 {
            lemma_pow2_adds(24, 253);
            if self.exponent < 253 {
                lemma_pow2_strictly_increases(self.exponent as nat, 253);
            }
            let q = pow2(253);
            assert(m * p <= 0x100_0000 * q) by (nonlinear_arith)
                requires
                    m < 0x100_0000,
                    p <= q,
            ;
        }
        assert(m * p >= 0) by (nonlinear_arith);
    }

    /// The number with a pattern of bits, if it is that of a number.
    pub fn from_bits(bits: u32) -> (res: Option<Self>)
        ensures
            res is None == is_nan(bits),
            res matches Some(number) ==> number.well_formed() && number@ == value_of_bits(bits),
    {
        let exponent: u32 = bits / 0x80_0000 % 256;
        let fraction: u32 = bits % 0x80_0000;
        let negative = bits >= 0x8000_0000;
        if exponent == 255 && fraction != 0 {
            return None;
        }
        if exponent == 0 {
            proof {
                lemma2_to64();
                assert(fraction as nat * 1 == fraction) by (nonlinear_arith);
            }
            Some(Single { negative, significand: fraction, exponent: 0 })
        } else {
            Some(Single { negative, significand: 0x80_0000 + fraction, exponent: exponent - 1 })
        }
    }

    /// The pattern of bits of the number.
    pub fn to_bits(&self) -> (res: u32)
        requires
            self.well_formed(),
        ensures
            !is_nan(res),
            value_of_bits(res) == self@,
    {
        let (exponent, fraction): (u32, u32) = if self.significand >= 0x80_0000 {
            (self.exponent + 1, self.significand - 0x80_0000)
        } else {
            (0, self.significand)
        };
        let sign: u32 = if self.negative {
            256
        } else {
            0
        };
        let high: u32 = sign + exponent;
        let bits: u32 = high * 0x80_0000 + fraction;
        proof {
            lemma2_to64();
            assert(self.significand as nat * 1 == self.significand) by (nonlinear_arith);
            vstd::arithmetic::div_mod::lemma_fundamental_div_mod_converse(
                bits as int,
                0x80_0000,
                high as int,
                fraction as int,
            );
            assert(high % 256 == exponent);
        }
        bits
    }

    /// The number `r`, doubled as often as `exponent` says.
    fn normalized(negative: bool, r: u128, exponent: u32) -> (res: Self)
        requires
            representable(r as nat),
            r < 0x100_0000_0000_0000_0000_0000_0000_0000,
            exponent < 0x1_0000,
            r as nat * pow2(exponent as nat) < infinity(),
        ensures
            res.well_formed(),
            res@ == if negative {
                -(r as nat * pow2(exponent as nat))
            } else {
                (r as nat * pow2(exponent as nat)) as int
            },
    {
        let ghost value = r as nat * pow2(exponent as nat);
        let mut significand: u128 = r;
        let mut e: u32 = exponent;
        while significand >= 0x100_0000
            invariant
                representable(significand as nat),
                significand as nat * pow2(e as nat) == value,
                value < infinity(),
                e < 0x2_0000,
            decreases significand,
        {
            proof {
                lemma2_to64();
                lemma_halved(significand as nat, 1);
                lemma_pow2_unfold((e + 1) as nat);
                let s = significand as nat;
                let p = pow2(e as nat);
                assert((s / 2) * (2 * p) == value) by (nonlinear_arith)
                    requires
                        s == 2 * (s / 2),
                        s * p == value,
                ;
                lemma_exponent(s, e as nat);
            }
            significand = significand / 2;
            e = e + 1;
        }
        while significand < 0x80_0000 && e > 0
            invariant
                significand < 0x100_0000,
                significand as nat * pow2(e as nat) == value,
                value < infinity(),
            decreases e,
        {
            proof {
                lemma_pow2_unfold(e as nat);
                let s = significand as nat;
                let p = pow2((e - 1) as nat);
                assert((2 * s) * p == value) by (nonlinear_arith)
                    requires
                        s * (2 * p) == value,
                ;
            }
            significand = significand * 2;
            e = e - 1;
        }
        proof {
            if e > 0 {
                lemma_exponent(significand as nat, e as nat);
            }
        }
        Single { negative, significand: significand as u32, exponent: e }
    }

    /// The sum with a positive number that lies between 1 and 8, in single precision.
    pub fn plus(&self, significand: u32, exponent: u32) -> (res: Self)
        requires
            self.well_formed(),
            0x80_0000 <= significand < 0x100_0000,
            126 <= exponent <= 128,
        ensures
            res.well_formed(),
            res@ == nearest(self@ + significand as nat * pow2(exponent as nat)),
    {
        let ghost k = significand as nat * pow2(exponent as nat);
        let ghost m = self.magnitude();
        proof {
            lemma2_to64();
            assert(spacing(significand as nat) == 1 && spacing(self.significand as nat) == 1);
            lemma_doubled_is_representable(significand as nat, exponent as nat);
            lemma_doubled_is_representable(self.significand as nat, self.exponent as nat);
            lemma_magnitude(significand as nat, exponent as nat);
            lemma_magnitude(self.significand as nat, self.exponent as nat);
        }
        if self.exponent >= 160 {
            proof {
                lemma_pow2_adds(24, exponent as nat);
                lemma_pow2_strictly_increases((24 + exponent) as nat, 158);
                lemma_pow2_adds(2, 158);
                if self.exponent > 160 {
                    lemma_pow2_strictly_increases(160, self.exponent as nat);
                }
                lemma_small_is_lost(
                    m,
                    self.exponent as nat,
                    if self.negative {
                        -k
                    } else {
                        k as int
                    },
                );
            }
            return *self;
        }
        if self.exponent < 96 {
            proof {
                lemma_pow2_adds(24, self.exponent as nat);
                lemma_pow2_strictly_increases((24 + self.exponent) as nat, 120);
                lemma_pow2_adds(2, 120);
                lemma_pow2_strictly_increases(122, exponent as nat);
                lemma_small_is_lost(
                    k,
                    exponent as nat,
                    self@,
                );
            }
            return Single { negative: false, significand, exponent };
        }
        let a: u128 = shifted(self.significand, self.exponent - 96);
        let b: u128 = shifted(significand, exponent - 96);
        let (negative, n): (bool, u128) = if !self.negative {
            (false, a + b)
        } else if a > b {
            (true, (a - b) as u128)
        } else {
            (false, (b - a) as u128)
        };
        proof {
            let u = pow2(96);
            lemma_pow2_pos(96);
            lemma_shifted(self.significand as nat, self.exponent as nat);
            lemma_shifted(significand as nat, exponent as nat);
            assert(n as nat * u == magnitude_of(self@ + k)) by (nonlinear_arith)
                requires
                    m == a as nat * u,
                    k == b as nat * u,
                    u > 0,
                    !self.negative ==> n == a + b && magnitude_of(self@ + k) == m + k,
                    self.negative && a > b ==> n == a - b && (m > k ==> magnitude_of(self@ + k) == m - k),
                    self.negative && a <= b ==> n == b - a && (m <= k ==> magnitude_of(self@ + k) == k - m),
            ;
            assert(negative ==> self@ + k < 0) by (nonlinear_arith)
                requires
                    negative ==> self.negative && a > b,
                    self.negative ==> self@ == -m,
                    m == a as nat * u,
                    k == b as nat * u,
                    u > 0,
            ;
            assert(!negative ==> self@ + k >= 0) by (nonlinear_arith)
                requires
                    !negative ==> !self.negative || a <= b,
                    self.negative ==> self@ == -m,
                    !self.negative ==> self@ == m,
                    m == a as nat * u,
                    k == b as nat * u,
                    u > 0,
            ;
            lemma_rounded_scaled(n as nat, 96);
            law_rounding_is_representable(n as nat);
        }
        let r: u128 = round(n);
        proof {
            let u = pow2(96);
            lemma2_to64();
            lemma_pow2_adds(64, 32);
            lemma_pow2_adds(96, 96);
            lemma_pow2_strictly_increases(192, 277);
            assert(r as nat * u < u * u) by (nonlinear_arith)
                requires
                    r < 0x1_0000_0000_0000_0000_0000_0000,
                    u == 0x1_0000_0000_0000_0000_0000_0000,
            ;
        }
        Single::normalized(negative, r, 96)
    }
}

/// The product with a factor that is counted in units of 2^-24, in single precision. Nothing is cut
/// off by the division where `n` is large enough.
pub open spec fn product(n: nat, factor: nat) -> nat {
    rounded(n * factor) / 0x100_0000
}

impl Single {
    /// The number 0.
    pub fn zero() -> (res: Self)
        ensures
            res.well_formed(),
            res@ == 0,
    {
        proof {
            assert(0 * pow2(0) == 0) by (nonlinear_arith);
        }
        Single { negative: false, significand: 0, exponent: 0 }
    }

    /// The sum with 1.
    pub fn plus_one(&self) -> (res: Self)
        requires
            self.well_formed(),
        ensures
            res.well_formed(),
            res@ == nearest(self@ + one()),
    {
        proof {
            lemma2_to64();
            lemma_pow2_adds(23, 126);
        }
        self.plus(0x80_0000, 126)
    }

    /// The product of a number above one half with a factor below 1, in single precision. What is
    /// infinite stays so.
    pub fn times(&self, factor: u32) -> (res: Self)
        requires
            self.well_formed(),
            self@ > half(),
            0 < factor < 0x100_0000,
        ensures
            res.well_formed(),
            res@ == if self@ >= infinity() {
                self@
            } else {
                product(self@ as nat, factor as nat) as int
            },
    {
        proof {
            lemma2_to64();
            lemma_magnitude(self.significand as nat, self.exponent as nat);
            lemma_pow2_pos(self.exponent as nat);
            assert(self.magnitude() >= 0) by (nonlinear_arith)
                requires
                    self.magnitude() == self.significand as nat * pow2(self.exponent as nat),
            ;
            lemma_pow2_pos(148);
            if self.exponent < 124 {
                lemma_pow2_strictly_increases((24 + self.exponent) as nat, 148);
            }
            lemma_pow2_adds(23, 254);
            if self.exponent < 253 {
                lemma_pow2_strictly_increases((24 + self.exponent) as nat, 277);
            }
        }
        if self.exponent == 254 {
            return *self;
        }
        proof {
            assert(self.significand * factor <= 0xff_ffff * 0xff_ffff) by (nonlinear_arith)
                requires
                    self.significand <= 0xff_ffff,
                    factor <= 0xff_ffff,
            ;
        }
        let n: u128 = self.significand as u128 * factor as u128;
        let r: u128 = round(n);
        proof {
            let e = self.exponent as nat;
            let d = (e - 24) as nat;
            let p = pow2(e);
            let q = pow2(d);
            let most: nat = 0xff_ffff * 0x100_0000;
            assert(spacing(0xff_ffff) == 1);
            lemma_doubled_is_representable(0xff_ffff, 24);
            law_rounding_keeps_representable(most);
            crate::binary32::law_rounding_is_monotone(n as nat, most);
            law_rounding_is_representable(n as nat);
            lemma_rounded_scaled(n as nat, e);
            lemma_pow2_adds(24, d);
            assert(self.magnitude() * factor as nat == n as nat * p) by (nonlinear_arith)
                requires
                    self.magnitude() == self.significand as nat * p,
                    n == self.significand as nat * factor as nat,
            ;
            assert((r as nat * p) / 0x100_0000 == r as nat * q) by (nonlinear_arith)
                requires
                    p == 0x100_0000 * q,
            ;
            lemma_pow2_adds(48, 229);
            lemma_pow2_adds(24, 24);
            if d < 229 {
                lemma_pow2_strictly_increases(d, 229);
            }
            lemma_pow2_pos(d);
            assert(r as nat * q < 0x1_0000_0000_0000 * pow2(229)) by (nonlinear_arith)
                requires
                    r < 0x1_0000_0000_0000,
                    0 < q <= pow2(229),
            ;
        }
        Single::normalized(false, r, self.exponent - 24)
    }

    /// Whether the number is the larger one.
    pub fn exceeds(&self, other: &Self) -> (res: bool)
        requires
            self.well_formed(),
            other.well_formed(),
        ensures
            res == (self@ > other@),
    {
        proof {
            lemma_order(*self, *other);
            lemma_order(*other, *self);
            lemma_sign(*self);
            lemma_sign(*other);
        }
        if self.significand == 0 && other.significand == 0 {
            false
        } else if self.negative != other.negative {
            other.negative
        } else if self.negative {
            other.exponent > self.exponent || (other.exponent == self.exponent && other.significand
                > self.significand)
        } else {
            self.exponent > other.exponent || (self.exponent == other.exponent && self.significand
                > other.significand)
        }
    }

    /// Whether the number is larger than one half.
    pub fn exceeds_half(&self) -> (res: bool)
        requires
            self.well_formed(),
        ensures
            res == (self@ > half()),
    {
        proof {
            lemma2_to64();
            lemma_pow2_adds(23, 125);
        }
        self.exceeds(&Single { negative: false, significand: 0x80_0000, exponent: 125 })
    }
}

/// Magnitudes are ordered by their exponents, and then by their significands.
proof fn lemma_order(a: Single, b: Single)
    requires
        a.well_formed(),
        b.well_formed(),
    ensures
        a.exponent > b.exponent ==> a.magnitude() > b.magnitude(),
        a.exponent == b.exponent ==> (a.magnitude() > b.magnitude() <==> a.significand
            > b.significand),
{
    let p = pow2(a.exponent as nat);
    let q = pow2(b.exponent as nat);
    lemma_pow2_pos(a.exponent as nat);
    lemma_pow2_pos(b.exponent as nat);
    if a.exponent > b.exponent {
        lemma_pow2_unfold(a.exponent as nat);
        if a.exponent - 1 > b.exponent {
            lemma_pow2_strictly_increases(b.exponent as nat, (a.exponent - 1) as nat);
        }
        assert(a.significand as nat * p > b.significand as nat * q) by (nonlinear_arith)
            requires
                a.significand >= 0x80_0000,
                b.significand < 0x100_0000,
                p >= 2 * q,
                q > 0,
        ;
    } else if a.exponent == b.exponent {
        assert(a.significand as nat * p > b.significand as nat * p <==> a.significand
            > b.significand) by (nonlinear_arith)
            requires
                p > 0,
        ;
    }
}

/// Only a number without significand is 0.
proof fn lemma_sign(a: Single)
    ensures
        a.magnitude() == 0 <==> a.significand == 0,
{
    let p = pow2(a.exponent as nat);
    lemma_pow2_pos(a.exponent as nat);
    assert(a.significand as nat * p == 0 <==> a.significand == 0) by (nonlinear_arith)
        requires
            p > 0,
    ;
}

/// A significand with its leading bit set and an exponent for a value below infinity.
proof fn lemma_exponent(significand: nat, exponent: nat)
    requires
        significand >= 0x80_0000,
        significand * pow2(exponent) < infinity(),
    ensures
        exponent < 254,
{
    if exponent >= 254 {
        lemma2_to64();
        lemma_pow2_adds(23, 254);
        if exponent > 254 {
            lemma_pow2_strictly_increases(254, exponent);
        }
        let p = pow2(exponent);
        let q = pow2(254);
        assert(significand * p >= 0x80_0000 * q) by (nonlinear_arith)
            requires
                significand >= 0x80_0000,
                p >= q,
        ;
    }
}

/// A magnitude lies below the power of two that its exponent says.
proof fn lemma_magnitude(significand: nat, exponent: nat)
    requires
        significand < 0x100_0000,
    ensures
        significand * pow2(exponent) < pow2(24 + exponent),
        significand >= 0x80_0000 ==> significand * pow2(exponent) >= 0x80_0000 * pow2(exponent),
{
    lemma2_to64();
    lemma_pow2_adds(24, exponent);
    lemma_pow2_pos(exponent);
    let p = pow2(exponent);
    assert(significand * p < 0x100_0000 * p) by (nonlinear_arith)
        requires
            significand < 0x100_0000,
            p > 0,
    ;
    if significand >= 0x80_0000 {
        assert(significand * p >= 0x80_0000 * p) by (nonlinear_arith)
            requires
                significand >= 0x80_0000,
        ;
    }
}

/// A significand, doubled `k` times.
fn shifted(significand: u32, k: u32) -> (res: u128)
    requires
        significand < 0x100_0000,
        k < 64,
    ensures
        res == significand as nat * pow2(k as nat),
        res < 0x80_0000_0000_0000_0000_0000,
{
    let mut res: u128 = significand as u128;
    let mut i: u32 = 0;
    proof {
        lemma2_to64();
        assert(significand as nat * 1 == significand) by (nonlinear_arith);
    }
    while i < k
        invariant
            i <= k < 64,
            significand < 0x100_0000,
            res == significand as nat * pow2(i as nat),
        decreases k - i,
    {
        proof {
            lemma_doubled_bound(significand as nat, i as nat);
            lemma_pow2_unfold((i + 1) as nat);
            let s = significand as nat;
            let p = pow2(i as nat);
            assert(s * (2 * p) == 2 * (s * p)) by (nonlinear_arith);
        }
        res = res * 2;
        i += 1;
    }
    proof {
        lemma_doubled_bound(significand as nat, k as nat);
    }
    res
}

proof fn lemma_doubled_bound(significand: nat, k: nat)
    requires
        significand < 0x100_0000,
        k < 64,
    ensures
        significand * pow2(k) < 0x80_0000_0000_0000_0000_0000,
{
    lemma2_to64();
    lemma_pow2_unfold(64);
    if k < 63 {
        lemma_pow2_strictly_increases(k, 63);
    }
    lemma_pow2_pos(k);
    let p = pow2(k);
    assert(significand * p < 0x100_0000 * 0x8000_0000_0000_0000) by (nonlinear_arith)
        requires
            significand < 0x100_0000,
            0 < p <= 0x8000_0000_0000_0000,
    ;
}

/// A magnitude in units that are doubled 96 times.
proof fn lemma_shifted(significand: nat, exponent: nat)
    requires
        exponent >= 96,
    ensures
        significand * pow2(exponent) == (significand * pow2((exponent - 96) as nat)) * pow2(96),
{
    let d = (exponent - 96) as nat;
    lemma_pow2_adds(d, 96);
    let p = pow2(d);
    let q = pow2(96);
    assert(significand * (p * q) == (significand * p) * q) by (nonlinear_arith);
}

} // verus!
