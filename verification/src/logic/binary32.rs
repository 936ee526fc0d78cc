//! Single-precision numbers as the sensors put them on the wire: the 32-bit
//! pattern of IEEE 754 binary32, read with integer arithmetic only.
//!
//! A finite pattern stands for `significand * 2^scale`, exactly. What the
//! display and the sensor commands need of such a number is its whole part
//! and its fractional part in decimal digits; both are computed here without
//! rounding anywhere but in the last decimal place.
//!
//! Measurements are never negative. A negative number and a NaN therefore
//! count as zero, and a number beyond the 32-bit range, infinity included,
//! as `u32::MAX`.

use vstd::arithmetic::power2::{
    lemma2_to64, lemma2_to64_rest, lemma_pow2_strictly_increases, lemma_pow2_unfold, pow2,
};
use vstd::prelude::*;
use crate::logic::ticks::{lemma_round_half_up_is_floor, round_half_up};

verus! {

/// The largest number of decimal places that `fract_scaled` takes.
pub const MAX_DECIMALS: u8 = 9;

/// Ten to the power `p`.
pub open spec fn pow10(p: nat) -> nat
    decreases p,
{
    if p == 0 {
        1
    } else {
        10 * pow10((p - 1) as nat)
    }
}

/// Powers of ten up to the ninth, by value.
pub proof fn lemma_pow10_values()
    ensures
        pow10(0) == 1,
        pow10(1) == 10,
        pow10(2) == 100,
        pow10(3) == 1_000,
        pow10(4) == 10_000,
        pow10(5) == 100_000,
        pow10(6) == 1_000_000,
        pow10(7) == 10_000_000,
        pow10(8) == 100_000_000,
        pow10(9) == 1_000_000_000,
{
    reveal_with_fuel(pow10, 10);
}

/// Powers of ten grow with the exponent.
pub proof fn lemma_pow10_increases(p: nat, q: nat)
    requires
        p <= q,
    ensures
        1 <= pow10(p) <= pow10(q),
    decreases q,
{
    if q == 0 {
    } else if p == q {
        lemma_pow10_increases((p - 1) as nat, (q - 1) as nat);
    } else {
        lemma_pow10_increases(p, (q - 1) as nat);
    }
}

/// A number in binary32 format, held as its bit pattern: one sign bit,
/// eight exponent bits, twenty-three mantissa bits.
#[derive(Clone, Copy, Debug, PartialEq, Eq, Structural)]
pub struct Binary32 {
    pub bits: u32,
}

impl Binary32 {
    /// The exponent field, `0 ..= 255`.
    pub open spec fn exponent(self) -> int {
        (self.bits as int / 0x80_0000) % 256
    }

    /// The mantissa field, `0 .. 2^23`.
    pub open spec fn mantissa(self) -> int {
        self.bits as int % 0x80_0000
    }

    /// The sign bit is set.
    pub open spec fn is_negative(self) -> bool {
        self.bits >= 0x8000_0000
    }

    /// The pattern is a NaN.
    pub open spec fn is_nan(self) -> bool {
        self.exponent() == 255 && self.mantissa() != 0
    }

    /// The pattern is an infinity.
    pub open spec fn is_infinite(self) -> bool {
        self.exponent() == 255 && self.mantissa() == 0
    }

    /// The pattern is a finite number that is not negative; negative zero
    /// does not count.
    pub open spec fn is_measure(self) -> bool {
        !self.is_negative() && self.exponent() != 255
    }

    /// The integer that, times `2^scale`, is the magnitude of a finite
    /// pattern: the mantissa, with the implicit leading bit unless the
    /// number is subnormal.
    pub open spec fn significand(self) -> int {
        if self.exponent() == 0 {
            self.mantissa()
        } else {
            0x80_0000 + self.mantissa()
        }
    }

    /// The power of two by which the significand is scaled.
    pub open spec fn scale(self) -> int {
        (if self.exponent() == 0 {
            1
        } else {
            self.exponent()
        }) - 150
    }

    /// The whole part of the number, as far as a `u32` holds it: its floor,
    /// zero for a negative number or a NaN, `u32::MAX` from 2^32 on.
    pub open spec fn whole(self) -> int {
        if self.is_negative() || self.is_nan() {
            0
        } else if self.is_infinite() {
            u32::MAX as int
        } else if self.scale() >= 0 {
            let exact = self.significand() * pow2(self.scale() as nat);
            if exact > u32::MAX {
                u32::MAX as int
            } else {
                exact
            }
        } else {
            self.significand() / (pow2((-self.scale()) as nat) as int)
        }
    }

    /// The fractional part of the number in units of `2^scale`; zero where
    /// the number has none or is no measure.
    pub open spec fn fract_numerator(self) -> int {
        if self.is_measure() && self.scale() < 0 {
            self.significand() % (pow2((-self.scale()) as nat) as int)
        } else {
            0
        }
    }

    /// The fractional part of the number times `10^decimals`, rounded half
    /// up. It is at most `10^decimals`, and reaches that when the fraction
    /// rounds up to one.
    pub open spec fn fract_scaled(self, decimals: nat) -> int {
        if self.is_measure() && self.scale() < 0 {
            round_half_up(
                self.fract_numerator() * pow10(decimals),
                pow2((-self.scale()) as nat) as int,
            )
        } else {
            0
        }
    }

    /// The number times `10^decimals`, rounded half up to an integer, on
    /// the patterns whose whole part a `u32` holds exactly.
    pub open spec fn scaled(self, decimals: nat) -> int {
        self.whole() * pow10(decimals) + self.fract_scaled(decimals)
    }

    /// The number is the one nearest to `hundredths / 100`: a normal
    /// number that lies within half the gap to its neighbour on either
    /// side of it, the gap below a power of two being half the gap above.
    /// Zero hundredths are the number zero.
    pub open spec fn is_nearest_hundredths(self, hundredths: int) -> bool {
        if hundredths == 0 {
            self.bits == 0
        } else {
            let drift = hundredths * pow2((-self.scale()) as nat) - self.significand() * 100;
            &&& self.is_measure()
            &&& self.exponent() != 0
            &&& self.scale() < 0
            &&& 2 * drift < 100
            &&& if self.significand() == 0x80_0000 {
                4 * drift >= -100
            } else {
                2 * drift >= -100
            }
        }
    }

    /// Wraps a bit pattern.
    pub fn from_bits(bits: u32) -> (number: Binary32)
        ensures
            number.bits == bits,
    {
        Binary32 { bits }
    }

    /// The bit pattern.
    pub fn to_bits(&self) -> (bits: u32)
        ensures
            bits == self.bits,
    {
        self.bits
    }

    /// Assembles the pattern from four bytes, most significant first.
    pub fn from_be_bytes(bytes: [u8; 4]) -> (number: Binary32)
        ensures
            number.bits == be_u32(bytes@),
    {
        let b0: u32 = bytes[0] as u32;
        let b1: u32 = bytes[1] as u32;
        let b2: u32 = bytes[2] as u32;
        let b3: u32 = bytes[3] as u32;
        Binary32 { bits: b0 * 0x100_0000 + b1 * 0x1_0000 + b2 * 0x100 + b3 }
    }

    /// The number nearest to `hundredths / 100`.
    pub fn from_hundredths(hundredths: u16) -> (number: Binary32)
        ensures
            number.is_nearest_hundredths(hundredths as int),
    {
        if hundredths == 0 {
            return Binary32 { bits: 0 };
        }
        // Double until the quotient by 100 has 24 bits.
        let mut places: u32 = 0;
        let mut scaled: u64 = hundredths as u64;
        proof {
            lemma2_to64();
        }
        while scaled * 2 < 0x6400_0000
            invariant
                scaled == hundredths * pow2(places as nat),
                0 < scaled < 0x6400_0000,
                pow2(places as nat) <= scaled,
                places <= 30,
            decreases 0x6400_0000 - scaled,
        {
            proof {
                lemma_pow2_unfold((places + 1) as nat);
                assert(hundredths * (2 * pow2(places as nat)) == 2 * (hundredths * pow2(
                    places as nat,
                ))) by (nonlinear_arith);
                lemma2_to64();
            }
            scaled = scaled * 2;
            places = places + 1;
        }
        proof {
            if places < 14 {
                lemma_pow2_strictly_increases(places as nat, 14);
                assert(hundredths * pow2(places as nat) < 0x1_0000 * 0x4000) by (nonlinear_arith)
                    requires
                        hundredths < 0x1_0000,
                        pow2(places as nat) < 0x4000,
                ;
            }
        }
        let rest: u64 = scaled % 100;
        let significand: u64 = if 2 * rest >= 100 {
            scaled / 100 + 1
        } else {
            scaled / 100
        };
        if significand == 0x100_0000 {
            proof {
                lemma_pow2_unfold(places as nat);
                assert(hundredths * (2 * pow2((places - 1) as nat)) == 2 * (hundredths * pow2(
                    (places - 1) as nat,
                ))) by (nonlinear_arith);
            }
            Binary32 { bits: (151 - places) * 0x80_0000 }
        } else {
            Binary32 { bits: (150 - places) * 0x80_0000 + (significand - 0x80_0000) as u32 }
        }
    }

    /// The exponent and the significand of the pattern.
    fn fields(&self) -> (r: (u32, u32))
        ensures
            r.0 == self.exponent(),
            r.1 == self.significand(),
            r.0 <= 255,
            r.1 < 0x100_0000,
            r.0 != 0 ==> r.1 >= 0x80_0000,
    {
        let exponent: u32 = (self.bits / 0x80_0000) % 256;
        let mantissa: u32 = self.bits % 0x80_0000;
        if exponent == 0 {
            (exponent, mantissa)
        } else {
            (exponent, 0x80_0000 + mantissa)
        }
    }

    /// Whether the number is finite and not negative.
    pub fn is_measurable(&self) -> (r: bool)
        ensures
            r == self.is_measure(),
    {
        let (exponent, _) = self.fields();
        self.bits < 0x8000_0000 && exponent != 255
    }

    /// The whole part of the number: its floor, saturated to `0 ..= u32::MAX`.
    /// A negative number and a NaN give 0.
    pub fn floor_u32(&self) -> (whole: u32)
        ensures
            whole == self.whole(),
    {
        let (exponent, significand) = self.fields();
        if self.bits >= 0x8000_0000 {
            return 0;
        }
        if exponent == 255 {
            return if significand == 0x80_0000 {
                u32::MAX
            } else {
                0
            };
        }
        let stored: u32 = if exponent == 0 {
            1
        } else {
            exponent
        };
        if stored >= 150 {
            let up: u32 = stored - 150;
            proof {
                lemma2_to64();
                if up >= 9 {
                    if up > 9 {
                        lemma_pow2_strictly_increases(9, up as nat);
                    }
                    assert(significand * pow2(up as nat) > u32::MAX) by (nonlinear_arith)
                        requires
                            significand >= 0x80_0000,
                            pow2(up as nat) >= 0x200,
                    ;
                }
            }
            if up >= 9 {
                u32::MAX
            } else {
                let factor: u64 = pow2_u64(up);
                assert(significand * factor < 0x1_0000_0000) by (nonlinear_arith)
                    requires
                        significand < 0x100_0000,
                        factor <= 0x100,
                ;
                (significand as u64 * factor) as u32
            }
        } else {
            let down: u32 = 150 - stored;
            proof {
                lemma2_to64();
                if down >= 24 {
                    if down > 24 {
                        lemma_pow2_strictly_increases(24, down as nat);
                    }
                    vstd::arithmetic::div_mod::lemma_basic_div(
                        significand as int,
                        pow2(down as nat) as int,
                    );
                }
            }
            if down >= 24 {
                0
            } else {
                let divisor: u64 = pow2_u64(down);
                (significand as u64 / divisor) as u32
            }
        }
    }

    /// The fractional part of the number times `10^decimals`, rounded half
    /// up to an integer. A number that is negative, not finite, or whole
    /// gives 0.
    pub fn fract_scaled_u32(&self, decimals: u8) -> (scaled: u32)
        requires
            decimals <= MAX_DECIMALS,
        ensures
            scaled == self.fract_scaled(decimals as nat),
            scaled <= pow10(decimals as nat),
    {
        let (exponent, significand) = self.fields();
        let stored: u32 = if exponent == 0 {
            1
        } else {
            exponent
        };
        if self.bits >= 0x8000_0000 || exponent == 255 || stored >= 150 {
            return 0;
        }
        let down: u32 = 150 - stored;
        let times: u32 = pow10_u32(decimals);
        proof {
            lemma2_to64();
            lemma2_to64_rest();
            lemma_pow10_values();
            lemma_pow10_increases(decimals as nat, 9);
            lemma_fract_scaled_bound(*self, decimals as nat);
        }
        if down >= 56 {
            proof {
                let d = pow2(down as nat) as int;
                if down > 56 {
                    lemma_pow2_strictly_increases(56, down as nat);
                }
                vstd::arithmetic::div_mod::lemma_small_mod(significand as nat, d as nat);
                let n = significand as int * times as int;
                assert(0 <= n < 0x40_0000_0000_0000) by (nonlinear_arith)
                    requires
                        n == significand * times,
                        significand < 0x100_0000,
                        times <= 1_000_000_000,
                ;
                lemma_round_half_up_is_floor(n, d);
                vstd::arithmetic::div_mod::lemma_basic_div(2 * n + d, 2 * d);
            }
            return 0;
        }
        let divisor: u64 = pow2_u64(down);
        let numerator: u64 = significand as u64 % divisor;
        proof {
            vstd::arithmetic::div_mod::lemma_mod_decreases(significand as nat, divisor as nat);
        }
        assert(numerator * times < 0x40_0000_0000_0000) by (nonlinear_arith)
            requires
                numerator < 0x100_0000,
                times <= 1_000_000_000,
        ;
        assert(divisor <= 0x80_0000_0000_0000) by {
            if down < 55 {
                lemma_pow2_strictly_increases(down as nat, 55);
            }
        }
        let product: u64 = numerator * times as u64;
        proof {
            lemma_round_half_up_is_floor(product as int, divisor as int);
        }
        let rounded: u64 = (2 * product + divisor) / (2 * divisor);
        rounded as u32
    }
}

/// The 32-bit number whose bytes, most significant first, are `bytes`.
pub open spec fn be_u32(bytes: Seq<u8>) -> int
    recommends
        bytes.len() == 4,
{
    bytes[0] * 0x100_0000 + bytes[1] * 0x1_0000 + bytes[2] * 0x100 + bytes[3]
}

/// The whole part and the scaled fraction of a number add up to the
/// number times `10^decimals`, rounded half up.
pub proof fn lemma_scaled_is_rounded(number: Binary32, decimals: nat)
    requires
        number.is_measure(),
        number.scale() < 0,
    ensures
        number.scaled(decimals) == round_half_up(
            number.significand() * pow10(decimals),
            pow2((-number.scale()) as nat) as int,
        ),
{
    let t = pow10(decimals) as int;
    let d = pow2((-number.scale()) as nat) as int;
    let sig = number.significand();
    let q = sig / d;
    let r = sig % d;
    vstd::arithmetic::power2::lemma_pow2_pos((-number.scale()) as nat);
    lemma_pow10_increases(0, decimals);
    vstd::arithmetic::div_mod::lemma_fundamental_div_mod(sig, d);
    vstd::arithmetic::div_mod::lemma_mod_bound(sig, d);
    assert(r * t >= 0 && sig * t >= 0 && q * t * (2 * d) + (2 * (r * t) + d) == 2 * (sig * t) + d)
        by (nonlinear_arith)
        requires
            sig == d * q + r,
            r >= 0,
            sig >= 0,
            t >= 1,
    ;
    lemma_round_half_up_is_floor(r * t, d);
    lemma_round_half_up_is_floor(sig * t, d);
    vstd::arithmetic::div_mod::lemma_hoist_over_denominator(2 * (r * t) + d, q * t, (2 * d) as nat);
}

/// The bits of a number that is not negative are its exponent and
/// mantissa side by side.
pub proof fn lemma_bits_of_measure(number: Binary32)
    requires
        !number.is_negative(),
    ensures
        number.bits == number.exponent() * 0x80_0000 + number.mantissa(),
{
}

/// There is one nearest number: two numbers that are both nearest to
/// `hundredths / 100` are the same.
pub proof fn lemma_nearest_hundredths_unique(a: Binary32, b: Binary32, hundredths: int)
    requires
        hundredths >= 0,
        a.is_nearest_hundredths(hundredths),
        b.is_nearest_hundredths(hundredths),
    ensures
        a == b,
{
    if hundredths > 0 {
        let ka = (-a.scale()) as nat;
        let kb = (-b.scale()) as nat;
        if ka <= kb {
            lemma_nearest_scale(a, b, hundredths);
        } else {
            lemma_nearest_scale(b, a, hundredths);
        }
        assert(ka == kb);
        assert(a.significand() == b.significand());
        lemma_bits_of_measure(a);
        lemma_bits_of_measure(b);
    }
}

/// Two numbers that are both nearest to `hundredths / 100` have the same
/// scale.
proof fn lemma_nearest_scale(coarse: Binary32, fine: Binary32, hundredths: int)
    requires
        hundredths > 0,
        coarse.is_nearest_hundredths(hundredths),
        fine.is_nearest_hundredths(hundredths),
        coarse.scale() >= fine.scale(),
    ensures
        coarse.scale() == fine.scale(),
{
    if coarse.scale() > fine.scale() {
        let kc = (-coarse.scale()) as nat;
        let kf = (-fine.scale()) as nat;
        let vc = hundredths * pow2(kc);
        let vf = hundredths * pow2(kf);
        lemma_pow2_unfold((kc + 1) as nat);
        if kc + 1 < kf {
            lemma_pow2_strictly_increases((kc + 1) as nat, kf);
        }
        assert(vf >= 2 * vc) by (nonlinear_arith)
            requires
                vf == hundredths * pow2(kf),
                vc == hundredths * pow2(kc),
                pow2(kf) >= 2 * pow2(kc),
                hundredths > 0,
        ;
    }
}

/// The scaled fraction never exceeds `10^decimals`.
pub proof fn lemma_fract_scaled_bound(number: Binary32, decimals: nat)
    ensures
        0 <= number.fract_scaled(decimals) <= pow10(decimals),
{
    if number.is_measure() && number.scale() < 0 {
        let d = pow2((-number.scale()) as nat) as int;
        let f = number.fract_numerator();
        let t = pow10(decimals) as int;
        vstd::arithmetic::power2::lemma_pow2_pos((-number.scale()) as nat);
        lemma_pow10_increases(0, decimals);
        vstd::arithmetic::div_mod::lemma_mod_bound(number.significand(), d);
        assert(0 <= f * t <= d * t - t) by (nonlinear_arith)
            requires
                0 <= f <= d - 1,
                t >= 1,
        ;
        lemma_round_half_up_is_floor(f * t, d);
        assert(0 <= 2 * (f * t) + d < (t + 1) * (2 * d)) by (nonlinear_arith)
            requires
                0 <= f * t <= d * t - t,
                t >= 1,
                d >= 1,
        ;
        vstd::arithmetic::div_mod::lemma_div_pos_is_pos(2 * (f * t) + d, 2 * d);
        vstd::arithmetic::div_mod::lemma_multiply_divide_lt(2 * (f * t) + d, 2 * d, t + 1);
    }
}

/// Two to the power `k`.
fn pow2_u64(k: u32) -> (r: u64)
    requires
        k < 64,
    ensures
        r == pow2(k as nat),
{
    let mut r: u64 = 1;
    let mut i: u32 = 0;
    proof {
        lemma2_to64();
    }
    while i < k
        invariant
            i <= k < 64,
            r == pow2(i as nat),
        decreases k - i,
    {
        proof {
            lemma_pow2_unfold((i + 1) as nat);
            lemma2_to64_rest();
            if i + 1 < 63 {
                lemma_pow2_strictly_increases((i + 1) as nat, 63);
            }
        }
        r = r * 2;
        i = i + 1;
    }
    r
}

/// Ten to the power `p`.
pub fn pow10_u32(p: u8) -> (r: u32)
    requires
        p <= MAX_DECIMALS,
    ensures
        r == pow10(p as nat),
{
    let mut r: u32 = 1;
    let mut i: u8 = 0;
    while i < p
        invariant
            i <= p <= 9,
            r == pow10(i as nat),
        decreases p - i,
    {
        proof {
            lemma_pow10_values();
            lemma_pow10_increases((i + 1) as nat, 9);
        }
        r = r * 10;
        i = i + 1;
    }
    r
}

} // verus!
