//! Real quantities in the IEEE 754 binary32 encoding, held as bit patterns.
//!
//! Everything here is exact on the encoding: ordering, negation, clamping and
//! the quantisation of a colour channel. Operations that round (sums, products,
//! roots, trigonometry) are the caller's business; their results enter the
//! library as bit patterns.

use vstd::prelude::*;
use vstd::arithmetic::power2::*;
use vstd::arithmetic::div_mod::*;
use vstd::arithmetic::mul::*;

verus! {

/// Bit pattern of the sign bit.
pub const SIGN_BIT: u32 = 0x8000_0000;

/// Magnitude bits of positive infinity; larger magnitudes encode NaN.
pub const INFINITY_BITS: u32 = 0x7f80_0000;

/// A binary32 quantity, identified by its bit pattern.
#[derive(Clone, Copy, Debug, PartialEq, Eq, Structural)]
pub struct Scalar {
    pub bits: u32,
}

/// Value, in units of two to the power -149, encoded by magnitude bits `m`
/// (everything but the sign). Infinity counts as two to the power 128.
pub open spec fn magnitude_units(m: int) -> int {
    let exponent = m / 0x0080_0000;
    let fraction = m % 0x0080_0000;
    if exponent == 0 {
        fraction
    } else {
        (0x0080_0000 + fraction) * pow2((exponent - 1) as nat)
    }
}

impl Scalar {
    /// The bits without the sign.
    pub open spec fn magnitude(self) -> int {
        if self.bits >= SIGN_BIT {
            self.bits - SIGN_BIT
        } else {
            self.bits as int
        }
    }

    /// The sign bit is set (also true of negative zero and of some NaNs).
    pub open spec fn sign_negative(self) -> bool {
        self.bits >= SIGN_BIT
    }

    pub open spec fn is_nan_spec(self) -> bool {
        self.magnitude() > INFINITY_BITS
    }

    pub open spec fn is_zero_spec(self) -> bool {
        self.magnitude() == 0
    }

    /// Sign-magnitude reading of the bits: the integer by which non-NaN
    /// quantities are ordered. Both zeros have key 0.
    pub open spec fn key(self) -> int {
        if self.sign_negative() {
            -self.magnitude()
        } else {
            self.magnitude()
        }
    }

    /// The encoded value in units of two to the power -149 (meaningful when
    /// the quantity is not NaN; infinities count as plus or minus two to the
    /// power 128).
    pub open spec fn units(self) -> int {
        if self.sign_negative() {
            -magnitude_units(self.magnitude())
        } else {
            magnitude_units(self.magnitude())
        }
    }

    /// `self < other` as IEEE 754 defines it: false when either is NaN.
    pub open spec fn lt_spec(self, other: Scalar) -> bool {
        !self.is_nan_spec() && !other.is_nan_spec() && self.key() < other.key()
    }

    /// `self <= other` as IEEE 754 defines it: false when either is NaN.
    pub open spec fn le_spec(self, other: Scalar) -> bool {
        !self.is_nan_spec() && !other.is_nan_spec() && self.key() <= other.key()
    }

    /// `self == other` as IEEE 754 defines it: NaN equals nothing, the two
    /// zeros are equal.
    pub open spec fn same_spec(self, other: Scalar) -> bool {
        !self.is_nan_spec() && !other.is_nan_spec() && self.key() == other.key()
    }

    /// The sign bit flipped.
    pub open spec fn neg_spec(self) -> Scalar {
        if self.bits >= SIGN_BIT {
            Scalar { bits: (self.bits - SIGN_BIT) as u32 }
        } else {
            Scalar { bits: (self.bits + SIGN_BIT) as u32 }
        }
    }

    /// `val` limited to `[low, high]` by the rule "above `low`, then below
    /// `high`": a NaN `val` gives `low`.
    pub open spec fn clamp_spec(self, low: Scalar, high: Scalar) -> Scalar {
        if low.lt_spec(self) {
            if self.lt_spec(high) {
                self
            } else {
                high
            }
        } else {
            low
        }
    }

    /// The whole number nearest to the value in the direction of zero, held
    /// to the range of `isize`; zero for NaN. This is what a cast of the
    /// quantity to `isize` gives.
    pub open spec fn to_isize_spec(self) -> int {
        let whole = magnitude_units(self.magnitude()) / (pow2(149) as int);
        if self.is_nan_spec() {
            0
        } else if self.sign_negative() {
            if -whole < isize::MIN {
                isize::MIN as int
            } else {
                -whole
            }
        } else {
            if whole > isize::MAX {
                isize::MAX as int
            } else {
                whole
            }
        }
    }

    /// Positive zero.
    pub open spec fn zero_spec() -> Scalar {
        Scalar { bits: 0 }
    }

    /// One.
    pub open spec fn one_spec() -> Scalar {
        Scalar { bits: 0x3f80_0000 }
    }

    /// Positive infinity.
    pub open spec fn infinity_spec() -> Scalar {
        Scalar { bits: 0x7f80_0000 }
    }

    pub fn from_bits(bits: u32) -> (s: Scalar)
        ensures
            s.bits == bits,
    {
        Scalar { bits }
    }

    pub fn to_bits(&self) -> (bits: u32)
        ensures
            bits == self.bits,
    {
        self.bits
    }

    pub fn zero() -> (s: Scalar)
        ensures
            s == Self::zero_spec(),
    {
        Scalar { bits: 0 }
    }

    pub fn one() -> (s: Scalar)
        ensures
            s == Self::one_spec(),
    {
        Scalar { bits: 0x3f80_0000 }
    }

    pub fn infinity() -> (s: Scalar)
        ensures
            s == Self::infinity_spec(),
    {
        Scalar { bits: 0x7f80_0000 }
    }

    fn magnitude_bits(&self) -> (m: u32)
        ensures
            m == self.magnitude(),
            m < SIGN_BIT,
    {
        if self.bits >= SIGN_BIT {
            self.bits - SIGN_BIT
        } else {
            self.bits
        }
    }

    fn ordering_key(&self) -> (k: i64)
        ensures
            k == self.key(),
    {
        let m: u32 = self.magnitude_bits();
        if self.bits >= SIGN_BIT {
            -(m as i64)
        } else {
            m as i64
        }
    }

    pub fn is_nan(&self) -> (r: bool)
        ensures
            r == self.is_nan_spec(),
    {
        self.magnitude_bits() > INFINITY_BITS
    }

    pub fn is_zero(&self) -> (r: bool)
        ensures
            r == self.is_zero_spec(),
    {
        self.magnitude_bits() == 0
    }

    pub fn lt(&self, other: &Scalar) -> (r: bool)
        ensures
            r == self.lt_spec(*other),
    {
        !self.is_nan() && !other.is_nan() && self.ordering_key() < other.ordering_key()
    }

    pub fn le(&self, other: &Scalar) -> (r: bool)
        ensures
            r == self.le_spec(*other),
    {
        !self.is_nan() && !other.is_nan() && self.ordering_key() <= other.ordering_key()
    }

    pub fn gt(&self, other: &Scalar) -> (r: bool)
        ensures
            r == other.lt_spec(*self),
    {
        other.lt(self)
    }

    pub fn ge(&self, other: &Scalar) -> (r: bool)
        ensures
            r == other.le_spec(*self),
    {
        other.le(self)
    }

    /// IEEE 754 equality of values (not of bit patterns).
    pub fn same(&self, other: &Scalar) -> (r: bool)
        ensures
            r == self.same_spec(*other),
    {
        !self.is_nan() && !other.is_nan() && self.ordering_key() == other.ordering_key()
    }

    pub fn neg(&self) -> (r: Scalar)
        ensures
            r == self.neg_spec(),
    {
        if self.bits >= SIGN_BIT {
            Scalar { bits: self.bits - SIGN_BIT }
        } else {
            Scalar { bits: self.bits + SIGN_BIT }
        }
    }

    /// The quantity cast to `isize`: rounded toward zero, held to the range
    /// of `isize`, zero for NaN.
    pub fn to_isize(&self) -> (r: isize)
        ensures
            r == self.to_isize_spec(),
    {
        let m: u32 = self.magnitude_bits();
        let negative: bool = self.bits >= SIGN_BIT;
        if m > INFINITY_BITS {
            return 0;
        }
        let exponent: u32 = m / 0x0080_0000;
        let fraction: u32 = m % 0x0080_0000;
        let ghost units = magnitude_units(m as int);
        let ghost whole = units / (pow2(149) as int);
        proof {
            lemma_pow2_pos(149);
            lemma2_to64();
            lemma2_to64_rest();
        }
        if exponent < 127 {
            // below one
            proof {
                lemma_units_below(m as int, 127);
                lemma_pow2_adds(23, 126);
                lemma_basic_div(units, pow2(149) as int);
                assert(magnitude_units(0) == 0);
                if m > 0 {
                    lemma_magnitude_units_increase(0, m as int);
                }
            }
            return 0;
        }
        let mantissa: u64 = 0x0080_0000 + fraction as u64;
        proof {
            assert(units == mantissa * pow2((exponent - 1) as nat));
        }
        if exponent >= 190 {
            // two to the power 63 or more
            proof {
                let p = pow2((exponent - 1) as nat) as int;
                lemma_pow2_pos((exponent - 1) as nat);
                if exponent > 190 {
                    lemma_pow2_strictly_increases(189, (exponent - 1) as nat);
                }
                lemma_pow2_adds(40, 149);
                lemma_pow2_adds(23, 40);
                lemma_mul_inequality(pow2(189) as int, p, mantissa as int);
                lemma_mul_is_commutative(pow2(189) as int, mantissa as int);
                lemma_mul_is_commutative(p, mantissa as int);
                lemma_mul_inequality(0x0080_0000, mantissa as int, pow2(189) as int);
                lemma_mul_is_associative(pow2(23) as int, pow2(40) as int, pow2(149) as int);
                assert(pow2(23) * pow2(189) == pow2(63) * pow2(149));
                assert(units >= pow2(63) * pow2(149));
                lemma_div_is_ordered((pow2(63) * pow2(149)) as int, units, pow2(149) as int);
                lemma_div_by_multiple(pow2(63) as int, pow2(149) as int);
                assert(whole >= pow2(63));
                assert(pow2(63) == 0x8000_0000_0000_0000);
            }
            return if negative {
                isize::MIN
            } else {
                isize::MAX
            };
        }
        let mut value: u64 = mantissa;
        if exponent >= 150 {
            let mut k: u32 = 150;
            proof {
                lemma_pow2_adds(149, 0);
                lemma_mul_is_associative(mantissa as int, pow2(0) as int, pow2(149) as int);
            }
            while k < exponent
                invariant
                    150 <= k <= exponent < 190,
                    mantissa < 0x0100_0000,
                    value == mantissa * pow2((k - 150) as nat),
                    value < pow2((k - 126) as nat),
                decreases exponent - k,
            {
                proof {
                    lemma_pow2_unfold((k - 149) as nat);
                    lemma_pow2_unfold((k - 125) as nat);
                    lemma_mul_is_associative(mantissa as int, pow2((k - 150) as nat) as int, 2);
                    lemma_mul_is_commutative(pow2((k - 150) as nat) as int, 2);
                    if k < 189 {
                        lemma_pow2_strictly_increases((k - 125) as nat, 64);
                    }
                    lemma2_to64();
                    assert(pow2(64) == 0x1_0000_0000_0000_0000);
                }
                value = value * 2;
                k += 1;
            }
            proof {
                lemma_pow2_adds((exponent - 150) as nat, 149);
                lemma_mul_is_associative(
                    mantissa as int,
                    pow2((exponent - 150) as nat) as int,
                    pow2(149) as int,
                );
                lemma_div_by_multiple(value as int, pow2(149) as int);
                assert(whole == value);
                if exponent < 189 {
                    lemma_pow2_strictly_increases((exponent - 126) as nat, 63);
                }
                assert(pow2(63) == 0x8000_0000_0000_0000);
            }
        } else {
            let mut k: u32 = exponent;
            proof {
                lemma_div_basics(mantissa as int);
            }
            while k < 150
                invariant
                    exponent <= k <= 150,
                    value == mantissa as int / (pow2((k - exponent) as nat) as int),
                    value <= mantissa < 0x0100_0000,
                decreases 150 - k,
            {
                proof {
                    lemma_pow2_pos((k - exponent) as nat);
                    lemma_pow2_unfold((k + 1 - exponent) as nat);
                    lemma_div_denominator(mantissa as int, pow2((k - exponent) as nat) as int, 2);
                    lemma_mul_is_commutative(pow2((k - exponent) as nat) as int, 2);
                }
                value = value / 2;
                k += 1;
            }
            proof {
                lemma_quotient_of_scaled(
                    mantissa as int,
                    (exponent - 1) as nat,
                    (150 - exponent) as nat,
                );
                assert(whole == value);
            }
        }
        // value < 2^63
        let signed: i64 = if negative {
            -(value as i64)
        } else {
            value as i64
        };
        if signed > isize::MAX as i64 {
            isize::MAX
        } else if signed < isize::MIN as i64 {
            isize::MIN
        } else {
            signed as isize
        }
    }

    pub fn clamp(&self, low: &Scalar, high: &Scalar) -> (r: Scalar)
        ensures
            r == self.clamp_spec(*low, *high),
    {
        if low.lt(self) {
            if self.lt(high) {
                *self
            } else {
                *high
            }
        } else {
            *low
        }
    }
}

/// Negation keeps the magnitude, flips the sign, and is its own inverse.
pub proof fn lemma_neg(s: Scalar)
    ensures
        s.neg_spec().magnitude() == s.magnitude(),
        s.neg_spec().sign_negative() == !s.sign_negative(),
        s.neg_spec().key() == -s.key(),
        s.neg_spec().units() == -s.units(),
        s.neg_spec().is_nan_spec() == s.is_nan_spec(),
        s.neg_spec().neg_spec() == s,
{
}

/// Below is a strict order on the quantities that are not NaN, with the two
/// zeros in one place; NaN is below nothing and nothing is below NaN.
pub proof fn lemma_order(a: Scalar, b: Scalar, c: Scalar)
    ensures
        !a.lt_spec(a),
        a.lt_spec(b) ==> !b.lt_spec(a),
        a.lt_spec(b) && b.lt_spec(c) ==> a.lt_spec(c),
        a.lt_spec(b) && b.le_spec(c) ==> a.lt_spec(c),
        a.le_spec(b) && b.lt_spec(c) ==> a.lt_spec(c),
        a.le_spec(b) <==> a.lt_spec(b) || a.same_spec(b),
        !a.is_nan_spec() && !b.is_nan_spec() ==> a.lt_spec(b) || a.same_spec(b) || b.lt_spec(a),
        a.is_nan_spec() ==> !a.lt_spec(b) && !b.lt_spec(a) && !a.same_spec(b) && !a.le_spec(b),
        a.is_zero_spec() && b.is_zero_spec() ==> a.same_spec(b),
        a.same_spec(b) && !a.is_zero_spec() ==> a == b,
{
}

/// Dividing a multiple of a power of two by a larger power of two.
pub proof fn lemma_quotient_of_scaled(m: int, a: nat, b: nat)
    requires
        0 <= m,
    ensures
        (m * pow2(a)) / (pow2(a + b) as int) == m / (pow2(b) as int),
{
    let pa = pow2(a) as int;
    let pb = pow2(b) as int;
    lemma_pow2_pos(a);
    lemma_pow2_pos(b);
    lemma_pow2_adds(a, b);
    lemma_mul_nonnegative(m, pa);
    lemma_div_denominator(m * pa, pa, pb);
    lemma_div_by_multiple(m, pa);
}

/// Magnitude bits with an exponent field below `e` encode less than two to
/// the power `e - 1`, in units of two to the power -149 times two to the
/// power 23.
pub proof fn lemma_units_below(m: int, e: nat)
    requires
        0 <= m,
        m / 0x0080_0000 < e,
    ensures
        magnitude_units(m) < 0x0080_0000 * pow2((e - 1) as nat),
{
    let exponent = m / 0x0080_0000;
    let fraction = m % 0x0080_0000;
    lemma_fundamental_div_mod(m, 0x0080_0000);
    lemma_div_pos_is_pos(m, 0x0080_0000);
    let top = pow2((e - 1) as nat) as int;
    lemma_pow2_pos((e - 1) as nat);
    if exponent == 0 {
        lemma_mul_inequality(1, top, 0x0080_0000);
    } else {
        let p = pow2((exponent - 1) as nat) as int;
        lemma_pow2_pos((exponent - 1) as nat);
        lemma_mul_strict_inequality(0x0080_0000 + fraction, 0x0100_0000, p);
        lemma_pow2_unfold(exponent as nat);
        lemma_mul_is_associative(0x0080_0000, 2, p);
        if exponent < e - 1 {
            lemma_pow2_strictly_increases(exponent as nat, (e - 1) as nat);
        }
        lemma_mul_inequality(pow2(exponent as nat) as int, top, 0x0080_0000);
        lemma_mul_is_commutative(pow2(exponent as nat) as int, 0x0080_0000);
        lemma_mul_is_commutative(top, 0x0080_0000);
    }
}

/// The value encoded by magnitude bits grows strictly with the bits.
pub proof fn lemma_magnitude_units_increase(a: int, b: int)
    requires
        0 <= a < b,
    ensures
        0 <= magnitude_units(a) < magnitude_units(b),
{
    let ea = a / 0x0080_0000;
    let fa = a % 0x0080_0000;
    let eb = b / 0x0080_0000;
    let fb = b % 0x0080_0000;
    lemma_fundamental_div_mod(a, 0x0080_0000);
    lemma_fundamental_div_mod(b, 0x0080_0000);
    lemma_div_is_ordered(a, b, 0x0080_0000);
    assert(0 <= ea <= eb);
    if ea == eb {
        assert(fa < fb);
        if ea > 0 {
            let p = pow2((ea - 1) as nat) as int;
            lemma_pow2_pos((ea - 1) as nat);
            lemma_mul_strict_inequality(0x0080_0000 + fa, 0x0080_0000 + fb, p);
            lemma_mul_strictly_positive(0x0080_0000 + fa, p);
        }
    } else {
        let pb = pow2((eb - 1) as nat) as int;
        lemma_pow2_pos((eb - 1) as nat);
        lemma_mul_inequality(0x0080_0000, 0x0080_0000 + fb, pb);
        lemma_mul_is_commutative(0x0080_0000 + fb, pb);
        lemma_mul_is_commutative(0x0080_0000, pb);
        assert(0x0080_0000 * pb <= magnitude_units(b));
        if ea == 0 {
            lemma_mul_inequality(1, pb, 0x0080_0000);
            assert(magnitude_units(a) < 0x0080_0000 * pb);
        } else {
            let pa = pow2((ea - 1) as nat) as int;
            lemma_pow2_pos((ea - 1) as nat);
            // below the next binade: (2^23 + fa) * pa < 2^24 * pa = 2^23 * pow2(ea)
            lemma_mul_strict_inequality(0x0080_0000 + fa, 0x0100_0000, pa);
            lemma_mul_strictly_positive(0x0080_0000 + fa, pa);
            lemma_pow2_unfold(ea as nat);
            assert(pow2(ea as nat) == 2 * pa);
            lemma_mul_is_associative(0x0080_0000, 2, pa);
            assert(0x0100_0000 * pa == 0x0080_0000 * (2 * pa));
            if ea < eb - 1 {
                lemma_pow2_strictly_increases(ea as nat, (eb - 1) as nat);
            }
            assert(pow2(ea as nat) <= pb);
            lemma_mul_inequality(pow2(ea as nat) as int, pb, 0x0080_0000);
            lemma_mul_is_commutative(pow2(ea as nat) as int, 0x0080_0000);
            lemma_mul_is_commutative(pb, 0x0080_0000);
            assert(magnitude_units(a) < 0x0080_0000 * pb);
        }
    }
}

/// The ordering key orders quantities as their values do: of two quantities
/// that are not NaN, one has the smaller key exactly when it encodes the
/// smaller value.
pub proof fn lemma_key_orders_values(a: Scalar, b: Scalar)
    requires
        !a.is_nan_spec(),
        !b.is_nan_spec(),
    ensures
        a.key() < b.key() <==> a.units() < b.units(),
        a.key() == b.key() <==> a.units() == b.units(),
{
    let ma = a.magnitude();
    let mb = b.magnitude();
    assert(magnitude_units(0) == 0) by {
        lemma_pow2_pos(0);
    }
    if ma < mb {
        lemma_magnitude_units_increase(ma, mb);
    } else if mb < ma {
        lemma_magnitude_units_increase(mb, ma);
    }
    if ma > 0 {
        lemma_magnitude_units_increase(0, ma);
    }
    if mb > 0 {
        lemma_magnitude_units_increase(0, mb);
    }
}

} // verus!
