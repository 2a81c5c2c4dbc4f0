//! A double-precision number, carried by its bit pattern.
//!
//! The laboratory compares measured quantities against declared thresholds. A
//! [`Scalar`] holds the IEEE 754 binary64 pattern of such a quantity, and its
//! contracts speak of the exact number that the pattern denotes.

use vstd::arithmetic::div_mod::*;
use vstd::arithmetic::mul::*;
use vstd::arithmetic::power2::*;
use vstd::prelude::*;

verus! {

/// Patterns at or above this one have the sign bit set.
pub const SIGN_BIT: u64 = 0x8000_0000_0000_0000;

/// The pattern of positive infinity.
pub const INFINITY_BITS: u64 = 0x7FF0_0000_0000_0000;

/// The pattern of one.
pub const ONE_BITS: u64 = 0x3FF0_0000_0000_0000;

/// The pattern of two.
pub const TWO_BITS: u64 = 0x4000_0000_0000_0000;

/// The weight of the exponent field: two to the power of fifty-two.
pub const EXPONENT_STEP: u64 = 0x0010_0000_0000_0000;

/// An IEEE 754 binary64 number.
#[derive(Debug, Clone, Copy, PartialEq, Eq, Structural)]
pub struct Scalar {
    pub bits: u64,
}

impl View for Scalar {
    type V = Scalar;

    open spec fn view(&self) -> Scalar {
        *self
    }
}

/// The number denoted by a pattern without sign, counted in units of two to the
/// power of minus 1074 (the least positive double). Infinity continues the
/// scale: it denotes the first power of two beyond the finite range.
pub open spec fn magnitude_units(magnitude: int) -> int {
    let exponent = magnitude / EXPONENT_STEP as int;
    let fraction = magnitude % EXPONENT_STEP as int;
    if exponent == 0 {
        fraction
    } else {
        (EXPONENT_STEP + fraction) * pow2((exponent - 1) as nat)
    }
}

/// How many units make one.
pub open spec fn units_per_one() -> int {
    pow2(1074) as int
}

impl Scalar {
    pub open spec fn is_negative(self) -> bool {
        self.bits >= SIGN_BIT
    }

    /// The pattern without its sign bit.
    pub open spec fn magnitude(self) -> int {
        if self.bits >= SIGN_BIT {
            self.bits - SIGN_BIT
        } else {
            self.bits as int
        }
    }

    pub open spec fn nan(self) -> bool {
        self.magnitude() > INFINITY_BITS
    }

    pub open spec fn finite(self) -> bool {
        self.magnitude() < INFINITY_BITS
    }

    /// The exact number, counted in units of two to the power of minus 1074.
    pub open spec fn units(self) -> int {
        if self.is_negative() {
            -magnitude_units(self.magnitude())
        } else {
            magnitude_units(self.magnitude())
        }
    }

    /// Numerically less; false where either side is not a number.
    pub open spec fn less(self, other: Scalar) -> bool {
        !self.nan() && !other.nan() && self.units() < other.units()
    }

    /// Numerically less or equal; false where either side is not a number.
    pub open spec fn at_most(self, other: Scalar) -> bool {
        !self.nan() && !other.nan() && self.units() <= other.units()
    }

    /// Numerically equal: the two zeros agree, and nothing equals a NaN.
    pub open spec fn equals(self, other: Scalar) -> bool {
        !self.nan() && !other.nan() && self.units() == other.units()
    }

    /// A finite number between zero and one, both included.
    pub open spec fn is_unit_interval(self) -> bool {
        self.finite() && 0 <= self.units() <= units_per_one()
    }
}

/// A larger pattern denotes a larger number.
pub proof fn lemma_magnitude_increasing(a: int, b: int)
    requires
        0 <= a < b,
    ensures
        magnitude_units(a) < magnitude_units(b),
{
    let step = EXPONENT_STEP as int;
    let (ea, fa) = (a / step, a % step);
    let (eb, fb) = (b / step, b % step);
    assert(a == step * ea + fa && b == step * eb + fb && 0 <= fa < step && 0 <= fb < step);
    assert(ea <= eb);
    if eb > 0 {
        lemma_pow2_pos((eb - 1) as nat);
        assert((step + fb) * pow2((eb - 1) as nat) >= step * pow2((eb - 1) as nat)) by {
            lemma_mul_inequality(step, step + fb, pow2((eb - 1) as nat) as int);
        }
        assert(step * pow2((eb - 1) as nat) >= step) by {
            lemma_mul_inequality(1, pow2((eb - 1) as nat) as int, step);
            lemma_mul_is_commutative(step, pow2((eb - 1) as nat) as int);
        }
    }
    if ea == eb {
        assert(fa < fb);
        if ea > 0 {
            lemma_mul_strict_inequality(step + fa, step + fb, pow2((ea - 1) as nat) as int);
        }
    } else if ea > 0 {
        lemma_pow2_pos((ea - 1) as nat);
        lemma_mul_strict_inequality(step + fa, 2 * step, pow2((ea - 1) as nat) as int);
        assert(2 * step * pow2((ea - 1) as nat) == step * pow2(ea as nat)) by {
            lemma_pow2_unfold(ea as nat);
            lemma_mul_is_associative(step, 2, pow2((ea - 1) as nat) as int);
        }
        if ea < eb - 1 {
            lemma_pow2_strictly_increases(ea as nat, (eb - 1) as nat);
        }
        lemma_mul_inequality(pow2(ea as nat) as int, pow2((eb - 1) as nat) as int, step);
        lemma_mul_is_commutative(step, pow2(ea as nat) as int);
        lemma_mul_is_commutative(step, pow2((eb - 1) as nat) as int);
    }
}

/// The pattern zero denotes zero and no other pattern does.
pub proof fn lemma_magnitude_zero(a: int)
    requires
        0 <= a,
    ensures
        magnitude_units(a) >= 0,
        magnitude_units(a) == 0 <==> a == 0,
        magnitude_units(0) == 0,
{
    if a > 0 {
        lemma_magnitude_increasing(0, a);
    }
}

/// One denotes as many units as make one.
pub proof fn lemma_one()
    ensures
        magnitude_units(ONE_BITS as int) == units_per_one(),
{
    assert(ONE_BITS as int / EXPONENT_STEP as int == 1023);
    assert(ONE_BITS as int % EXPONENT_STEP as int == 0);
    assert(EXPONENT_STEP == pow2(52)) by {
        lemma_pow2_adds(32, 20);
        lemma2_to64();
    }
    lemma_pow2_adds(52, 1022);
}

/// Two denotes twice as many units as make one.
pub proof fn lemma_two()
    ensures
        magnitude_units(TWO_BITS as int) == 2 * units_per_one(),
{
    assert(TWO_BITS as int / EXPONENT_STEP as int == 1024);
    assert(TWO_BITS as int % EXPONENT_STEP as int == 0);
    assert(EXPONENT_STEP == pow2(52)) by {
        lemma_pow2_adds(32, 20);
        lemma2_to64();
    }
    lemma_pow2_adds(52, 1023);
    lemma_pow2_unfold(1075);
}

/// Every number of a row is finite.
pub open spec fn all_finite(row: Seq<Scalar>) -> bool {
    forall|i: int| 0 <= i < row.len() ==> (#[trigger] row[i]).finite()
}

/// Whether every number of a row is finite.
pub fn finite_row(row: &Vec<Scalar>) -> (finite: bool)
    ensures
        finite == all_finite(row@),
{
    for i in 0..row.len()
        invariant
            forall|j: int| 0 <= j < i ==> (#[trigger] row@[j]).finite(),
    {
        if !row[i].is_finite() {
            return false;
        }
    }
    true
}

/// A copy of a row.
pub fn row_copy(row: &Vec<Scalar>) -> (copy: Vec<Scalar>)
    ensures
        copy@ == row@,
{
    let mut copy: Vec<Scalar> = Vec::new();
    for i in 0..row.len()
        invariant
            copy@ == row@.take(i as int),
    {
        copy.push(row[i]);
        assert(row@.take(i + 1) == row@.take(i as int).push(row@[i as int]));
    }
    assert(row@.take(row@.len() as int) == row@);
    copy
}

impl Scalar {
    /// The number with the given pattern.
    pub fn from_bits(bits: u64) -> (scalar: Scalar)
        ensures
            scalar.bits == bits,
    {
        Scalar { bits }
    }

    /// The pattern without its sign bit: the pattern of the absolute value.
    pub fn abs(self) -> (absolute: Scalar)
        ensures
            absolute.bits == self.magnitude(),
            !absolute.is_negative(),
    {
        if self.bits >= SIGN_BIT {
            Scalar { bits: self.bits - SIGN_BIT }
        } else {
            self
        }
    }

    /// Neither infinite nor a NaN.
    pub fn is_finite(self) -> (finite: bool)
        ensures
            finite == self.finite(),
    {
        self.abs().bits < INFINITY_BITS
    }

    /// Not a number.
    pub fn is_nan(self) -> (nan: bool)
        ensures
            nan == self.nan(),
    {
        self.abs().bits > INFINITY_BITS
    }

    /// Not below zero.
    pub fn is_at_least_zero(self) -> (nonnegative: bool)
        ensures
            nonnegative == (!self.nan() && self.units() >= 0),
    {
        proof {
            lemma_magnitude_zero(0);
        }
        (Scalar { bits: 0 }).le(self)
    }

    /// Above zero.
    pub fn is_positive(self) -> (positive: bool)
        ensures
            positive == (!self.nan() && self.units() > 0),
    {
        proof {
            lemma_magnitude_zero(0);
        }
        (Scalar { bits: 0 }).lt(self)
    }

    /// Not above one.
    pub fn is_at_most_one(self) -> (small: bool)
        ensures
            small == (!self.nan() && self.units() <= units_per_one()),
    {
        proof {
            lemma_one();
        }
        self.le(Scalar { bits: ONE_BITS })
    }

    /// Between minus one and one, both included.
    pub fn is_within_one(self) -> (within: bool)
        ensures
            within == (!self.nan() && -units_per_one() <= self.units() <= units_per_one()),
    {
        proof {
            lemma_one();
        }
        (Scalar { bits: SIGN_BIT + ONE_BITS }).le(self) && self.le(Scalar { bits: ONE_BITS })
    }

    /// Between minus two and two, both included.
    pub fn is_within_two(self) -> (within: bool)
        ensures
            within == (!self.nan() && -2 * units_per_one() <= self.units() <= 2
                * units_per_one()),
    {
        proof {
            lemma_two();
        }
        (Scalar { bits: SIGN_BIT + TWO_BITS }).le(self) && self.le(Scalar { bits: TWO_BITS })
    }

    /// Numerically less.
    pub fn lt(self, other: Scalar) -> (less: bool)
        ensures
            less == self.less(other),
    {
        let a: u64 = self.abs().bits;
        let b: u64 = other.abs().bits;
        proof {
            lemma_magnitude_zero(a as int);
            lemma_magnitude_zero(b as int);
            if a < b {
                lemma_magnitude_increasing(a as int, b as int);
            }
            if b < a {
                lemma_magnitude_increasing(b as int, a as int);
            }
        }
        if a > INFINITY_BITS || b > INFINITY_BITS {
            false
        } else if self.bits >= SIGN_BIT {
            if other.bits >= SIGN_BIT {
                b < a
            } else {
                a > 0 || b > 0
            }
        } else {
            other.bits < SIGN_BIT && a < b
        }
    }

    /// Numerically less or equal.
    pub fn le(self, other: Scalar) -> (at_most: bool)
        ensures
            at_most == self.at_most(other),
    {
        !self.is_nan() && !other.is_nan() && !other.lt(self)
    }

    /// Numerically equal.
    pub fn same_value(self, other: Scalar) -> (same: bool)
        ensures
            same == self.equals(other),
    {
        self.le(other) && other.le(self)
    }

    /// A finite number between zero and one, both included.
    pub fn in_unit_interval(self) -> (inside: bool)
        ensures
            inside == self.is_unit_interval(),
    {
        proof {
            lemma_one();
            lemma_magnitude_zero(self.magnitude());
            lemma_magnitude_zero(0);
        }
        self.is_finite() && (Scalar { bits: 0 }).le(self) && self.le(Scalar { bits: ONE_BITS })
    }
}


impl Scalar {
    /// A nonnegative integer that does not exceed two to the power of 64.
    pub open spec fn is_whole_u64(self) -> bool {
        &&& self.finite()
        &&& self.units() >= 0
        &&& self.units() % units_per_one() == 0
        &&& self.units() <= pow2(64) * units_per_one()
    }

    /// The integer itself, with two to the power of 64 brought down to `u64::MAX`.
    pub open spec fn whole_u64(self) -> int {
        if self.units() == pow2(64) * units_per_one() {
            u64::MAX as int
        } else {
            self.units() / units_per_one()
        }
    }

    /// The numerically least of the two; a NaN gives way to the other side.
    pub open spec fn least(self, other: Scalar) -> Scalar {
        if self.nan() || other.less(self) {
            other
        } else {
            self
        }
    }

    /// The numerically greatest of the two; a NaN gives way to the other side.
    pub open spec fn greatest(self, other: Scalar) -> Scalar {
        if self.nan() || self.less(other) {
            other
        } else {
            self
        }
    }

    /// The nearest number between zero and one; a NaN stays as it is.
    pub open spec fn clamped(self) -> Scalar {
        if self.nan() {
            self
        } else if self.units() < 0 {
            Scalar { bits: 0 }
        } else if self.units() > units_per_one() {
            Scalar { bits: ONE_BITS }
        } else {
            self
        }
    }
}

/// Two to the given power.
fn power_of_two(exponent: u64) -> (power: u64)
    requires
        exponent < 64,
    ensures
        power == pow2(exponent as nat),
{
    let mut power: u64 = 1;
    let mut done: u64 = 0;
    proof {
        lemma2_to64();
    }
    while done < exponent
        invariant
            done <= exponent < 64,
            power == pow2(done as nat),
        decreases exponent - done,
    {
        proof {
            lemma_pow2_unfold((done + 1) as nat);
            if done + 1 < 63 {
                lemma_pow2_strictly_increases((done + 1) as nat, 63);
            }
            lemma_pow2_unfold(64);
            lemma2_to64();
            lemma2_to64_rest();
        }
        power = power * 2;
        done = done + 1;
    }
    power
}

/// Scaling both sides by a positive factor keeps divisibility and quotient.
proof fn lemma_scaled_division(m: int, d: int, c: int)
    requires
        d > 0,
        c > 0,
        m >= 0,
    ensures
        d * c > 0,
        (m * c) % (d * c) == 0 <==> m % d == 0,
        m % d == 0 ==> (m * c) / (d * c) == m / d,
{
    lemma_mul_strictly_positive(d, c);
    lemma_fundamental_div_mod(m, d);
    let q = m / d;
    let r = m % d;
    assert(m * c == q * (d * c) + r * c) by (nonlinear_arith)
        requires
            m == d * q + r,
    ;
    assert(0 <= r * c < d * c) by (nonlinear_arith)
        requires
            0 <= r < d,
            c > 0,
    ;
    lemma_fundamental_div_mod_converse(m * c, d * c, q, r * c);
    assert(r * c == 0 <==> r == 0) by (nonlinear_arith)
        requires
            c > 0,
    ;
}

impl Scalar {
    /// The integer that this number is, if it is one between zero and two to the
    /// power of 64; the upper end gives `u64::MAX`.
    pub fn to_whole_u64(self) -> (whole: Option<u64>)
        ensures
            whole is Some <==> self.is_whole_u64(),
            whole matches Some(n) ==> n == self.whole_u64(),
    {
        let magnitude: u64 = self.abs().bits;
        let exponent: u64 = magnitude / EXPONENT_STEP;
        let fraction: u64 = magnitude % EXPONENT_STEP;
        proof {
            lemma_magnitude_zero(magnitude as int);
            lemma_pow2_pos(1074);
            lemma_pow2_pos(64);
            assert(EXPONENT_STEP == pow2(52)) by {
                lemma_pow2_adds(32, 20);
                lemma2_to64();
            }
        }
        if magnitude >= INFINITY_BITS {
            return None;
        }
        if magnitude == 0 {
            proof {
                lemma_mul_strictly_positive(pow2(64) as int, units_per_one());
                lemma_small_mod(0, pow2(1074));
                lemma_div_of0(units_per_one());
            }
            return Some(0);
        }
        if self.bits >= SIGN_BIT {
            return None;
        }
        if exponent == 0 {
            proof {
                lemma_pow2_strictly_increases(52, 1074);
                lemma_small_mod(fraction as nat, pow2(1074));
            }
            return None;
        }
        let mantissa: u64 = EXPONENT_STEP + fraction;
        let ghost scale = pow2((exponent - 1) as nat) as int;
        assert(self.units() == mantissa * scale);
        proof {
            lemma_pow2_pos((exponent - 1) as nat);
            assert(2 * EXPONENT_STEP == pow2(53)) by {
                lemma_pow2_unfold(53);
            }
        }
        if exponent >= 1075 {
            let shift: u64 = exponent - 1075;
            let ghost factor = pow2(shift as nat) as int;
            proof {
                lemma_pow2_pos(shift as nat);
                lemma_pow2_adds(shift as nat, 1074);
                lemma_mul_is_associative(mantissa as int, factor, units_per_one());
                assert(self.units() == (mantissa * factor) * units_per_one());
                lemma_pow2_adds(52, 12);
            }
            if shift >= 12 {
                proof {
                    if shift > 12 {
                        lemma_pow2_strictly_increases(12, shift as nat);
                    }
                    assert(mantissa * factor >= pow2(64)) by (nonlinear_arith)
                        requires
                            mantissa >= pow2(52),
                            factor >= pow2(12),
                            pow2(64) == pow2(52) * pow2(12),
                    ;
                    assert(shift > 12 || fraction > 0 ==> mantissa * factor > pow2(64))
                        by (nonlinear_arith)
                        requires
                            mantissa == pow2(52) + fraction,
                            shift > 12 ==> factor > pow2(12),
                            factor >= pow2(12) > 0,
                            fraction >= 0,
                            pow2(52) > 0,
                            pow2(64) == pow2(52) * pow2(12),
                    ;
                    if mantissa * factor > pow2(64) {
                        lemma_mul_strict_inequality(
                            pow2(64) as int,
                            mantissa * factor,
                            units_per_one(),
                        );
                    }
                    lemma_mod_multiples_basic(mantissa * factor, units_per_one());
                }
                if shift == 12 && fraction == 0 {
                    return Some(u64::MAX);
                }
                return None;
            }
            let power: u64 = power_of_two(shift);
            proof {
                if shift < 11 {
                    lemma_pow2_strictly_increases(shift as nat, 11);
                }
                lemma_pow2_adds(53, 11);
                assert(mantissa * factor < pow2(64)) by (nonlinear_arith)
                    requires
                        0 < mantissa < pow2(53),
                        0 < factor <= pow2(11),
                        pow2(64) == pow2(53) * pow2(11),
                ;
                lemma2_to64();
                lemma_mod_multiples_basic(mantissa * factor, units_per_one());
                lemma_div_multiples_vanish(mantissa * factor, units_per_one());
                lemma_mul_strict_inequality(mantissa * factor, pow2(64) as int, units_per_one());
            }
            return Some(mantissa * power);
        }
        let shift: u64 = 1075 - exponent;
        let ghost divisor = pow2(shift as nat) as int;
        proof {
            lemma_pow2_pos(shift as nat);
            lemma_pow2_adds(shift as nat, (exponent - 1) as nat);
            assert(units_per_one() == divisor * scale);
            lemma_scaled_division(mantissa as int, divisor, scale);
        }
        if shift >= 53 {
            proof {
                if shift > 53 {
                    lemma_pow2_strictly_increases(53, shift as nat);
                }
                lemma_small_mod(mantissa as nat, pow2(shift as nat));
            }
            return None;
        }
        let power: u64 = power_of_two(shift);
        proof {
            assert(self.units() <= pow2(53) * units_per_one()) by (nonlinear_arith)
                requires
                    self.units() == mantissa * scale,
                    mantissa <= pow2(53),
                    units_per_one() == divisor * scale,
                    divisor >= 1,
                    scale > 0,
            ;
            lemma_pow2_strictly_increases(53, 64);
            lemma_mul_strict_inequality(pow2(53) as int, pow2(64) as int, units_per_one());
        }
        if mantissa % power == 0 {
            Some(mantissa / power)
        } else {
            None
        }
    }

    /// The numerically least of the two.
    pub fn min(self, other: Scalar) -> (least: Scalar)
        ensures
            least == self.least(other),
    {
        if self.is_nan() || other.lt(self) {
            other
        } else {
            self
        }
    }

    /// The numerically greatest of the two.
    pub fn max(self, other: Scalar) -> (greatest: Scalar)
        ensures
            greatest == self.greatest(other),
    {
        if self.is_nan() || self.lt(other) {
            other
        } else {
            self
        }
    }

    /// The nearest number between zero and one.
    pub fn clamp_unit(self) -> (clamped: Scalar)
        ensures
            clamped == self.clamped(),
    {
        proof {
            lemma_one();
            lemma_magnitude_zero(0);
        }
        if self.lt(Scalar { bits: 0 }) {
            Scalar { bits: 0 }
        } else if (Scalar { bits: ONE_BITS }).lt(self) {
            Scalar { bits: ONE_BITS }
        } else {
            self
        }
    }
}

/// Clamping leaves nothing outside the unit interval but a NaN, and moves
/// nothing that was inside.
pub proof fn clamping_lands_in_the_unit_interval(x: Scalar)
    ensures
        !x.nan() ==> x.clamped().is_unit_interval(),
        x.is_unit_interval() ==> x.clamped() == x,
{
    lemma_one();
    lemma_magnitude_zero(0);
    lemma_magnitude_zero(x.magnitude());
    assert(units_per_one() > 0) by {
        lemma_pow2_pos(1074);
    }
    if x.magnitude() == INFINITY_BITS {
        lemma_magnitude_increasing(ONE_BITS as int, INFINITY_BITS as int);
    }
}

/// Numbers are totally ordered as long as none of them is a NaN.
pub proof fn comparison_is_total(a: Scalar, b: Scalar)
    requires
        !a.nan(),
        !b.nan(),
    ensures
        a.less(b) || b.less(a) || a.equals(b),
        a.at_most(b) <==> a.less(b) || a.equals(b),
        a.less(b) ==> !b.at_most(a),
{
}

/// Numbers are ordered by their patterns: those without a sign as the patterns are,
/// those with one the other way round and before all others, and the two zeros as
/// one number. A NaN compares with nothing.
pub proof fn numbers_are_ordered_by_their_patterns(a: Scalar, b: Scalar)
    ensures
        ({
            let sign = 0x8000_0000_0000_0000int;
            let (low, high) = (a.bits as int % sign, b.bits as int % sign);
            let number = low <= 0x7FF0_0000_0000_0000 && high <= 0x7FF0_0000_0000_0000;
            let before = if a.bits >= sign && b.bits >= sign {
                high < low
            } else if a.bits >= sign {
                low > 0 || high > 0
            } else if b.bits >= sign {
                false
            } else {
                low < high
            };
            let same = a.bits == b.bits || low == 0 && high == 0;
            &&& a.less(b) <==> number && before
            &&& a.at_most(b) <==> number && (before || same)
            &&& a.equals(b) <==> number && same
        }),
{
    let sign = 0x8000_0000_0000_0000int;
    let (low, high) = (a.magnitude(), b.magnitude());
    assert(a.bits as int % sign == low && b.bits as int % sign == high);
    lemma_magnitude_zero(low);
    lemma_magnitude_zero(high);
    if low < high {
        lemma_magnitude_increasing(low, high);
    }
    if high < low {
        lemma_magnitude_increasing(high, low);
    }
}

/// A pattern is that of a finite number unless its eleven exponent bits are all set;
/// where they are, it is infinite without a fraction and a NaN with one.
pub proof fn exponents_tell_finite_numbers(a: Scalar)
    ensures
        ({
            let exponent = (a.bits as int / 0x10_0000_0000_0000) % 0x800;
            let fraction = a.bits as int % 0x10_0000_0000_0000;
            &&& a.finite() <==> exponent != 0x7FF
            &&& a.nan() <==> exponent == 0x7FF && fraction != 0
        }),
{
    let bits = a.bits as int;
    let (q, fraction) = (bits / 0x10_0000_0000_0000, bits % 0x10_0000_0000_0000);
    assert(bits == 0x10_0000_0000_0000 * q + fraction && 0 <= q < 0x1000);
    if q >= 0x800 {
        assert(q % 0x800 == q - 0x800);
    } else {
        assert(q % 0x800 == q);
    }
}

/// The least and the greatest of two numbers are one of the two, and bound both; a
/// NaN gives way to a number.
pub proof fn extremes_are_one_of_the_two(a: Scalar, b: Scalar)
    ensures
        a.least(b) == a || a.least(b) == b,
        a.greatest(b) == a || a.greatest(b) == b,
        a.nan() ==> a.least(b) == b && a.greatest(b) == b,
        b.nan() && !a.nan() ==> a.least(b) == a && a.greatest(b) == a,
        !a.nan() && !b.nan() ==> {
            &&& a.least(b).at_most(a) && a.least(b).at_most(b)
            &&& a.at_most(a.greatest(b)) && b.at_most(a.greatest(b))
        },
{
}

/// Clamping moves what is below zero to zero and what is above one to one, leaves
/// what is between as it is, and keeps the order of any two numbers.
pub proof fn clamping_moves_only_what_is_outside(a: Scalar, b: Scalar)
    requires
        !a.nan(),
    ensures
        a.less(Scalar { bits: 0 }) ==> a.clamped().bits == 0,
        (Scalar { bits: 0x3FF0_0000_0000_0000 }).less(a) ==> a.clamped().bits
            == 0x3FF0_0000_0000_0000,
        !a.less(Scalar { bits: 0 }) && !(Scalar { bits: 0x3FF0_0000_0000_0000 }).less(a)
            ==> a.clamped() == a,
        b.nan() ==> b.clamped() == b,
        a.at_most(b) ==> a.clamped().at_most(b.clamped()),
{
    lemma_one();
    lemma_magnitude_zero(0);
    lemma_magnitude_zero(ONE_BITS as int);
    clamping_lands_in_the_unit_interval(a);
    if !b.nan() {
        clamping_lands_in_the_unit_interval(b);
    }
}

/// A double that is read as a count is that whole number: it is not negative, has no
/// fraction and does not exceed two to the power of 64, and only that last power is
/// brought down to the greatest count.
pub proof fn counts_are_the_numbers_they_were(x: Scalar)
    ensures
        x.is_whole_u64() && x.units() < 0x1_0000_0000_0000_0000 * pow2(1074) ==> x.whole_u64()
            * pow2(1074) == x.units() && 0 <= x.whole_u64() <= u64::MAX,
        x.is_whole_u64() && x.units() >= 0x1_0000_0000_0000_0000 * pow2(1074) ==> x.whole_u64()
            == u64::MAX && x.units() == 0x1_0000_0000_0000_0000 * pow2(1074),
        x.is_whole_u64() <==> !x.nan() && x.finite() && 0 <= x.units() <= 0x1_0000_0000_0000_0000
            * pow2(1074) && x.units() % (pow2(1074) as int) == 0,
{
    let one = pow2(1074) as int;
    lemma_pow2_pos(1074);
    lemma2_to64();
    lemma2_to64_rest();
    if x.is_whole_u64() && x.units() < 0x1_0000_0000_0000_0000 * one {
        let whole = x.units() / one;
        lemma_fundamental_div_mod(x.units(), one);
        assert(whole * one == x.units()) by {
            lemma_mul_is_commutative(one, whole);
        }
        assert(0 <= whole < 0x1_0000_0000_0000_0000) by (nonlinear_arith)
            requires
                whole * one >= 0,
                whole * one < 0x1_0000_0000_0000_0000 * one,
                one > 0,
        ;
    }
}

} // verus!
