//! Binary floating point by its encodings.
//!
//! Host tempo, musical position, audio samples and editor coordinates reach
//! the library as the bit patterns of binary interchange numbers. The
//! operations here take those patterns apart, compute on integers and round
//! once, half to even, as the formats prescribe.

use crate::rounding::{encode, power_of_two};
use vstd::arithmetic::div_mod::*;
use vstd::arithmetic::mul::*;
use vstd::arithmetic::power2::*;
use vstd::prelude::*;

verus! {

/// The two binary interchange formats in use.
#[derive(Clone, Copy, Debug, PartialEq, Eq, Structural)]
pub enum Format {
    /// Single precision.
    Binary32,
    /// Double precision.
    Binary64,
}

impl Format {
    /// Significant bits of a normal number.
    pub open spec fn precision(self) -> nat {
        match self {
            Format::Binary32 => 24,
            Format::Binary64 => 53,
        }
    }

    /// One is `2^one_exponent` steps of the smallest positive number.
    pub open spec fn one_exponent(self) -> nat {
        match self {
            Format::Binary32 => 149,
            Format::Binary64 => 1074,
        }
    }

    /// The number of steps in one.
    pub open spec fn one(self) -> nat {
        pow2(self.one_exponent())
    }

    /// The magnitude encoding of infinity; larger ones are not numbers.
    pub open spec fn infinity(self) -> nat {
        match self {
            Format::Binary32 => 0x7f80_0000,
            Format::Binary64 => 0x7ff0_0000_0000_0000,
        }
    }

    /// The magnitude encoding of the quiet not-a-number results.
    pub open spec fn quiet_nan(self) -> nat {
        match self {
            Format::Binary32 => 0x7fc0_0000,
            Format::Binary64 => 0x7ff8_0000_0000_0000,
        }
    }

    fn precision_bits(self) -> (bits: u32)
        ensures
            bits == self.precision(),
    {
        match self {
            Format::Binary32 => 24,
            Format::Binary64 => 53,
        }
    }

    fn one_bits(self) -> (bits: u32)
        ensures
            bits == self.one_exponent(),
    {
        match self {
            Format::Binary32 => 149,
            Format::Binary64 => 1074,
        }
    }

    fn infinity_bits(self) -> (bits: u64)
        ensures
            bits == self.infinity(),
    {
        match self {
            Format::Binary32 => 0x7f80_0000,
            Format::Binary64 => 0x7ff0_0000_0000_0000,
        }
    }

    fn quiet_nan_bits(self) -> (bits: u64)
        ensures
            bits == self.quiet_nan(),
    {
        match self {
            Format::Binary32 => 0x7fc0_0000,
            Format::Binary64 => 0x7ff8_0000_0000_0000,
        }
    }

    fn lead_bits(self) -> (bits: u64)
        ensures
            bits == pow2((self.precision() - 1) as nat),
            2 * bits == pow2(self.precision()),
            bits > 0,
    {
        proof {
            lemma2_to64();
            lemma2_to64_rest();
        }
        match self {
            Format::Binary32 => 0x80_0000,
            Format::Binary64 => 0x10_0000_0000_0000,
        }
    }
}

/// A sign and a magnitude encoding, the two parts of an interchange pattern.
#[derive(Clone, Copy, Debug, PartialEq, Eq, Structural)]
pub struct Datum {
    /// Whether the sign bit is set.
    pub negative: bool,
    /// The pattern without its sign bit.
    pub magnitude: u64,
}

impl Datum {
    /// Not a number.
    pub open spec fn nan(self, format: Format) -> bool {
        self.magnitude > format.infinity()
    }

    /// Neither infinite nor not-a-number.
    pub open spec fn finite(self, format: Format) -> bool {
        self.magnitude < format.infinity()
    }

    /// Positive or negative infinity.
    pub open spec fn infinite(self, format: Format) -> bool {
        self.magnitude == format.infinity()
    }

    /// The absolute value of a finite datum, in steps.
    pub open spec fn steps(self, format: Format) -> nat {
        crate::rounding::decoded_steps(self.magnitude as nat, format.precision())
    }

    /// The value of a finite datum, in steps.
    pub open spec fn value(self, format: Format) -> int {
        signed(self.negative, self.steps(format))
    }

    /// The position of a datum that is a number in the order of all of them.
    pub open spec fn key(self) -> int {
        if self.negative {
            -(self.magnitude as int)
        } else {
            self.magnitude as int
        }
    }

    /// The quiet not-a-number result.
    pub open spec fn invalid(format: Format) -> Datum {
        Datum { negative: false, magnitude: format.quiet_nan() as u64 }
    }

    /// Infinity with a sign.
    pub open spec fn overflowed(format: Format, negative: bool) -> Datum {
        Datum { negative, magnitude: format.infinity() as u64 }
    }

    /// Zero with a sign.
    pub open spec fn zero(negative: bool) -> Datum {
        Datum { negative, magnitude: 0 }
    }

    /// The datum nearest to `num / den` steps, ties to the even encoding.
    pub open spec fn rounded(format: Format, negative: bool, num: nat, den: nat) -> Datum {
        Datum {
            negative,
            magnitude: crate::rounding::bounded(
                crate::rounding::encoded_ratio(num, den, format.precision()),
                format.infinity(),
            ) as u64,
        }
    }

    /// The integer `whole`; a zero takes the sign given.
    pub open spec fn integer(format: Format, whole: int, zero_negative: bool) -> Datum {
        if whole == 0 {
            Datum::zero(zero_negative)
        } else if whole < 0 {
            Datum::rounded(format, true, (-whole) as nat * format.one(), 1)
        } else {
            Datum::rounded(format, false, whole as nat * format.one(), 1)
        }
    }

    /// The sum of two data.
    pub open spec fn sum(format: Format, a: Datum, b: Datum) -> Datum {
        if a.nan(format) || b.nan(format) {
            Datum::invalid(format)
        } else if a.infinite(format) && b.infinite(format) {
            if a.negative == b.negative {
                a
            } else {
                Datum::invalid(format)
            }
        } else if a.infinite(format) {
            a
        } else if b.infinite(format) {
            b
        } else {
            let exact = a.value(format) + b.value(format);
            if exact == 0 {
                Datum::zero(a.negative && b.negative)
            } else if exact < 0 {
                Datum::rounded(format, true, (-exact) as nat, 1)
            } else {
                Datum::rounded(format, false, exact as nat, 1)
            }
        }
    }

    /// The product of two data.
    pub open spec fn product(format: Format, a: Datum, b: Datum) -> Datum {
        let negative = a.negative != b.negative;
        if a.nan(format) || b.nan(format) {
            Datum::invalid(format)
        } else if a.infinite(format) || b.infinite(format) {
            if a.magnitude == 0 || b.magnitude == 0 {
                Datum::invalid(format)
            } else {
                Datum::overflowed(format, negative)
            }
        } else {
            Datum::rounded(format, negative, a.steps(format) * b.steps(format), format.one())
        }
    }

    /// The quotient of two data.
    pub open spec fn quotient(format: Format, a: Datum, b: Datum) -> Datum {
        let negative = a.negative != b.negative;
        if a.nan(format) || b.nan(format) {
            Datum::invalid(format)
        } else if a.infinite(format) {
            if b.infinite(format) {
                Datum::invalid(format)
            } else {
                Datum::overflowed(format, negative)
            }
        } else if b.infinite(format) {
            Datum::zero(negative)
        } else if b.magnitude == 0 {
            if a.magnitude == 0 {
                Datum::invalid(format)
            } else {
                Datum::overflowed(format, negative)
            }
        } else {
            Datum::rounded(format, negative, a.steps(format) * format.one(), b.steps(format))
        }
    }

    /// The remainder of a truncated division, with the sign of the dividend.
    pub open spec fn remainder(format: Format, a: Datum, b: Datum) -> Datum {
        if a.nan(format) || b.nan(format) || a.infinite(format) || b.magnitude == 0 {
            Datum::invalid(format)
        } else if b.infinite(format) {
            a
        } else {
            Datum::rounded(format, a.negative, a.steps(format) % b.steps(format), 1)
        }
    }

    /// The integer part of the absolute value of a finite datum.
    pub open spec fn whole(self, format: Format) -> nat {
        self.steps(format) / format.one()
    }

    /// The largest integer not above a finite datum; other data as they are.
    pub open spec fn floored(self, format: Format) -> Datum {
        if self.finite(format) {
            Datum::integer(format, self.floor_whole(format), self.negative)
        } else {
            self
        }
    }

    /// The smallest integer not below a finite datum; other data as they are.
    pub open spec fn ceiled(self, format: Format) -> Datum {
        if self.finite(format) {
            Datum::integer(format, self.ceil_whole(format), self.negative)
        } else {
            self
        }
    }

    /// The largest integer not above a finite datum.
    pub open spec fn floor_whole(self, format: Format) -> int {
        self.value(format) / (format.one() as int)
    }

    /// The smallest integer not below a finite datum.
    pub open spec fn ceil_whole(self, format: Format) -> int {
        -(-self.value(format) / (format.one() as int))
    }

    /// The nearest integer, ties away from zero; other data as they are.
    pub open spec fn half_away(self, format: Format) -> Datum {
        if self.finite(format) {
            let nearest = (2 * self.steps(format) + format.one()) / (2 * format.one());
            Datum::integer(format, signed(self.negative, nearest), self.negative)
        } else {
            self
        }
    }

    /// Truncation to an integer within bounds; not-a-number gives zero.
    pub open spec fn saturated(self, format: Format, low: int, high: int) -> int {
        if self.nan(format) {
            0
        } else if self.infinite(format) {
            if self.negative {
                low
            } else {
                high
            }
        } else {
            let whole = signed(self.negative, self.whole(format));
            if whole < low {
                low
            } else if whole > high {
                high
            } else {
                whole
            }
        }
    }

    /// A double brought to single precision.
    pub open spec fn narrowed(self) -> Datum {
        if self.nan(Format::Binary64) {
            Datum::invalid(Format::Binary32)
        } else if self.infinite(Format::Binary64) {
            Datum::overflowed(Format::Binary32, self.negative)
        } else {
            Datum::rounded(
                Format::Binary32,
                self.negative,
                self.steps(Format::Binary64),
                pow2(925),
            )
        }
    }

    /// A single brought to double precision.
    pub open spec fn widened(self) -> Datum {
        if self.nan(Format::Binary32) {
            Datum::invalid(Format::Binary64)
        } else if self.infinite(Format::Binary32) {
            Datum::overflowed(Format::Binary64, self.negative)
        } else {
            Datum::rounded(
                Format::Binary64,
                self.negative,
                self.steps(Format::Binary32) * pow2(925),
                1,
            )
        }
    }

    /// `a < b`, false when either is not a number.
    pub open spec fn below(format: Format, a: Datum, b: Datum) -> bool {
        !a.nan(format) && !b.nan(format) && a.key() < b.key()
    }

    /// `a <= b`, false when either is not a number.
    pub open spec fn at_most(format: Format, a: Datum, b: Datum) -> bool {
        !a.nan(format) && !b.nan(format) && a.key() <= b.key()
    }

    /// Compare two data.
    pub fn less(format: Format, a: Datum, b: Datum) -> (result: bool)
        ensures
            result == Datum::below(format, a, b),
    {
        let infinity: u64 = format.infinity_bits();
        if a.magnitude > infinity || b.magnitude > infinity {
            return false;
        }
        if a.negative {
            if b.negative {
                b.magnitude < a.magnitude
            } else {
                a.magnitude != 0 || b.magnitude != 0
            }
        } else {
            !b.negative && a.magnitude < b.magnitude
        }
    }

    /// Compare two data.
    pub fn less_or_equal(format: Format, a: Datum, b: Datum) -> (result: bool)
        ensures
            result == Datum::at_most(format, a, b),
    {
        let infinity: u64 = format.infinity_bits();
        if a.magnitude > infinity || b.magnitude > infinity {
            return false;
        }
        if a.negative {
            !b.negative || b.magnitude <= a.magnitude
        } else if b.negative {
            a.magnitude == 0 && b.magnitude == 0
        } else {
            a.magnitude <= b.magnitude
        }
    }

    /// Split a finite datum into a significand and a power of two.
    pub(crate) fn parts(self, format: Format) -> (parts: (u64, u32))
        requires
            self.finite(format),
        ensures
            self.steps(format) == parts.0 * pow2(parts.1 as nat),
            parts.0 < pow2(format.precision()),
            parts.1 > 0 ==> parts.0 >= pow2((format.precision() - 1) as nat),
            parts.1 <= 2045,
            format == Format::Binary32 ==> parts.1 <= 253,
            parts.0 == 0 <==> self.magnitude == 0,
    {
        let lead: u64 = format.lead_bits();
        let field: u64 = self.magnitude / lead;
        proof {
            lemma2_to64();
            lemma2_to64_rest();
            lemma_fundamental_div_mod(self.magnitude as int, lead as int);
            lemma_mod_pos_bound(self.magnitude as int, lead as int);
            assert(field < 2047) by (nonlinear_arith)
                requires
                    self.magnitude == lead * field + self.magnitude % lead,
                    self.magnitude % lead >= 0,
                    lead > 0,
                    self.magnitude < 2047 * lead,
            ;
            if format == Format::Binary32 {
                assert(field < 255) by (nonlinear_arith)
                    requires
                        self.magnitude == lead * field + self.magnitude % lead,
                        self.magnitude % lead >= 0,
                        lead > 0,
                        self.magnitude < 255 * lead,
                ;
            }
        }
        if field <= 1 {
            proof {
                assert(self.magnitude < 2 * lead) by (nonlinear_arith)
                    requires
                        self.magnitude == lead * field + self.magnitude % lead,
                        self.magnitude % lead < lead,
                        field <= 1,
                ;
                assert(self.magnitude * pow2(0) == self.magnitude) by (nonlinear_arith)
                    requires
                        pow2(0) == 1,
                ;
            }
            (self.magnitude, 0)
        } else {
            (self.magnitude % lead + lead, (field - 1) as u32)
        }
    }

    /// Multiply two data.
    pub fn multiply(format: Format, a: Datum, b: Datum) -> (result: Datum)
        ensures
            result == Datum::product(format, a, b),
    {
        let infinity: u64 = format.infinity_bits();
        let negative: bool = a.negative != b.negative;
        if a.magnitude > infinity || b.magnitude > infinity {
            return Datum { negative: false, magnitude: format.quiet_nan_bits() };
        }
        if a.magnitude == infinity || b.magnitude == infinity {
            if a.magnitude == 0 || b.magnitude == 0 {
                return Datum { negative: false, magnitude: format.quiet_nan_bits() };
            }
            return Datum { negative, magnitude: infinity };
        }
        let (a_digits, a_power): (u64, u32) = a.parts(format);
        let (b_digits, b_power): (u64, u32) = b.parts(format);
        let one: u32 = format.one_bits();
        proof {
            lemma2_to64();
            lemma2_to64_rest();
            assert(a_digits * b_digits < 0x20_0000_0000_0000 * 0x20_0000_0000_0000)
                by (nonlinear_arith)
                requires
                    0 <= a_digits < 0x20_0000_0000_0000,
                    0 <= b_digits < 0x20_0000_0000_0000,
            ;
        }
        let mantissa: u128 = a_digits as u128 * b_digits as u128;
        let joint: u32 = a_power + b_power;
        let up: u32 = if joint >= one {
            joint - one
        } else {
            0
        };
        let down: u32 = if joint >= one {
            0
        } else {
            one - joint
        };
        proof {
            let num = a.steps(format) * b.steps(format);
            let den = format.one();
            lemma_pow2_pos(one as nat);
            lemma_pow2_adds(a_power as nat, b_power as nat);
            lemma_pow2_adds(one as nat, up as nat);
            lemma_pow2_adds(joint as nat, down as nat);
            assert(num * pow2(down as nat) == mantissa * (den * pow2(up as nat)))
                by (nonlinear_arith)
                requires
                    num == (a_digits * pow2(a_power as nat)) * (b_digits * pow2(b_power as nat)),
                    mantissa == a_digits * b_digits,
                    pow2(joint as nat) == pow2(a_power as nat) * pow2(b_power as nat),
                    pow2(joint as nat) * pow2(down as nat) == den * pow2(up as nat),
            ;
            lemma_pow2_pos(up as nat);
            assert(den * pow2(up as nat) > 0) by (nonlinear_arith)
                requires
                    den > 0,
                    pow2(up as nat) > 0,
            ;
            lemma_bracketed_exact(num, den, mantissa as nat, up as nat, down as nat);
        }
        let magnitude: u64 = encode(
            mantissa,
            false,
            up,
            down,
            format.precision_bits(),
            infinity,
        );
        Datum { negative, magnitude }
    }

    /// Divide one datum by another.
    pub fn divide(format: Format, a: Datum, b: Datum) -> (result: Datum)
        ensures
            result == Datum::quotient(format, a, b),
    {
        let infinity: u64 = format.infinity_bits();
        let negative: bool = a.negative != b.negative;
        if a.magnitude > infinity || b.magnitude > infinity {
            return Datum { negative: false, magnitude: format.quiet_nan_bits() };
        }
        if a.magnitude == infinity {
            if b.magnitude == infinity {
                return Datum { negative: false, magnitude: format.quiet_nan_bits() };
            }
            return Datum { negative, magnitude: infinity };
        }
        if b.magnitude == infinity {
            return Datum { negative, magnitude: 0 };
        }
        if b.magnitude == 0 {
            if a.magnitude == 0 {
                return Datum { negative: false, magnitude: format.quiet_nan_bits() };
            }
            return Datum { negative, magnitude: infinity };
        }
        let (a_digits, a_power): (u64, u32) = a.parts(format);
        let (b_digits, b_power): (u64, u32) = b.parts(format);
        let one: u32 = format.one_bits();
        proof {
            lemma2_to64();
            lemma2_to64_rest();
            lemma_pow2_adds(64, 2);
        }
        // Bring the dividend to full width, then make room for the quotient.
        let (wide, widened): (u64, u32) = widen_digits(a_digits);
        let mantissa: u128 = (wide as u128 * 0x4_0000_0000_0000_0000u128) / b_digits as u128;
        let inexact: bool = (wide as u128 * 0x4_0000_0000_0000_0000u128) % b_digits as u128 != 0;
        let lifted: u32 = a_power + one;
        let sunk: u32 = b_power + widened + 66;
        let up: u32 = if lifted >= sunk {
            lifted - sunk
        } else {
            0
        };
        let down: u32 = if lifted >= sunk {
            0
        } else {
            sunk - lifted
        };
        proof {
            let scaled = wide as nat * 0x4_0000_0000_0000_0000;
            lemma_fundamental_div_mod(scaled as int, b_digits as int);
            lemma_mod_pos_bound(scaled as int, b_digits as int);
            assert(mantissa <= scaled) by (nonlinear_arith)
                requires
                    scaled == b_digits * mantissa + scaled % (b_digits as nat),
                    scaled % (b_digits as nat) >= 0,
                    b_digits >= 1,
            ;
            lemma_pow2_adds(widened as nat, 66);
            assert(scaled == a_digits * pow2((widened + 66) as nat)) by (nonlinear_arith)
                requires
                    scaled == wide * pow2(66),
                    wide == a_digits * pow2(widened as nat),
                    pow2((widened + 66) as nat) == pow2(widened as nat) * pow2(66),
            ;
            lemma_bracketed_quotient(
                a.steps(format) * format.one(),
                b.steps(format),
                a_digits as nat,
                b_digits as nat,
                scaled,
                (widened + 66) as nat,
                mantissa as nat,
                a_power as nat,
                b_power as nat,
                one as nat,
                up as nat,
                down as nat,
            );
            if inexact {
                assert(wide > 0);
                assert(mantissa >= 0x40_0000_0000_0000) by (nonlinear_arith)
                    requires
                        scaled == b_digits * mantissa + scaled % (b_digits as nat),
                        scaled % (b_digits as nat) < b_digits,
                        b_digits < 0x20_0000_0000_0000,
                        scaled >= 0x10_0000_0000_0000 * 0x4_0000_0000_0000_0000,
                ;
                if format == Format::Binary32 {
                    lemma_pow2_strictly_increases(25, 54);
                }
            }
        }
        let magnitude: u64 = encode(
            mantissa,
            inexact,
            up,
            down,
            format.precision_bits(),
            infinity,
        );
        Datum { negative, magnitude }
    }

    /// Add two data.
    pub fn plus(format: Format, a: Datum, b: Datum) -> (result: Datum)
        ensures
            result == Datum::sum(format, a, b),
    {
        let infinity: u64 = format.infinity_bits();
        if a.magnitude > infinity || b.magnitude > infinity {
            return Datum { negative: false, magnitude: format.quiet_nan_bits() };
        }
        if a.magnitude == infinity && b.magnitude == infinity {
            if a.negative == b.negative {
                return a;
            }
            return Datum { negative: false, magnitude: format.quiet_nan_bits() };
        }
        if a.magnitude == infinity {
            return a;
        }
        if b.magnitude == infinity {
            return b;
        }
        let (a_digits, a_power): (u64, u32) = a.parts(format);
        let (b_digits, b_power): (u64, u32) = b.parts(format);
        if a_power >= b_power {
            Datum::plus_aligned(format, a.negative, a_digits, a_power, b.negative, b_digits, b_power)
        } else {
            Datum::plus_aligned(format, b.negative, b_digits, b_power, a.negative, a_digits, a_power)
        }
    }

    /// Add two finite numbers given by their parts, the larger power first.
    fn plus_aligned(
        format: Format,
        high_negative: bool,
        high: u64,
        high_power: u32,
        low_negative: bool,
        low: u64,
        low_power: u32,
    ) -> (result: Datum)
        requires
            low_power <= high_power <= 2045,
            high < pow2(format.precision()),
            low < pow2(format.precision()),
            high_power > 0 ==> high >= pow2((format.precision() - 1) as nat),
        ensures
            ({
                let exact = signed(high_negative, (high * pow2(high_power as nat)) as nat)
                    + signed(low_negative, (low * pow2(low_power as nat)) as nat);
                result == if exact == 0 {
                    Datum::zero(high_negative && low_negative)
                } else if exact < 0 {
                    Datum::rounded(format, true, (-exact) as nat, 1)
                } else {
                    Datum::rounded(format, false, exact as nat, 1)
                }
            }),
    {
        let gap: u32 = high_power - low_power;
        proof {
            lemma2_to64();
            lemma2_to64_rest();
            lemma_pow2_adds(low_power as nat, gap as nat);
            lemma_pow2_pos(low_power as nat);
            lemma_pow2_pos(high_power as nat);
        }
        let ghost base = pow2(low_power as nat);
        let ghost high_steps = high * pow2(high_power as nat);
        let ghost low_steps = low * base;
        let ghost exact = signed(high_negative, high_steps as nat) + signed(
            low_negative,
            low_steps as nat,
        );
        if gap <= 64 {
            let block: u128 = power_of_two(gap);
            proof {
                if gap < 64 {
                    lemma_pow2_strictly_increases(gap as nat, 64);
                }
                assert(high * block <= 0x20_0000_0000_0000 * 0x1_0000_0000_0000_0000)
                    by (nonlinear_arith)
                    requires
                        0 <= high <= 0x20_0000_0000_0000,
                        0 <= block <= 0x1_0000_0000_0000_0000,
                ;
            }
            let lifted: u128 = high as u128 * block;
            let (negative, mantissa): (bool, u128) = if high_negative == low_negative {
                (high_negative, lifted + low as u128)
            } else if lifted >= low as u128 {
                (high_negative, lifted - low as u128)
            } else {
                (low_negative, low as u128 - lifted)
            };
            proof {
                assert(high_steps == lifted * base) by (nonlinear_arith)
                    requires
                        high_steps == high * pow2(high_power as nat),
                        pow2(high_power as nat) == base * block,
                        lifted == high * block,
                ;
                assert(lifted * base + low * base == (lifted + low) * base) by (nonlinear_arith);
                assert(lifted * base - low * base == (lifted - low) * base) by (nonlinear_arith);
                assert((low - lifted) * base == -((lifted - low) * base)) by (nonlinear_arith);
                assert(mantissa * base == 0 <==> mantissa == 0) by (nonlinear_arith)
                    requires
                        base > 0,
                ;
                assert(mantissa * base >= 0) by (nonlinear_arith)
                    requires
                        base > 0,
                        mantissa >= 0,
                ;
                assert(exact == signed(negative, (mantissa * base) as nat));
                assert((mantissa * base) * pow2(0) == mantissa * (1 * base)) by (nonlinear_arith)
                    requires
                        pow2(0) == 1,
                ;
                lemma_bracketed_exact(
                    (mantissa * base) as nat,
                    1,
                    mantissa as nat,
                    low_power as nat,
                    0,
                );
            }
            if mantissa == 0 {
                return Datum { negative: high_negative && low_negative, magnitude: 0 };
            }
            let magnitude: u64 = encode(
                mantissa,
                false,
                low_power,
                0,
                format.precision_bits(),
                format.infinity_bits(),
            );
            return Datum { negative, magnitude };
        }
        // The low operand is less than a quarter of a unit of this mantissa.
        let lifted: u128 = high as u128 * 1024;
        let inexact: bool = low != 0;
        let mantissa: u128 = if inexact && high_negative != low_negative {
            lifted - 1
        } else {
            lifted
        };
        let up: u32 = high_power - 10;
        proof {
            let unit = pow2(up as nat);
            lemma_pow2_adds(up as nat, 10);
            lemma_pow2_pos(up as nat);
            assert(high_steps == lifted * unit) by (nonlinear_arith)
                requires
                    high_steps == high * pow2(high_power as nat),
                    pow2(high_power as nat) == unit * 1024,
                    lifted == high * 1024,
            ;
            let rise = (up - low_power) as nat;
            lemma_pow2_adds(low_power as nat, rise);
            if rise > 54 {
                lemma_pow2_strictly_increases(54, rise);
            }
            assert(low_steps < unit) by (nonlinear_arith)
                requires
                    low_steps == low * base,
                    low < 0x20_0000_0000_0000,
                    base > 0,
                    unit == base * pow2(rise),
                    pow2(rise) >= 0x40_0000_0000_0000,
            ;
            assert(low_steps == 0 <==> low == 0) by (nonlinear_arith)
                requires
                    low_steps == low * base,
                    base > 0,
            ;
            assert(lifted * unit >= unit) by (nonlinear_arith)
                requires
                    lifted >= 1,
                    unit > 0,
            ;
            assert((lifted - 1) * unit == lifted * unit - unit) by (nonlinear_arith);
            assert((lifted + 1) * unit == lifted * unit + unit) by (nonlinear_arith);
            let num = if high_negative == low_negative {
                (high_steps + low_steps) as nat
            } else {
                (high_steps - low_steps) as nat
            };
            assert(exact == signed(high_negative, num));
            assert(num > 0);
            assert(num * pow2(0) == num) by (nonlinear_arith)
                requires
                    pow2(0) == 1,
            ;
            assert(1 * unit == unit);
            assert(crate::rounding::bracketed(num, 1, mantissa as nat, inexact, up as nat, 0));
            if format == Format::Binary32 {
                assert(pow2(25) == 0x200_0000);
            } else {
                assert(pow2(54) == 0x40_0000_0000_0000);
            }
        }
        let magnitude: u64 = encode(
            mantissa,
            inexact,
            up,
            0,
            format.precision_bits(),
            format.infinity_bits(),
        );
        Datum { negative: high_negative, magnitude }
    }
}

/// Integer parts, remainders and conversions.
impl Datum {
    /// The remainder of a truncated division.
    pub fn modulo(format: Format, a: Datum, b: Datum) -> (result: Datum)
        ensures
            result == Datum::remainder(format, a, b),
    {
        let infinity: u64 = format.infinity_bits();
        if a.magnitude >= infinity || b.magnitude > infinity || b.magnitude == 0 {
            return Datum { negative: false, magnitude: format.quiet_nan_bits() };
        }
        if b.magnitude == infinity {
            return a;
        }
        let (a_digits, a_power): (u64, u32) = a.parts(format);
        let (b_digits, b_power): (u64, u32) = b.parts(format);
        let ghost a_steps = a.steps(format);
        let ghost b_steps = b.steps(format);
        proof {
            lemma2_to64();
            lemma2_to64_rest();
            lemma_pow2_pos(b_power as nat);
            lemma_pow2_pos(a_power as nat);
        }
        if a_power < b_power {
            proof {
                let gap = (b_power - a_power) as nat;
                lemma_pow2_adds(a_power as nat, gap);
                if gap > 1 {
                    lemma_pow2_strictly_increases(1, gap);
                }
                lemma_pow2_unfold(format.precision());
                assert(a_steps < b_steps) by (nonlinear_arith)
                    requires
                        a_steps == a_digits * pow2(a_power as nat),
                        b_steps == b_digits * pow2(b_power as nat),
                        pow2(b_power as nat) == pow2(a_power as nat) * pow2(gap),
                        pow2(gap) >= 2,
                        pow2(a_power as nat) > 0,
                        a_digits < 2 * pow2((format.precision() - 1) as nat),
                        b_digits >= pow2((format.precision() - 1) as nat),
                ;
                lemma_small_mod(a_steps, b_steps);
                lemma_exact_steps(a_steps, a_digits as nat, a_power as nat);
            }
            let magnitude: u64 = encode(
                a_digits as u128,
                false,
                a_power,
                0,
                format.precision_bits(),
                infinity,
            );
            return Datum { negative: a.negative, magnitude };
        }
        let gap: u32 = a_power - b_power;
        let mut rest: u64 = a_digits % b_digits;
        let mut doubled: u32 = 0;
        proof {
            assert(a_digits * pow2(0) == a_digits) by (nonlinear_arith)
                requires
                    pow2(0) == 1,
            ;
        }
        while doubled < gap
            invariant
                doubled <= gap,
                0 < b_digits < 0x20_0000_0000_0000,
                rest < b_digits,
                rest == (a_digits * pow2(doubled as nat)) % (b_digits as int),
            decreases gap - doubled,
        {
            proof {
                let before = a_digits * pow2(doubled as nat);
                lemma_pow2_unfold((doubled + 1) as nat);
                assert(a_digits * pow2((doubled + 1) as nat) == 2 * before) by (nonlinear_arith)
                    requires
                        pow2((doubled + 1) as nat) == 2 * pow2(doubled as nat),
                        before == a_digits * pow2(doubled as nat),
                ;
                lemma_mul_mod_noop_right(2, before, b_digits as int);
            }
            rest = (2 * rest) % b_digits;
            doubled = doubled + 1;
        }
        proof {
            let lifted = (a_digits * pow2(gap as nat)) as nat;
            let block = pow2(b_power as nat);
            lemma_pow2_adds(gap as nat, b_power as nat);
            assert(a_steps == lifted * block) by (nonlinear_arith)
                requires
                    a_steps == a_digits * pow2(a_power as nat),
                    pow2(a_power as nat) == pow2(gap as nat) * block,
                    lifted == a_digits * pow2(gap as nat),
            ;
            lemma_fundamental_div_mod(lifted as int, b_digits as int);
            let whole = lifted / (b_digits as nat);
            assert(lifted * block == whole * (b_digits * block) + rest * block)
                by (nonlinear_arith)
                requires
                    lifted == b_digits * whole + rest,
            ;
            assert(0 <= rest * block < b_digits * block) by (nonlinear_arith)
                requires
                    0 <= rest < b_digits,
                    block > 0,
            ;
            lemma_fundamental_div_mod_converse(
                a_steps as int,
                b_steps as int,
                whole as int,
                rest * block,
            );
            lemma_exact_steps((rest * block) as nat, rest as nat, b_power as nat);
        }
        let magnitude: u64 = encode(
            rest as u128,
            false,
            b_power,
            0,
            format.precision_bits(),
            infinity,
        );
        Datum { negative: a.negative, magnitude }
    }

    /// The datum of an integer given by sign and absolute value.
    pub fn from_whole(format: Format, negative: bool, whole: u64) -> (result: Datum)
        ensures
            result == Datum::integer(format, signed(negative, whole as nat), negative),
    {
        if whole == 0 {
            return Datum { negative, magnitude: 0 };
        }
        let one: u32 = format.one_bits();
        proof {
            lemma_exact_steps((whole * format.one()) as nat, whole as nat, one as nat);
        }
        let magnitude: u64 = encode(
            whole as u128,
            false,
            one,
            0,
            format.precision_bits(),
            format.infinity_bits(),
        );
        Datum { negative, magnitude }
    }

    /// The integer part of a finite datum of less than `2^53`, whether there
    /// is a fraction, and whether the fraction is a half or more. Otherwise
    /// the significand and the power of two that the integer is made of.
    fn split(self, format: Format) -> (result: Result<(u64, bool, bool), (u64, u32)>)
        requires
            self.finite(format),
        ensures
            match result {
                Ok((whole, fraction, half)) => {
                    &&& whole == self.whole(format)
                    &&& whole < 0x20_0000_0000_0000
                    &&& fraction <==> self.steps(format) % format.one() != 0
                    &&& half <==> 2 * (self.steps(format) % format.one()) >= format.one()
                },
                Err((digits, power)) => {
                    &&& self.steps(format) % format.one() == 0
                    &&& self.whole(format) == digits * pow2(power as nat)
                    &&& 0 < digits < 0x20_0000_0000_0000
                },
            },
    {
        let (digits, power): (u64, u32) = self.parts(format);
        let one: u32 = format.one_bits();
        let ghost steps = self.steps(format);
        proof {
            lemma2_to64();
            lemma2_to64_rest();
            lemma_pow2_pos(one as nat);
            lemma_pow2_pos(power as nat);
        }
        if power >= one {
            proof {
                let rise = (power - one) as nat;
                lemma_pow2_adds(rise, one as nat);
                assert(steps == (digits * pow2(rise)) * format.one()) by (nonlinear_arith)
                    requires
                        steps == digits * pow2(power as nat),
                        pow2(power as nat) == pow2(rise) * format.one(),
                ;
                lemma_mod_multiples_basic(digits * pow2(rise), format.one() as int);
                lemma_div_multiples_vanish_fancy(digits * pow2(rise), 0, format.one() as int);
                assert(format.one() * (digits * pow2(rise)) == (digits * pow2(rise))
                    * format.one()) by (nonlinear_arith);
                lemma_pow2_pos((format.precision() - 1) as nat);
            }
            return Err((digits, power - one));
        }
        let drop: u32 = one - power;
        proof {
            lemma_pow2_adds(drop as nat, power as nat);
            lemma_pow2_pos(drop as nat);
        }
        if drop > 63 {
            proof {
                lemma_pow2_strictly_increases(54, drop as nat);
                let block = pow2(power as nat);
                assert(2 * steps < format.one()) by (nonlinear_arith)
                    requires
                        steps == digits * block,
                        format.one() == pow2(drop as nat) * block,
                        pow2(drop as nat) > 0x40_0000_0000_0000,
                        digits < 0x20_0000_0000_0000,
                        block > 0,
                ;
                lemma_small_mod(steps, format.one());
                lemma_basic_div(steps as int, format.one() as int);
                assert(steps == 0 <==> digits == 0) by (nonlinear_arith)
                    requires
                        steps == digits * block,
                        block > 0,
                ;
            }
            return Ok((0, digits != 0, false));
        }
        let block: u64 = power_of_two(drop) as u64;
        proof {
            if drop < 63 {
                lemma_pow2_strictly_increases(drop as nat, 63);
            }
            lemma_pow2_unfold(drop as nat);
        }
        let whole: u64 = digits / block;
        let rest: u64 = digits % block;
        proof {
            let scale = pow2(power as nat);
            lemma_fundamental_div_mod(digits as int, block as int);
            assert(steps == whole * format.one() + rest * scale) by (nonlinear_arith)
                requires
                    steps == digits * scale,
                    digits == block * whole + rest,
                    format.one() == block * scale,
            ;
            assert(0 <= rest * scale < format.one()) by (nonlinear_arith)
                requires
                    0 <= rest < block,
                    format.one() == block * scale,
                    scale > 0,
            ;
            lemma_fundamental_div_mod_converse(
                steps as int,
                format.one() as int,
                whole as int,
                rest * scale,
            );
            assert(rest * scale == 0 <==> rest == 0) by (nonlinear_arith)
                requires
                    scale > 0,
            ;
            assert(2 * (rest * scale) >= block * scale <==> 2 * rest >= block) by (nonlinear_arith)
                requires
                    scale > 0,
            ;
            assert(whole <= digits) by (nonlinear_arith)
                requires
                    digits == block * whole + rest,
                    block >= 1,
                    rest >= 0,
            ;
        }
        Ok((whole, rest != 0, rest >= block / 2))
    }

    /// Round down to an integer.
    pub fn floor(self, format: Format) -> (result: Datum)
        ensures
            result == self.floored(format),
    {
        if self.magnitude >= format.infinity_bits() {
            return self;
        }
        let ghost steps = self.steps(format);
        let ghost one = format.one();
        proof {
            lemma_pow2_pos(format.one_exponent());
            lemma_fundamental_div_mod(steps as int, one as int);
            lemma_mod_pos_bound(steps as int, one as int);
            lemma_negated_division(steps, one);
        }
        match self.split(format) {
            Err(_) => {
                proof {
                    self.lemma_whole_is_itself(format);
                }
                self
            },
            Ok((whole, fraction, _half)) => {
                if self.negative && fraction {
                    Datum::from_whole(format, true, whole + 1)
                } else {
                    Datum::from_whole(format, self.negative, whole)
                }
            },
        }
    }

    /// Round up to an integer.
    pub fn ceil(self, format: Format) -> (result: Datum)
        ensures
            result == self.ceiled(format),
    {
        if self.magnitude >= format.infinity_bits() {
            return self;
        }
        let ghost steps = self.steps(format);
        let ghost one = format.one();
        proof {
            lemma_pow2_pos(format.one_exponent());
            lemma_fundamental_div_mod(steps as int, one as int);
            lemma_mod_pos_bound(steps as int, one as int);
            lemma_negated_division(steps, one);
        }
        match self.split(format) {
            Err(_) => {
                proof {
                    self.lemma_whole_is_itself(format);
                }
                self
            },
            Ok((whole, fraction, _half)) => {
                if !self.negative && fraction {
                    Datum::from_whole(format, false, whole + 1)
                } else {
                    Datum::from_whole(format, self.negative, whole)
                }
            },
        }
    }

    /// Round to the nearest integer, ties away from zero.
    pub fn round(self, format: Format) -> (result: Datum)
        ensures
            result == self.half_away(format),
    {
        if self.magnitude >= format.infinity_bits() {
            return self;
        }
        let ghost steps = self.steps(format);
        let ghost one = format.one();
        proof {
            lemma_pow2_pos(format.one_exponent());
            let whole = steps / one;
            let rest = steps % one;
            lemma_fundamental_div_mod(steps as int, one as int);
            lemma_mod_pos_bound(steps as int, one as int);
            if 2 * rest >= one {
                assert(2 * steps + one == (whole + 1) * (2 * one) + (2 * rest - one))
                    by (nonlinear_arith)
                    requires
                        steps == one * whole + rest,
                ;
                lemma_fundamental_div_mod_converse(
                    (2 * steps + one) as int,
                    (2 * one) as int,
                    (whole + 1) as int,
                    2 * rest - one,
                );
            } else {
                assert(2 * steps + one == whole * (2 * one) + (2 * rest + one))
                    by (nonlinear_arith)
                    requires
                        steps == one * whole + rest,
                ;
                lemma_fundamental_div_mod_converse(
                    (2 * steps + one) as int,
                    (2 * one) as int,
                    whole as int,
                    (2 * rest + one) as int,
                );
            }
        }
        match self.split(format) {
            Err(_) => {
                proof {
                    self.lemma_whole_is_itself(format);
                }
                self
            },
            Ok((whole, _fraction, half)) => {
                if half {
                    Datum::from_whole(format, self.negative, whole + 1)
                } else {
                    Datum::from_whole(format, self.negative, whole)
                }
            },
        }
    }

    /// A datum without a fraction is the integer that its steps amount to.
    proof fn lemma_whole_is_itself(self, format: Format)
        requires
            self.finite(format),
            self.steps(format) % format.one() == 0,
        ensures
            Datum::integer(format, signed(self.negative, self.whole(format)), self.negative)
                == self,
    {
        let steps = self.steps(format);
        lemma_pow2_pos(format.one_exponent());
        lemma_fundamental_div_mod(steps as int, format.one() as int);
        assert(steps == self.whole(format) * format.one()) by (nonlinear_arith)
            requires
                steps == format.one() * self.whole(format),
        ;
        crate::rounding::decoding_round_trips(self.magnitude as nat, format.precision());
        if self.whole(format) == 0 {
            assert(steps == 0) by (nonlinear_arith)
                requires
                    steps == self.whole(format) * format.one(),
                    self.whole(format) == 0,
            ;
            self.lemma_zero_steps(format);
        }
    }

    proof fn lemma_zero_steps(self, format: Format)
        requires
            self.steps(format) == 0,
        ensures
            self.magnitude == 0,
    {
        let lead = pow2((format.precision() - 1) as nat);
        lemma_pow2_pos((format.precision() - 1) as nat);
        lemma_mod_pos_bound(self.magnitude as int, lead as int);
        let field = self.magnitude as nat / lead;
        if field > 1 {
            lemma_pow2_pos((field - 1) as nat);
            assert((self.magnitude as nat % lead + lead) * pow2((field - 1) as nat) > 0)
                by (nonlinear_arith)
                requires
                    lead > 0,
                    self.magnitude as nat % lead >= 0,
                    pow2((field - 1) as nat) > 0,
            ;
        }
    }

    /// The integer part of a finite datum, at most `cap`.
    fn capped_whole(self, format: Format, cap: u64) -> (result: u64)
        requires
            self.finite(format),
        ensures
            result == if self.whole(format) < cap {
                self.whole(format)
            } else {
                cap as nat
            },
    {
        let whole: u128 = match self.split(format) {
            Ok((whole, _fraction, _half)) => whole as u128,
            Err((digits, power)) => {
                match Datum::bulk(digits, power) {
                    Some(bulk) => bulk,
                    None => {
                        return cap;
                    },
                }
            },
        };
        if whole < cap as u128 {
            whole as u64
        } else {
            cap
        }
    }

    /// The absolute value of a finite datum without a fraction, when it is
    /// below `2^117`.
    fn bulk(digits: u64, power: u32) -> (result: Option<u128>)
        requires
            0 < digits < 0x20_0000_0000_0000,
        ensures
            match result {
                Some(bulk) => bulk == digits * pow2(power as nat),
                None => digits * pow2(power as nat) > u64::MAX,
            },
    {
        proof {
            lemma2_to64();
            lemma2_to64_rest();
            if power > 64 {
                lemma_pow2_strictly_increases(64, power as nat);
            } else if power < 64 {
                lemma_pow2_strictly_increases(power as nat, 64);
            }
            assert(digits * pow2(power as nat) >= pow2(power as nat)) by (nonlinear_arith)
                requires
                    digits >= 1,
                    pow2(power as nat) >= 0,
            ;
            if power <= 64 {
                assert(digits * pow2(power as nat) <= 0x20_0000_0000_0000
                    * 0x1_0000_0000_0000_0000) by (nonlinear_arith)
                    requires
                        0 <= digits <= 0x20_0000_0000_0000,
                        0 <= pow2(power as nat) <= 0x1_0000_0000_0000_0000,
                ;
            }
        }
        if power > 64 {
            None
        } else {
            Some(digits as u128 * power_of_two(power))
        }
    }

    /// The smallest integer not below a non-negative finite datum, unless it
    /// is more than `cap`.
    pub fn ceil_count(self, format: Format, cap: u64) -> (result: Option<u64>)
        requires
            self.finite(format),
            !self.negative,
        ensures
            self.ceil_whole(format) >= 0,
            self.magnitude > 0 ==> self.ceil_whole(format) >= 1,
            result == if self.ceil_whole(format) <= cap {
                Some(self.ceil_whole(format) as u64)
            } else {
                None
            },
    {
        proof {
            let steps = self.steps(format);
            let one = format.one();
            lemma_pow2_pos(format.one_exponent());
            lemma_negated_division(steps, one);
            lemma_div_pos_is_pos(steps as int, one as int);
            if steps == 0 {
                self.lemma_zero_steps(format);
            } else if steps % one == 0 && steps / one == 0 {
                lemma_fundamental_div_mod(steps as int, one as int);
                assert(one * 0 == 0);
            }
        }
        match self.split(format) {
            Ok((whole, fraction, _half)) => {
                let count: u64 = if fraction {
                    whole + 1
                } else {
                    whole
                };
                if count <= cap {
                    Some(count)
                } else {
                    None
                }
            },
            Err((digits, power)) => {
                match Datum::bulk(digits, power) {
                    Some(count) => {
                        if count <= cap as u128 {
                            Some(count as u64)
                        } else {
                            None
                        }
                    },
                    None => None,
                }
            },
        }
    }

    /// The largest integer not above a finite datum, when a signed 64-bit
    /// integer can hold it.
    pub fn floor_integer(self, format: Format) -> (result: Option<i64>)
        requires
            self.finite(format),
        ensures
            result == if i64::MIN <= self.floor_whole(format) <= i64::MAX {
                Some(self.floor_whole(format) as i64)
            } else {
                None
            },
    {
        proof {
            lemma_pow2_pos(format.one_exponent());
            lemma_negated_division(self.steps(format), format.one());
        }
        match self.split(format) {
            Ok((whole, fraction, _half)) => {
                if self.negative {
                    if fraction {
                        Some(-(whole as i64) - 1)
                    } else {
                        Some(-(whole as i64))
                    }
                } else {
                    Some(whole as i64)
                }
            },
            Err((digits, power)) => {
                match Datum::bulk(digits, power) {
                    Some(distance) => {
                        if self.negative {
                            if distance <= 0x8000_0000_0000_0000 {
                                Some((-(distance as i128)) as i64)
                            } else {
                                None
                            }
                        } else if distance <= 0x7fff_ffff_ffff_ffff {
                            Some(distance as i64)
                        } else {
                            None
                        }
                    },
                    None => None,
                }
            },
        }
    }

    /// Truncate to an unsigned integer of at most `cap`.
    pub fn to_unsigned(self, format: Format, cap: u64) -> (result: u64)
        ensures
            result == self.saturated(format, 0, cap as int),
    {
        let infinity: u64 = format.infinity_bits();
        if self.magnitude > infinity {
            0
        } else if self.negative {
            0
        } else if self.magnitude == infinity {
            cap
        } else {
            self.capped_whole(format, cap)
        }
    }

    /// Truncate to a signed 64-bit integer.
    pub fn to_signed(self, format: Format) -> (result: i64)
        ensures
            result == self.saturated(format, i64::MIN as int, i64::MAX as int),
    {
        let infinity: u64 = format.infinity_bits();
        if self.magnitude > infinity {
            return 0;
        }
        if self.magnitude == infinity {
            return if self.negative {
                i64::MIN
            } else {
                i64::MAX
            };
        }
        let whole: u64 = self.capped_whole(format, 0x8000_0000_0000_0000);
        if self.negative {
            if whole == 0x8000_0000_0000_0000 {
                i64::MIN
            } else {
                -(whole as i64)
            }
        } else if whole >= 0x8000_0000_0000_0000 {
            i64::MAX
        } else {
            whole as i64
        }
    }

    /// Round a double to single precision.
    pub fn narrow(self) -> (result: Datum)
        ensures
            result == self.narrowed(),
    {
        if self.magnitude > Format::Binary64.infinity_bits() {
            return Datum { negative: false, magnitude: Format::Binary32.quiet_nan_bits() };
        }
        if self.magnitude == Format::Binary64.infinity_bits() {
            return Datum {
                negative: self.negative,
                magnitude: Format::Binary32.infinity_bits(),
            };
        }
        let (digits, power): (u64, u32) = self.parts(Format::Binary64);
        let up: u32 = if power >= 925 {
            power - 925
        } else {
            0
        };
        let down: u32 = if power >= 925 {
            0
        } else {
            925 - power
        };
        proof {
            lemma2_to64();
            lemma2_to64_rest();
            let steps = self.steps(Format::Binary64);
            let den = pow2(925);
            lemma_pow2_pos(925);
            lemma_pow2_adds(power as nat, down as nat);
            lemma_pow2_adds(925, up as nat);
            assert(steps * pow2(down as nat) == digits * (den * pow2(up as nat)))
                by (nonlinear_arith)
                requires
                    steps == digits * pow2(power as nat),
                    pow2(power as nat) * pow2(down as nat) == den * pow2(up as nat),
            ;
            lemma_bracketed_exact(steps, den, digits as nat, up as nat, down as nat);
        }
        let magnitude: u64 = encode(
            digits as u128,
            false,
            up,
            down,
            24,
            Format::Binary32.infinity_bits(),
        );
        Datum { negative: self.negative, magnitude }
    }

    /// Carry a single over to double precision.
    pub fn widen(self) -> (result: Datum)
        ensures
            result == self.widened(),
    {
        if self.magnitude > Format::Binary32.infinity_bits() {
            return Datum { negative: false, magnitude: Format::Binary64.quiet_nan_bits() };
        }
        if self.magnitude == Format::Binary32.infinity_bits() {
            return Datum {
                negative: self.negative,
                magnitude: Format::Binary64.infinity_bits(),
            };
        }
        let (digits, power): (u64, u32) = self.parts(Format::Binary32);
        proof {
            lemma2_to64();
            lemma2_to64_rest();
            let steps = self.steps(Format::Binary32) * pow2(925);
            lemma_pow2_adds(power as nat, 925);
            assert(steps == digits * pow2((power + 925) as nat)) by (nonlinear_arith)
                requires
                    steps == (digits * pow2(power as nat)) * pow2(925),
                    pow2((power + 925) as nat) == pow2(power as nat) * pow2(925),
            ;
            lemma_exact_steps(steps, digits as nat, (power + 925) as nat);
        }
        let magnitude: u64 = encode(
            digits as u128,
            false,
            power + 925,
            0,
            53,
            Format::Binary64.infinity_bits(),
        );
        Datum { negative: self.negative, magnitude }
    }
}

/// A natural number with a sign.
pub open spec fn signed(negative: bool, steps: nat) -> int {
    if negative {
        -(steps as int)
    } else {
        steps as int
    }
}

/// Shift a significand left until it has fifty-three bits; zero stays.
fn widen_digits(digits: u64) -> (result: (u64, u32))
    requires
        digits < 0x20_0000_0000_0000,
    ensures
        result.0 == digits * pow2(result.1 as nat),
        result.0 < 0x20_0000_0000_0000,
        digits > 0 ==> result.0 >= 0x10_0000_0000_0000,
        result.1 <= 53,
{
    let mut wide: u64 = digits;
    let mut shift: u32 = 0;
    proof {
        lemma2_to64();
        lemma2_to64_rest();
    }
    if digits == 0 {
        return (0, 0);
    }
    while wide < 0x10_0000_0000_0000
        invariant
            wide == digits * pow2(shift as nat),
            0 < wide < 0x20_0000_0000_0000,
            digits > 0,
            shift <= 53,
        decreases 0x20_0000_0000_0000 - wide,
    {
        proof {
            lemma2_to64_rest();
            lemma_pow2_unfold((shift + 1) as nat);
            if shift >= 53 {
                assert(digits * pow2(shift as nat) >= pow2(shift as nat)) by (nonlinear_arith)
                    requires
                        digits >= 1,
                        pow2(shift as nat) > 0,
                ;
            }
            assert(digits * (2 * pow2(shift as nat)) == 2 * (digits * pow2(shift as nat)))
                by (nonlinear_arith);
        }
        wide = wide * 2;
        shift = shift + 1;
    }
    (wide, shift)
}

proof fn lemma_bracketed_quotient(
    num: nat,
    den: nat,
    a_digits: nat,
    b_digits: nat,
    scaled: nat,
    room: nat,
    mantissa: nat,
    a_power: nat,
    b_power: nat,
    one: nat,
    up: nat,
    down: nat,
)
    requires
        b_digits > 0,
        num == (a_digits * pow2(a_power)) * pow2(one),
        den == b_digits * pow2(b_power),
        scaled == a_digits * pow2(room),
        mantissa == scaled / b_digits,
        a_power + one + down == b_power + room + up,
    ensures
        crate::rounding::bracketed(num, den, mantissa, scaled % b_digits != 0, up, down),
{
    let rest = scaled % b_digits;
    lemma_fundamental_div_mod(scaled as int, b_digits as int);
    lemma_mod_pos_bound(scaled as int, b_digits as int);
    lemma_pow2_adds(a_power, one);
    lemma_pow2_adds(a_power + one, down);
    lemma_pow2_adds(b_power, up);
    lemma_pow2_adds(b_power + up, room);
    lemma_pow2_pos(b_power);
    lemma_pow2_pos(b_power + up);
    let block = pow2(b_power + up);
    assert(num * pow2(down) == scaled * block) by (nonlinear_arith)
        requires
            num == (a_digits * pow2(a_power)) * pow2(one),
            pow2(a_power + one) == pow2(a_power) * pow2(one),
            pow2(a_power + one + down) == pow2(a_power + one) * pow2(down),
            pow2(a_power + one + down) == block * pow2(room),
            scaled == a_digits * pow2(room),
    ;
    assert(den * pow2(up) == b_digits * block) by (nonlinear_arith)
        requires
            den == b_digits * pow2(b_power),
            block == pow2(b_power) * pow2(up),
    ;
    assert(scaled * block == mantissa * (b_digits * block) + rest * block) by (nonlinear_arith)
        requires
            scaled == b_digits * mantissa + rest,
    ;
    assert(rest * block < b_digits * block) by (nonlinear_arith)
        requires
            rest < b_digits,
            block > 0,
    ;
    assert((mantissa + 1) * (b_digits * block) == mantissa * (b_digits * block) + b_digits * block)
        by (nonlinear_arith);
    assert(rest * block == 0 <==> rest == 0) by (nonlinear_arith)
        requires
            block > 0,
    ;
    assert(den > 0) by (nonlinear_arith)
        requires
            den == b_digits * pow2(b_power),
            b_digits > 0,
            pow2(b_power) > 0,
    ;
}

proof fn lemma_exact_steps(steps: nat, digits: nat, power: nat)
    requires
        steps == digits * pow2(power),
    ensures
        crate::rounding::bracketed(steps, 1, digits, false, power, 0),
{
    lemma2_to64();
    assert(steps * pow2(0) == digits * (1 * pow2(power))) by (nonlinear_arith)
        requires
            pow2(0) == 1,
            steps == digits * pow2(power),
    ;
    lemma_bracketed_exact(steps, 1, digits, power, 0);
}

/// Dividing a negated number rounds the other way.
proof fn lemma_negated_division(steps: nat, one: nat)
    requires
        one > 0,
    ensures
        -(steps as int) / (one as int) == if steps % one == 0 {
            -((steps / one) as int)
        } else {
            -((steps / one) as int) - 1
        },
{
    let whole = (steps / one) as int;
    let rest = (steps % one) as int;
    lemma_fundamental_div_mod(steps as int, one as int);
    lemma_mod_pos_bound(steps as int, one as int);
    if rest == 0 {
        assert(-(steps as int) == (-whole) * one + 0) by (nonlinear_arith)
            requires
                steps == one * whole + rest,
                rest == 0,
        ;
        lemma_fundamental_div_mod_converse(-(steps as int), one as int, -whole, 0);
    } else {
        assert(-(steps as int) == (-whole - 1) * one + (one - rest)) by (nonlinear_arith)
            requires
                steps == one * whole + rest,
        ;
        lemma_fundamental_div_mod_converse(-(steps as int), one as int, -whole - 1, one - rest);
    }
}

proof fn lemma_bracketed_exact(num: nat, den: nat, mantissa: nat, up: nat, down: nat)
    requires
        den > 0,
        num * pow2(down) == mantissa * (den * pow2(up)),
    ensures
        crate::rounding::bracketed(num, den, mantissa, false, up, down),
{
    lemma_pow2_pos(up);
    assert(mantissa * (den * pow2(up)) < (mantissa + 1) * (den * pow2(up))) by (nonlinear_arith)
        requires
            den > 0,
            pow2(up) > 0,
    ;
}

} // verus!
