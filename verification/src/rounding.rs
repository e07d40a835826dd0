//! Rounding of exact ratios to a fixed number of significant bits.
//!
//! Every finite number of a binary interchange format is a whole multiple of
//! the smallest positive one, its *step*. Magnitudes are counted in steps
//! here, so exact sums, products and quotients are ratios of natural numbers
//! and rounding is a statement about integers.

use vstd::arithmetic::div_mod::*;
use vstd::arithmetic::mul::*;
use vstd::arithmetic::power2::*;
use vstd::prelude::*;

verus! {

/// `num / den` rounded to the nearest integer, a tie to the even one.
pub open spec fn half_even(num: nat, den: nat) -> nat {
    let quotient = num / den;
    let remainder = num % den;
    if 2 * remainder < den || (2 * remainder == den && quotient % 2 == 0) {
        quotient
    } else {
        quotient + 1
    }
}

/// How many low bits `whole` has beyond a width of `precision` bits.
pub open spec fn excess(whole: nat, precision: nat) -> nat
    decreases whole,
{
    if whole < pow2(precision) || whole == 0 {
        0
    } else {
        1 + excess(whole / 2, precision)
    }
}

/// The magnitude encoding of `num / den` steps, before overflow: the exponent
/// field counts the bits dropped, and the significand is rounded half to even.
pub open spec fn encoded_ratio(num: nat, den: nat, precision: nat) -> nat {
    let dropped = excess(num / den, precision);
    dropped * pow2((precision - 1) as nat) + half_even(num, den * pow2(dropped))
}

/// An encoding with everything from `infinity` on collapsed to `infinity`.
pub open spec fn bounded(encoding: nat, infinity: nat) -> nat {
    if encoding < infinity {
        encoding
    } else {
        infinity
    }
}

/// The number of steps that a magnitude encoding stands for.
pub open spec fn decoded_steps(magnitude: nat, precision: nat) -> nat {
    let lead = pow2((precision - 1) as nat);
    let field = magnitude / lead;
    if field <= 1 {
        magnitude
    } else {
        (magnitude % lead + lead) * pow2((field - 1) as nat)
    }
}

/// `num / den` steps lie at `mantissa * 2^up / 2^down`, or above it by less
/// than one unit of the mantissa, and above it exactly when `inexact`.
pub open spec fn bracketed(
    num: nat,
    den: nat,
    mantissa: nat,
    inexact: bool,
    up: nat,
    down: nat,
) -> bool {
    &&& den > 0
    &&& mantissa * (den * pow2(up)) <= num * pow2(down) < (mantissa + 1) * (den * pow2(up))
    &&& inexact <==> mantissa * (den * pow2(up)) != num * pow2(down)
}

pub(crate) proof fn lemma_excess(whole: nat, precision: nat, dropped: nat)
    requires
        precision > 0,
        dropped == 0 ==> whole < pow2(precision),
        dropped > 0 ==> pow2((precision - 1 + dropped) as nat) <= whole < pow2(precision + dropped),
    ensures
        excess(whole, precision) == dropped,
    decreases dropped,
{
    if dropped > 0 {
        let less = (dropped - 1) as nat;
        lemma_pow2_unfold((precision - 1 + dropped) as nat);
        lemma_pow2_unfold(precision + dropped);
        assert((precision - 1 + dropped - 1) as nat == precision - 1 + less);
        assert((precision + dropped - 1) as nat == precision + less);
        lemma_pow2_pos((precision - 1 + less) as nat);
        if less > 0 {
            lemma_pow2_strictly_increases(precision, (precision - 1 + dropped) as nat);
        } else {
            assert((precision - 1 + dropped) as nat == precision);
        }
        lemma_excess(whole / 2, precision, less);
    }
}

pub(crate) proof fn lemma_half_even_scale(num: nat, den: nat, factor: nat)
    requires
        den > 0,
        factor > 0,
    ensures
        half_even(num * factor, den * factor) == half_even(num, den),
{
    let quotient = num / den;
    let remainder = num % den;
    lemma_fundamental_div_mod(num as int, den as int);
    assert(num * factor == quotient * (den * factor) + remainder * factor) by (nonlinear_arith)
        requires
            num == den * quotient + remainder,
    ;
    assert(0 <= remainder * factor < den * factor) by (nonlinear_arith)
        requires
            0 <= remainder < den,
            factor > 0,
    ;
    assert(den * factor > 0) by (nonlinear_arith)
        requires
            den > 0,
            factor > 0,
    ;
    lemma_fundamental_div_mod_converse(
        (num * factor) as int,
        (den * factor) as int,
        quotient as int,
        (remainder * factor) as int,
    );
    assert(2 * (remainder * factor) < den * factor <==> 2 * remainder < den) by (nonlinear_arith)
        requires
            factor > 0,
    ;
    assert(2 * (remainder * factor) == den * factor <==> 2 * remainder == den) by (nonlinear_arith)
        requires
            factor > 0,
    ;
}

pub(crate) proof fn lemma_half_even_exact(whole: nat, den: nat)
    requires
        den > 0,
    ensures
        half_even(whole * den, den) == whole,
{
    lemma_fundamental_div_mod_converse((whole * den) as int, den as int, whole as int, 0);
}

/// What rounding a bracketed ratio comes to, when `shift` bits of the mantissa
/// are dropped.
pub(crate) proof fn lemma_half_even_bracketed(
    num: nat,
    den: nat,
    mantissa: nat,
    inexact: bool,
    shift: nat,
)
    requires
        den > 0,
        mantissa * den <= num < (mantissa + 1) * den,
        inexact <==> mantissa * den != num,
        shift > 0,
    ensures
        ({
            let block = pow2(shift);
            let quotient = mantissa / block;
            let remainder = mantissa % block;
            half_even(num, den * block) == if 2 * remainder < block || (2 * remainder == block
                && !inexact && quotient % 2 == 0) {
                quotient
            } else {
                quotient + 1
            }
        }),
{
    let block = pow2(shift);
    lemma_pow2_pos(shift);
    lemma_pow2_unfold(shift);
    let half = pow2((shift - 1) as nat);
    let quotient = mantissa / block;
    let remainder = mantissa % block;
    let over = (num - mantissa * den) as nat;
    lemma_fundamental_div_mod(mantissa as int, block as int);
    let low = remainder * den + over;
    assert(num == quotient * (den * block) + low) by (nonlinear_arith)
        requires
            mantissa == block * quotient + remainder,
            over == num - mantissa * den,
            low == remainder * den + over,
    ;
    assert(over < den) by (nonlinear_arith)
        requires
            num < (mantissa + 1) * den,
            over == num - mantissa * den,
    ;
    assert(low < den * block) by (nonlinear_arith)
        requires
            low == remainder * den + over,
            over < den,
            remainder + 1 <= block,
    ;
    assert(den * block > 0) by (nonlinear_arith)
        requires
            den > 0,
            block > 0,
    ;
    lemma_fundamental_div_mod_converse(
        num as int,
        (den * block) as int,
        quotient as int,
        low as int,
    );
    if remainder < half {
        assert(2 * low < den * block) by (nonlinear_arith)
            requires
                low == remainder * den + over,
                over < den,
                remainder + 1 <= half,
                block == 2 * half,
        ;
    } else if remainder == half {
        assert(2 * low == den * block + 2 * over) by (nonlinear_arith)
            requires
                low == remainder * den + over,
                remainder == half,
                block == 2 * half,
        ;
    } else {
        assert(2 * low > den * block) by (nonlinear_arith)
            requires
                low == remainder * den + over,
                over >= 0,
                den > 0,
                remainder >= half + 1,
                block == 2 * half,
        ;
    }
}

/// The exponent and the significand that a bracketed ratio is encoded with.
pub(crate) proof fn lemma_encoded_bracketed(
    num: nat,
    den: nat,
    mantissa: nat,
    inexact: bool,
    up: nat,
    down: nat,
    precision: nat,
    length: nat,
    dropped: nat,
    shift: int,
)
    requires
        bracketed(num, den, mantissa, inexact, up, down),
        precision > 0,
        length > 0,
        pow2((length - 1) as nat) <= mantissa < pow2(length),
        dropped == if length + up - down > precision {
            length + up - down - precision
        } else {
            0
        },
        shift == dropped + down - up,
        shift > 0 || !inexact,
    ensures
        excess(num / den, precision) == dropped,
        shift > 0 ==> half_even(num, den * pow2(dropped)) == half_even(
            num * pow2(down),
            (den * pow2(up)) * pow2(shift as nat),
        ),
        shift <= 0 ==> half_even(num, den * pow2(dropped)) == mantissa * pow2((-shift) as nat),
{
    let scaled_num = num * pow2(down);
    let scaled_den = den * pow2(up);
    lemma_pow2_pos(up);
    lemma_pow2_pos(down);
    lemma_pow2_pos(dropped);
    lemma_pow2_pos(precision);
    assert(scaled_den > 0) by (nonlinear_arith)
        requires
            scaled_den == den * pow2(up),
            den > 0,
            pow2(up) > 0,
    ;
    assert(scaled_num < pow2(length) * scaled_den) by (nonlinear_arith)
        requires
            scaled_num < (mantissa + 1) * scaled_den,
            mantissa + 1 <= pow2(length),
            scaled_den > 0,
    ;
    let low = pow2((length - 1) as nat);
    assert(low * scaled_den <= scaled_num) by (nonlinear_arith)
        requires
            mantissa * scaled_den <= scaled_num,
            low <= mantissa,
            scaled_den > 0,
    ;
    // The whole part of the ratio is below 2^(precision + dropped).
    lemma_pow2_adds(length, up);
    lemma_pow2_adds(precision + dropped, down);
    if length + up < precision + dropped + down {
        lemma_pow2_strictly_increases(length + up, precision + dropped + down);
    }
    assert(num < pow2(precision + dropped) * den) by (nonlinear_arith)
        requires
            num * pow2(down) < pow2(length) * (den * pow2(up)),
            pow2(length) * pow2(up) <= pow2(precision + dropped) * pow2(down),
            den > 0,
            pow2(down) > 0,
    ;
    lemma_fundamental_div_mod(num as int, den as int);
    lemma_mod_pos_bound(num as int, den as int);
    let whole = num / den;
    assert(whole < pow2(precision + dropped)) by (nonlinear_arith)
        requires
            num == den * whole + num % den,
            0 <= num % den,
            num < pow2(precision + dropped) * den,
            den > 0,
    ;
    if dropped > 0 {
        lemma_pow2_adds((length - 1) as nat, up);
        lemma_pow2_adds((precision - 1 + dropped) as nat, down);
        let floor = pow2((precision - 1 + dropped) as nat);
        assert(floor * den <= num) by (nonlinear_arith)
            requires
                low * (den * pow2(up)) <= num * pow2(down),
                low * pow2(up) == floor * pow2(down),
                den > 0,
                pow2(down) > 0,
        ;
        assert(floor <= whole) by (nonlinear_arith)
            requires
                num == den * whole + num % den,
                num % den < den,
                floor * den <= num,
                den > 0,
        ;
    }
    lemma_excess(whole, precision, dropped);
    if shift > 0 {
        lemma_pow2_adds(up, shift as nat);
        lemma_pow2_adds(dropped, down);
        assert(den * pow2(dropped) > 0) by (nonlinear_arith)
            requires
                den > 0,
                pow2(dropped) > 0,
        ;
        lemma_half_even_scale(num, den * pow2(dropped), pow2(down));
        assert((den * pow2(dropped)) * pow2(down) == (den * pow2(up)) * pow2(shift as nat))
            by (nonlinear_arith)
            requires
                pow2(dropped) * pow2(down) == pow2(up) * pow2(shift as nat),
        ;
    } else {
        let grow = (-shift) as nat;
        let block = den * pow2(dropped);
        assert(block > 0) by (nonlinear_arith)
            requires
                den > 0,
                pow2(dropped) > 0,
                block == den * pow2(dropped),
        ;
        lemma_pow2_adds(dropped + down, grow);
        lemma_pow2_adds(dropped, down);
        assert(num == (mantissa * pow2(grow)) * block) by (nonlinear_arith)
            requires
                mantissa * (den * pow2(up)) == num * pow2(down),
                pow2(up) == (pow2(dropped) * pow2(down)) * pow2(grow),
                block == den * pow2(dropped),
                pow2(down) > 0,
        ;
        lemma_half_even_exact(mantissa * pow2(grow), block);
    }
}

/// The significand left of a mantissa once `shift` bits are dropped from it.
spec fn significand_of(mantissa: nat, inexact: bool, shift: int) -> nat {
    if shift <= 0 {
        mantissa * pow2((-shift) as nat)
    } else {
        let block = pow2(shift as nat);
        let quotient = mantissa / block;
        let remainder = mantissa % block;
        if 2 * remainder < block || (2 * remainder == block && !inexact && quotient % 2 == 0) {
            quotient
        } else {
            quotient + 1
        }
    }
}

proof fn lemma_encoded_zero(num: nat, den: nat, up: nat, down: nat, precision: nat)
    requires
        bracketed(num, den, 0, false, up, down),
        precision > 0,
    ensures
        encoded_ratio(num, den, precision) == 0,
{
    lemma_pow2_pos(down);
    lemma_pow2_pos(precision);
    lemma2_to64();
    assert(num == 0) by (nonlinear_arith)
        requires
            num * pow2(down) == 0,
            pow2(down) > 0,
    ;
    lemma_div_of0(den as int);
    lemma_excess(0, precision, 0);
    lemma_half_even_exact(0, den);
    assert(den * pow2(0) == den);
    assert(0 * den == 0);
}

/// Encoding what a magnitude decodes to gives the magnitude back.
pub proof fn decoding_round_trips(magnitude: nat, precision: nat)
    requires
        precision > 0,
    ensures
        encoded_ratio(decoded_steps(magnitude, precision), 1, precision) == magnitude,
{
    let lead = pow2((precision - 1) as nat);
    let field = magnitude / lead;
    lemma_pow2_pos((precision - 1) as nat);
    lemma_pow2_unfold(precision);
    lemma_fundamental_div_mod(magnitude as int, lead as int);
    lemma_mod_pos_bound(magnitude as int, lead as int);
    lemma2_to64();
    let steps = decoded_steps(magnitude, precision);
    assert(steps / 1 == steps);
    if field <= 1 {
        assert(magnitude < 2 * lead) by (nonlinear_arith)
            requires
                magnitude == lead * field + magnitude % lead,
                magnitude % lead < lead,
                field <= 1,
                lead > 0,
        ;
        lemma_excess(steps, precision, 0);
        lemma_half_even_exact(steps, 1);
        assert(1 * pow2(0) == 1);
        assert(steps * 1 == steps);
        assert(0 * lead == 0);
    } else {
        let dropped = (field - 1) as nat;
        let digits = magnitude % lead + lead;
        let block = pow2(dropped);
        lemma_pow2_pos(dropped);
        lemma_pow2_adds((precision - 1) as nat, dropped);
        lemma_pow2_adds(precision, dropped);
        assert(pow2((precision - 1 + dropped) as nat) == lead * block);
        assert(lead * block <= digits * block < (2 * lead) * block) by (nonlinear_arith)
            requires
                lead <= digits < 2 * lead,
                block > 0,
        ;
        lemma_excess(steps, precision, dropped);
        lemma_half_even_exact(digits, block);
        assert(1 * block == block);
        assert(dropped * lead + digits == magnitude) by (nonlinear_arith)
            requires
                magnitude == lead * field + magnitude % lead,
                digits == magnitude % lead + lead,
                dropped == field - 1,
        ;
    }
}

proof fn lemma_excess_bounds(whole: nat, precision: nat)
    requires
        precision > 0,
    ensures
        whole < pow2(precision + excess(whole, precision)),
        excess(whole, precision) > 0 ==> pow2(
            (precision - 1 + excess(whole, precision)) as nat,
        ) <= whole,
    decreases whole,
{
    lemma_pow2_pos(precision);
    if whole >= pow2(precision) {
        let half = whole / 2;
        let less = excess(half, precision);
        lemma_excess_bounds(half, precision);
        lemma_pow2_unfold(precision + less + 1);
        assert((precision + less + 1 - 1) as nat == precision + less);
        if less > 0 {
            lemma_pow2_unfold((precision - 1 + less + 1) as nat);
            assert((precision - 1 + less + 1 - 1) as nat == (precision - 1 + less) as nat);
        } else {
            assert((precision - 1 + less + 1) as nat == precision);
        }
    }
}

proof fn lemma_excess_monotone(low: nat, high: nat, precision: nat)
    requires
        precision > 0,
        low <= high,
    ensures
        excess(low, precision) <= excess(high, precision),
    decreases high,
{
    lemma_pow2_pos(precision);
    if low >= pow2(precision) {
        lemma_excess_monotone(low / 2, high / 2, precision);
    }
}

/// Rounding to the nearest integer preserves the order of ratios.
proof fn lemma_half_even_monotone(num: nat, den: nat, other_num: nat, other_den: nat)
    requires
        den > 0,
        other_den > 0,
        num * other_den <= other_num * den,
    ensures
        half_even(num, den) <= half_even(other_num, other_den),
{
    let quotient = num / den;
    let rest = num % den;
    let other_quotient = other_num / other_den;
    let other_rest = other_num % other_den;
    lemma_fundamental_div_mod(num as int, den as int);
    lemma_fundamental_div_mod(other_num as int, other_den as int);
    lemma_mod_pos_bound(num as int, den as int);
    lemma_mod_pos_bound(other_num as int, other_den as int);
    assert(quotient <= other_quotient) by (nonlinear_arith)
        requires
            num == den * quotient + rest,
            other_num == other_den * other_quotient + other_rest,
            num * other_den <= other_num * den,
            0 <= rest,
            other_rest < other_den,
            den > 0,
            other_den > 0,
    ;
    if quotient == other_quotient {
        assert(rest * other_den <= other_rest * den) by (nonlinear_arith)
            requires
                num == den * quotient + rest,
                other_num == other_den * other_quotient + other_rest,
                num * other_den <= other_num * den,
                quotient == other_quotient,
        ;
        if 2 * other_rest < other_den {
            assert(2 * rest < den) by (nonlinear_arith)
                requires
                    rest * other_den <= other_rest * den,
                    2 * other_rest < other_den,
                    den > 0,
                    other_den > 0,
            ;
        } else if 2 * other_rest == other_den {
            assert(2 * rest <= den) by (nonlinear_arith)
                requires
                    rest * other_den <= other_rest * den,
                    2 * other_rest == other_den,
                    den > 0,
                    other_den > 0,
            ;
        }
    }
}

/// The significand of an encoding has the full width once bits are dropped,
/// and never more than one unit beyond it.
proof fn lemma_significand_bounds(num: nat, den: nat, precision: nat)
    requires
        precision > 0,
        den > 0,
    ensures
        ({
            let dropped = excess(num / den, precision);
            let digits = half_even(num, den * pow2(dropped));
            &&& digits <= pow2(precision)
            &&& dropped > 0 ==> digits >= pow2((precision - 1) as nat)
        }),
{
    let whole = num / den;
    let dropped = excess(whole, precision);
    let block = pow2(dropped);
    lemma_pow2_pos(dropped);
    lemma_excess_bounds(whole, precision);
    lemma_pow2_adds(precision, dropped);
    lemma_fundamental_div_mod(num as int, den as int);
    lemma_mod_pos_bound(num as int, den as int);
    assert(den * block > 0) by (nonlinear_arith)
        requires
            den > 0,
            block > 0,
    ;
    let top = pow2(precision);
    assert(num * (den * block) <= ((top * den) * block) * (den * block)) by (nonlinear_arith)
        requires
            num == den * whole + num % den,
            num % den < den,
            whole + 1 <= top * block,
            den * block > 0,
            den > 0,
    ;
    assert((top * den) * block == top * (den * block)) by (nonlinear_arith);
    lemma_half_even_monotone(num, den * block, top * (den * block), den * block);
    lemma_half_even_exact(top, den * block);
    if dropped > 0 {
        let lead = pow2((precision - 1) as nat);
        lemma_pow2_adds((precision - 1) as nat, dropped);
        assert((lead * (den * block)) * (den * block) <= num * (den * block)) by (nonlinear_arith)
            requires
                num == den * whole + num % den,
                num % den >= 0,
                lead * block <= whole,
                den * block > 0,
                den > 0,
        ;
        lemma_half_even_monotone(lead * (den * block), den * block, num, den * block);
        lemma_half_even_exact(lead, den * block);
    }
}

/// A larger ratio never has the smaller encoding.
pub proof fn encoding_preserves_order(
    num: nat,
    den: nat,
    other_num: nat,
    other_den: nat,
    precision: nat,
)
    requires
        precision > 0,
        den > 0,
        other_den > 0,
        num * other_den <= other_num * den,
    ensures
        encoded_ratio(num, den, precision) <= encoded_ratio(other_num, other_den, precision),
{
    let whole = num / den;
    let other_whole = other_num / other_den;
    let dropped = excess(whole, precision);
    let other_dropped = excess(other_whole, precision);
    let lead = pow2((precision - 1) as nat);
    lemma_pow2_unfold(precision);
    lemma_fundamental_div_mod(num as int, den as int);
    lemma_fundamental_div_mod(other_num as int, other_den as int);
    lemma_mod_pos_bound(num as int, den as int);
    lemma_mod_pos_bound(other_num as int, other_den as int);
    assert(whole <= other_whole) by (nonlinear_arith)
        requires
            num == den * whole + num % den,
            other_num == other_den * other_whole + other_num % other_den,
            num * other_den <= other_num * den,
            0 <= num % den,
            other_num % other_den < other_den,
            den > 0,
            other_den > 0,
    ;
    lemma_excess_monotone(whole, other_whole, precision);
    lemma_significand_bounds(num, den, precision);
    lemma_significand_bounds(other_num, other_den, precision);
    if dropped == other_dropped {
        let block = pow2(dropped);
        lemma_pow2_pos(dropped);
        assert(num * (other_den * block) <= other_num * (den * block)) by (nonlinear_arith)
            requires
                num * other_den <= other_num * den,
                block > 0,
        ;
        assert(den * block > 0 && other_den * block > 0) by (nonlinear_arith)
            requires
                den > 0,
                other_den > 0,
                block > 0,
        ;
        lemma_half_even_monotone(num, den * block, other_num, other_den * block);
    } else {
        assert(dropped * lead + 2 * lead <= other_dropped * lead + lead) by (nonlinear_arith)
            requires
                dropped + 1 <= other_dropped,
                lead >= 0,
        ;
    }
}

/// The order of magnitude encodings is the order of what they stand for.
pub proof fn decoding_preserves_order(low: nat, high: nat, precision: nat)
    requires
        precision > 0,
        low < high,
    ensures
        decoded_steps(low, precision) < decoded_steps(high, precision),
{
    let low_steps = decoded_steps(low, precision);
    let high_steps = decoded_steps(high, precision);
    decoding_round_trips(low, precision);
    decoding_round_trips(high, precision);
    if high_steps <= low_steps {
        encoding_preserves_order(high_steps, 1, low_steps, 1, precision);
    }
}

/// A number of steps whose significand fits the precision is encoded exactly.
pub proof fn encoding_is_exact(digits: nat, power: nat, precision: nat)
    requires
        precision > 0,
        digits < pow2(precision),
    ensures
        decoded_steps(encoded_ratio(digits * pow2(power), 1, precision), precision) == digits
            * pow2(power),
{
    let steps = digits * pow2(power);
    let dropped = excess(steps, precision);
    let lead = pow2((precision - 1) as nat);
    let block = pow2(dropped);
    assert(steps / 1 == steps);
    lemma_excess_bounds(steps, precision);
    lemma_pow2_pos(power);
    lemma_pow2_pos(dropped);
    lemma_pow2_pos((precision - 1) as nat);
    lemma_pow2_unfold(precision);
    lemma_pow2_adds(precision, power);
    assert(steps < pow2(precision) * pow2(power)) by (nonlinear_arith)
        requires
            steps == digits * pow2(power),
            digits < pow2(precision),
            pow2(power) > 0,
    ;
    if dropped > power {
        if precision - 1 + dropped > precision + power {
            lemma_pow2_strictly_increases(
                precision + power,
                (precision - 1 + dropped) as nat,
            );
        }
        assert(false);
    }
    let rest = (power - dropped) as nat;
    let significand = digits * pow2(rest);
    lemma_pow2_adds(rest, dropped);
    assert(steps == significand * block) by (nonlinear_arith)
        requires
            steps == digits * pow2(power),
            pow2(power) == pow2(rest) * block,
            significand == digits * pow2(rest),
    ;
    lemma_half_even_exact(significand, block);
    assert(1 * block == block);
    let encoding = dropped * lead + significand;
    lemma_pow2_adds(precision, dropped);
    assert(significand < pow2(precision)) by (nonlinear_arith)
        requires
            significand * block < pow2(precision) * block,
            block > 0,
    ;
    if dropped == 0 {
        lemma2_to64();
        assert(0 * lead == 0);
        assert(significand * 1 == significand);
        assert(encoding / lead <= 1) by (nonlinear_arith)
            requires
                encoding < 2 * lead,
                lead > 0,
        ;
    } else {
        lemma_pow2_adds((precision - 1) as nat, dropped);
        assert(significand >= lead) by (nonlinear_arith)
            requires
                lead * block <= significand * block,
                block > 0,
        ;
        assert(encoding == (dropped + 1) * lead + (significand - lead)) by (nonlinear_arith)
            requires
                encoding == dropped * lead + significand,
        ;
        lemma_fundamental_div_mod_converse(
            encoding as int,
            lead as int,
            (dropped + 1) as int,
            significand - lead,
        );
    }
}

/// `2^exponent`.
pub(crate) fn power_of_two(exponent: u32) -> (power: u128)
    requires
        exponent < 127,
    ensures
        power == pow2(exponent as nat),
{
    proof {
        lemma2_to64();
        lemma2_to64_rest();
    }
    if exponent < 64 {
        let narrow: u64 = 1u64 << exponent;
        proof {
            vstd::bits::lemma_u64_pow2_no_overflow(exponent as nat);
            vstd::bits::lemma_u64_shl_is_mul(1u64, exponent as u64);
        }
        narrow as u128
    } else {
        let rest: u32 = exponent - 64;
        let narrow: u64 = 1u64 << rest;
        proof {
            vstd::bits::lemma_u64_pow2_no_overflow(rest as nat);
            vstd::bits::lemma_u64_shl_is_mul(1u64, rest as u64);
            lemma_pow2_adds(64, rest as nat);
            if rest < 62 {
                lemma_pow2_strictly_increases(rest as nat, 62);
            }
            assert(pow2(rest as nat) * 0x1_0000_0000_0000_0000 <= 0x4000_0000_0000_0000
                * 0x1_0000_0000_0000_0000) by (nonlinear_arith)
                requires
                    pow2(rest as nat) <= 0x4000_0000_0000_0000,
            ;
        }
        narrow as u128 * 0x1_0000_0000_0000_0000u128
    }
}

/// The number of binary digits of `value`; zero has none.
fn bit_length(value: u128) -> (length: u32)
    ensures
        value < pow2(length as nat),
        length > 0 ==> pow2((length - 1) as nat) <= value,
        value == 0 <==> length == 0,
        length <= 128,
{
    let mut rest: u128 = value;
    let mut length: u32 = 0;
    proof {
        lemma2_to64();
    }
    while rest > 0
        invariant
            rest * pow2(length as nat) <= value < (rest + 1) * pow2(length as nat),
            length <= 128,
            length > 0 ==> value > 0,
            length > 0 && rest == 0 ==> pow2((length - 1) as nat) <= value,
            value <= u128::MAX,
        decreases rest,
    {
        let ghost before = rest;
        let ghost old_length = length;
        proof {
            lemma_pow2_pos(length as nat);
            if length >= 128 {
                lemma2_to64();
                lemma_pow2_adds(64, 64);
                if length > 128 {
                    lemma_pow2_strictly_increases(128, length as nat);
                }
                assert(rest * pow2(length as nat) >= pow2(length as nat)) by (nonlinear_arith)
                    requires
                        rest >= 1,
                        pow2(length as nat) > 0,
                ;
                assert(0x1_0000_0000_0000_0000 * 0x1_0000_0000_0000_0000
                    == 0x1_0000_0000_0000_0000_0000_0000_0000_0000int);
                assert(false);
            }
        }
        rest = rest / 2;
        length = length + 1;
        proof {
            lemma_pow2_unfold(length as nat);
            let old_power = pow2(old_length as nat);
            assert(rest * (2 * old_power) <= value) by (nonlinear_arith)
                requires
                    before * old_power <= value,
                    2 * rest <= before,
                    old_power > 0,
            ;
            assert(value < (rest + 1) * (2 * old_power)) by (nonlinear_arith)
                requires
                    value < (before + 1) * old_power,
                    before + 1 <= 2 * rest + 2,
                    old_power > 0,
            ;
            assert(old_power <= value) by (nonlinear_arith)
                requires
                    before * old_power <= value,
                    before >= 1,
                    old_power > 0,
            ;
        }
    }
    proof {
        assert((rest + 1) * pow2(length as nat) == pow2(length as nat)) by (nonlinear_arith)
            requires
                rest == 0,
        ;
        lemma2_to64();
    }
    length
}

/// Encode the ratio that the arguments bracket.
///
/// `precision` is the width of the significand and `infinity` the encoding
/// that every larger one collapses to.
pub(crate) fn encode(
    mantissa: u128,
    inexact: bool,
    up: u32,
    down: u32,
    precision: u32,
    infinity: u64,
) -> (magnitude: u64)
    requires
        0 < precision <= 53,
        mantissa < 0x0100_0000_0000_0000_0000_0000_0000_0000,
        up <= 3500,
        down <= 3500,
        inexact ==> mantissa >= pow2((precision + 1) as nat),
    ensures
        forall|num: nat, den: nat|
            #[trigger] bracketed(num, den, mantissa as nat, inexact, up as nat, down as nat)
                ==> magnitude == bounded(
                encoded_ratio(num, den, precision as nat),
                infinity as nat,
            ),
{
    let length: u32 = bit_length(mantissa);
    if length == 0 {
        proof {
            lemma_pow2_pos((precision + 1) as nat);
            assert forall|num: nat, den: nat|
                #[trigger] bracketed(
                    num,
                    den,
                    mantissa as nat,
                    inexact,
                    up as nat,
                    down as nat,
                ) implies encoded_ratio(num, den, precision as nat) == 0 by {
                lemma_encoded_zero(num, den, up as nat, down as nat, precision as nat);
            }
        }
        return 0;
    }
    proof {
        lemma2_to64();
        lemma_pow2_adds(64, 56);
        lemma2_to64_rest();
        if length > 120 {
            if length > 121 {
                lemma_pow2_strictly_increases(120, (length - 1) as nat);
            }
            assert(0x1_0000_0000_0000_0000 * 0x100_0000_0000_0000
                == 0x0100_0000_0000_0000_0000_0000_0000_0000int);
            assert(false);
        }
        if inexact && length < precision + 2 {
            if length < precision + 1 {
                lemma_pow2_strictly_increases(length as nat, (precision + 1) as nat);
            }
            assert(false);
        }
    }
    let top: i64 = length as i64 + up as i64 - down as i64;
    let dropped: u64 = if top > precision as i64 {
        (top - precision as i64) as u64
    } else {
        0
    };
    let shift: i64 = dropped as i64 + down as i64 - up as i64;
    proof {
        if precision < 53 {
            lemma_pow2_strictly_increases(precision as nat, 53);
        }
        lemma_pow2_unfold(precision as nat);
        assert forall|num: nat, den: nat|
            #[trigger] bracketed(
                num,
                den,
                mantissa as nat,
                inexact,
                up as nat,
                down as nat,
            ) implies encoded_ratio(num, den, precision as nat) == dropped * pow2(
            (precision - 1) as nat,
        ) + significand_of(mantissa as nat, inexact, shift as int) by {
            lemma_encoded_bracketed(
                num,
                den,
                mantissa as nat,
                inexact,
                up as nat,
                down as nat,
                precision as nat,
                length as nat,
                dropped as nat,
                shift as int,
            );
            if shift > 0 {
                lemma_pow2_pos(up as nat);
                assert(den * pow2(up as nat) > 0) by (nonlinear_arith)
                    requires
                        den > 0,
                        pow2(up as nat) > 0,
                ;
                lemma_half_even_bracketed(
                    num * pow2(down as nat),
                    den * pow2(up as nat),
                    mantissa as nat,
                    inexact,
                    shift as nat,
                );
            }
        }
    }
    let lead: u64 = power_of_two(precision - 1) as u64;
    let significand: u64 = if shift <= 0 {
        let grow: u32 = (-shift) as u32;
        proof {
            lemma_pow2_adds(length as nat, grow as nat);
            if length + grow < precision {
                lemma_pow2_strictly_increases((length + grow) as nat, precision as nat);
            }
            lemma_pow2_pos(grow as nat);
            assert(mantissa * pow2(grow as nat) < pow2(length as nat) * pow2(grow as nat))
                by (nonlinear_arith)
                requires
                    mantissa < pow2(length as nat),
                    pow2(grow as nat) > 0,
            ;
        }
        (mantissa * power_of_two(grow)) as u64
    } else if shift > 120 {
        proof {
            lemma_pow2_unfold(shift as nat);
            if shift > 121 {
                lemma_pow2_strictly_increases(120, (shift - 1) as nat);
            }
            assert(0x1_0000_0000_0000_0000 * 0x100_0000_0000_0000
                == 0x0100_0000_0000_0000_0000_0000_0000_0000int);
            lemma_small_mod(mantissa as nat, pow2(shift as nat));
            lemma_basic_div(mantissa as int, pow2(shift as nat) as int);
        }
        0
    } else {
        let block: u128 = power_of_two(shift as u32);
        proof {
            lemma_pow2_pos(shift as nat);
        }
        let quotient: u128 = mantissa / block;
        let remainder: u128 = mantissa % block;
        proof {
            lemma_fundamental_div_mod(mantissa as int, block as int);
            lemma_mod_pos_bound(mantissa as int, block as int);
            lemma_pow2_adds(precision as nat, shift as nat);
            if length < precision + shift {
                lemma_pow2_strictly_increases(length as nat, (precision + shift) as nat);
            }
            assert(quotient < pow2(precision as nat)) by (nonlinear_arith)
                requires
                    mantissa == block * quotient + remainder,
                    remainder >= 0,
                    block > 0,
                    mantissa < pow2(precision as nat) * block,
            ;
            lemma_pow2_unfold(shift as nat);
        }
        let half: u128 = block / 2;
        if remainder < half || (remainder == half && !inexact && quotient % 2 == 0) {
            quotient as u64
        } else {
            quotient as u64 + 1
        }
    };
    proof {
        assert(dropped * lead <= 3620 * 0x10_0000_0000_0000) by (nonlinear_arith)
            requires
                0 <= dropped <= 3620,
                0 <= lead <= 0x10_0000_0000_0000,
        ;
    }
    let magnitude: u64 = dropped * lead + significand;
    if magnitude < infinity {
        magnitude
    } else {
        infinity
    }
}

/// What an encoding of dropped bits and digits stands for.
proof fn lemma_decoded_digits(dropped: nat, digits: nat, precision: nat)
    requires
        precision > 0,
        digits <= pow2(precision),
        dropped > 0 ==> digits >= pow2((precision - 1) as nat),
    ensures
        decoded_steps(dropped * pow2((precision - 1) as nat) + digits, precision) == digits * pow2(
            dropped,
        ),
{
    let lead = pow2((precision - 1) as nat);
    let block = pow2(dropped);
    let encoding = dropped * lead + digits;
    lemma_pow2_pos((precision - 1) as nat);
    lemma_pow2_unfold(precision);
    lemma_pow2_pos(dropped);
    lemma2_to64();
    if digits == 2 * lead {
        assert(encoding == (dropped + 2) * lead) by (nonlinear_arith)
            requires
                encoding == dropped * lead + digits,
                digits == 2 * lead,
        ;
        lemma_fundamental_div_mod_converse(encoding as int, lead as int, (dropped + 2) as int, 0);
        lemma_pow2_unfold(dropped + 1);
        assert((dropped + 1 - 1) as nat == dropped);
        assert(lead * pow2(dropped + 1) == digits * block) by (nonlinear_arith)
            requires
                pow2(dropped + 1) == 2 * block,
                digits == 2 * lead,
        ;
    } else if dropped == 0 {
        assert(0 * lead == 0);
        assert(digits * 1 == digits);
        assert(encoding / lead <= 1) by (nonlinear_arith)
            requires
                encoding < 2 * lead,
                lead > 0,
        ;
    } else {
        assert(encoding == (dropped + 1) * lead + (digits - lead)) by (nonlinear_arith)
            requires
                encoding == dropped * lead + digits,
        ;
        lemma_fundamental_div_mod_converse(
            encoding as int,
            lead as int,
            (dropped + 1) as int,
            digits - lead,
        );
    }
}

/// The distance of two numbers.
pub open spec fn distance(one: int, other: int) -> int {
    if one < other {
        other - one
    } else {
        one - other
    }
}

/// No number of the format lies nearer to a ratio than the one that it is
/// rounded to, and where another one lies as near, that one is the even one.
pub proof fn rounding_takes_the_nearest(num: nat, den: nat, precision: nat, other: nat)
    requires
        precision > 0,
        den > 0,
    ensures
        ({
            let kept = decoded_steps(encoded_ratio(num, den, precision), precision);
            let rival = decoded_steps(other, precision);
            let near = distance(num as int, (kept * den) as int);
            let far = distance(num as int, (rival * den) as int);
            &&& near <= far
            &&& near == far && other != encoded_ratio(num, den, precision) && precision >= 2
                ==> encoded_ratio(num, den, precision) % 2 == 0
        }),
{
    let whole = num / den;
    let dropped = excess(whole, precision);
    let lead = pow2((precision - 1) as nat);
    let block = pow2(dropped);
    let unit = den * block;
    let digits = half_even(num, unit);
    let encoding = encoded_ratio(num, den, precision);
    let kept = decoded_steps(encoding, precision);
    let rival = decoded_steps(other, precision);
    lemma_pow2_pos((precision - 1) as nat);
    lemma_pow2_pos(dropped);
    lemma_pow2_unfold(precision);
    lemma_significand_bounds(num, den, precision);
    lemma_decoded_digits(dropped, digits, precision);
    assert(unit > 0) by (nonlinear_arith)
        requires
            den > 0,
            block > 0,
            unit == den * block,
    ;
    lemma_fundamental_div_mod(num as int, unit as int);
    lemma_mod_pos_bound(num as int, unit as int);
    let floor = num / unit;
    let rest = num % unit;
    assert(kept * den == digits * unit) by (nonlinear_arith)
        requires
            kept == digits * block,
            unit == den * block,
    ;
    assert(num == floor * unit + rest) by (nonlinear_arith)
        requires
            num == unit * floor + rest,
    ;
    assert((floor + 1) * unit == floor * unit + unit) by (nonlinear_arith);
    if precision >= 2 && digits % 2 == 0 {
        lemma_pow2_unfold((precision - 1) as nat);
        let half = pow2((precision - 2) as nat);
        assert((precision - 1 - 1) as nat == (precision - 2) as nat);
        assert(dropped * lead == 2 * (dropped * half)) by (nonlinear_arith)
            requires
                lead == 2 * half,
        ;
    }
    if other < encoding {
        decoding_preserves_order(other, encoding, precision);
        assert(rival * den < kept * den) by (nonlinear_arith)
            requires
                rival < kept,
                den > 0,
        ;
        if num < kept * den {
            assert(digits == floor + 1);
            lemma_floor_is_wide(num, den, precision);
            let before = (encoding - 1) as nat;
            lemma_decoded_digits(dropped, floor, precision);
            assert(before == dropped * lead + floor);
            if other < before {
                decoding_preserves_order(other, before, precision);
            }
            assert(rival * den <= floor * unit) by (nonlinear_arith)
                requires
                    rival <= floor * block,
                    unit == den * block,
            ;
        }
    } else if other > encoding {
        decoding_preserves_order(encoding, other, precision);
        assert(rival * den > kept * den) by (nonlinear_arith)
            requires
                rival > kept,
                den > 0,
        ;
        if num > kept * den {
            assert(digits == floor);
            lemma_floor_is_wide(num, den, precision);
            let after = encoding + 1;
            lemma_decoded_digits(dropped, floor + 1, precision);
            assert(after == dropped * lead + (floor + 1));
            if after < other {
                decoding_preserves_order(after, other, precision);
            }
            assert(rival * den >= (floor + 1) * unit) by (nonlinear_arith)
                requires
                    rival >= (floor + 1) * block,
                    unit == den * block,
            ;
        }
    }
}

/// What is left of a ratio once bits are dropped has the full width, and no
/// more.
proof fn lemma_floor_is_wide(num: nat, den: nat, precision: nat)
    requires
        precision > 0,
        den > 0,
    ensures
        ({
            let dropped = excess(num / den, precision);
            let floor = num / (den * pow2(dropped));
            &&& floor < pow2(precision)
            &&& dropped > 0 ==> floor >= pow2((precision - 1) as nat)
        }),
{
    let whole = num / den;
    let dropped = excess(whole, precision);
    let block = pow2(dropped);
    lemma_pow2_pos(dropped);
    lemma_excess_bounds(whole, precision);
    lemma_pow2_adds(precision, dropped);
    lemma_div_denominator(num as int, den as int, block as int);
    let floor = whole / block;
    lemma_fundamental_div_mod(whole as int, block as int);
    lemma_mod_pos_bound(whole as int, block as int);
    let rest = whole % block;
    let top = pow2(precision);
    assert(floor < top) by (nonlinear_arith)
        requires
            whole == block * floor + rest,
            whole < top * block,
            rest >= 0,
            block > 0,
    ;
    if dropped > 0 {
        let lead = pow2((precision - 1) as nat);
        lemma_pow2_adds((precision - 1) as nat, dropped);
        assert(floor >= lead) by (nonlinear_arith)
            requires
                whole == block * floor + rest,
                whole >= lead * block,
                rest < block,
                block > 0,
        ;
    }
}

} // verus!
