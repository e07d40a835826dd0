//! Decimal text of integers and of binary numbers with two decimals.

use crate::binary::Binary64;
use crate::float::Format;
use crate::rounding::power_of_two;
use vstd::arithmetic::power2::*;
use vstd::prelude::*;
use vstd::string::*;

verus! {

/// The character of a decimal digit.
pub open spec fn digit_char(digit: nat) -> char {
    if digit == 0 {
        '0'
    } else if digit == 1 {
        '1'
    } else if digit == 2 {
        '2'
    } else if digit == 3 {
        '3'
    } else if digit == 4 {
        '4'
    } else if digit == 5 {
        '5'
    } else if digit == 6 {
        '6'
    } else if digit == 7 {
        '7'
    } else if digit == 8 {
        '8'
    } else {
        '9'
    }
}

/// A natural number in decimal.
pub open spec fn decimal_text(number: nat) -> Seq<char>
    decreases number,
{
    if number < 10 {
        seq![digit_char(number)]
    } else {
        decimal_text(number / 10).push(digit_char(number % 10))
    }
}

/// A number of hundredths with its two decimals.
pub open spec fn fixed_text(hundredths: nat) -> Seq<char> {
    let rest = hundredths % 100;
    decimal_text(hundredths / 100) + seq!['.', digit_char(rest / 10), digit_char(rest % 10)]
}

/// The number that digits stand for, the lowest first.
pub open spec fn digits_value(digits: Seq<u8>) -> nat
    decreases digits.len(),
{
    if digits.len() == 0 {
        0
    } else {
        digits[0] as nat + 10 * digits_value(digits.drop_first())
    }
}

/// Decimal digits, the lowest first, without leading zeros.
pub open spec fn are_digits(digits: Seq<u8>) -> bool {
    &&& digits.len() > 0
    &&& digits.len() > 1 ==> digits.last() != 0
    &&& forall|at: int| 0 <= at < digits.len() ==> #[trigger] digits[at] < 10
}

proof fn lemma_digits_text(digits: Seq<u8>)
    requires
        are_digits(digits),
    ensures
        decimal_text(digits_value(digits)) =~= Seq::new(
            digits.len(),
            |at: int| digit_char(digits[digits.len() - 1 - at] as nat),
        ),
        digits.len() > 1 ==> digits_value(digits) >= 10,
        digits.last() != 0 ==> digits_value(digits) > 0,
    decreases digits.len(),
{
    let rest = digits.drop_first();
    if digits.len() == 1 {
        assert(digits_value(rest) == 0);
    } else {
        assert(rest.last() == digits.last());
        assert forall|at: int| 0 <= at < rest.len() implies #[trigger] rest[at] < 10 by {
            assert(rest[at] == digits[at + 1]);
        }
        lemma_digits_text(rest);
        let value = digits_value(digits);
        assert(value / 10 == digits_value(rest));
        assert(value % 10 == digits[0] as nat);
    }
}

proof fn lemma_digits_push(digits: Seq<u8>, digit: u8)
    ensures
        digits_value(digits.push(digit)) == digits_value(digits) + digit
            * vstd::arithmetic::power::pow(10, digits.len()),
    decreases digits.len(),
{
    let pushed = digits.push(digit);
    let rest = digits.drop_first();
    if digits.len() == 0 {
        assert(pushed.drop_first() =~= Seq::<u8>::empty());
        assert(digits_value(pushed.drop_first()) == 0);
        assert(pushed[0] == digit);
        vstd::arithmetic::power::lemma_pow0(10);
        assert(digit * 1 == digit);
    } else {
        assert(pushed.drop_first() =~= rest.push(digit));
        lemma_digits_push(rest, digit);
        assert(pushed[0] == digits[0]);
        assert(1 + rest.len() == digits.len());
        vstd::arithmetic::power::lemma_pow_adds(10, 1, rest.len());
        vstd::arithmetic::power::lemma_pow1(10);
        let power = vstd::arithmetic::power::pow(10, rest.len());
        assert(10 * (digit * power) == digit * (10 * power)) by (nonlinear_arith);
    }
}

/// The digits of a machine integer.
fn digits_of(number: u64) -> (digits: Vec<u8>)
    ensures
        are_digits(digits@),
        digits_value(digits@) == number,
{
    let mut digits: Vec<u8> = Vec::new();
    let mut rest: u64 = number;
    proof {
        vstd::arithmetic::power::lemma_pow0(10);
        assert(rest * 1 == rest);
    }
    while rest >= 10
        invariant
            number == digits_value(digits@) + rest * vstd::arithmetic::power::pow(
                10,
                digits@.len(),
            ),
            forall|at: int| 0 <= at < digits@.len() ==> #[trigger] digits@[at] < 10,
            digits@.len() > 0 ==> rest > 0,
        decreases rest,
    {
        let digit: u8 = (rest % 10) as u8;
        proof {
            lemma_digits_push(digits@, digit);
            vstd::arithmetic::power::lemma_pow_adds(10, 1, digits@.len());
            vstd::arithmetic::power::lemma_pow1(10);
            let power = vstd::arithmetic::power::pow(10, digits@.len());
            assert(rest * power == digit * power + (rest / 10) * (10 * power)) by (nonlinear_arith)
                requires
                    rest == digit + 10 * (rest / 10),
            ;
        }
        digits.push(digit);
        rest = rest / 10;
    }
    proof {
        lemma_digits_push(digits@, rest as u8);
    }
    digits.push(rest as u8);
    digits
}

/// Twice a number of digits and a carry.
proof fn lemma_doubled(before: Seq<u8>, after: Seq<u8>, carry: nat)
    requires
        before.len() == after.len(),
        forall|at: int|
            0 <= at < before.len() ==> #[trigger] after[at] + 10 * carry_after(before, at + 1)
                == 2 * before[at] + carry_after(before, at),
        carry == carry_after(before, before.len() as int),
    ensures
        digits_value(after) + carry * vstd::arithmetic::power::pow(10, before.len()) == 2
            * digits_value(before),
    decreases before.len(),
{
    lemma_doubled_from(before, after, 0);
    assert(before.skip(0) =~= before);
    assert(after.skip(0) =~= after);
}

/// The carry into a digit when a number is doubled.
spec fn carry_after(digits: Seq<u8>, count: int) -> nat
    decreases count,
{
    if count <= 0 {
        0
    } else {
        (2 * digits[count - 1] + carry_after(digits, count - 1)) as nat / 10
    }
}

proof fn lemma_doubled_from(before: Seq<u8>, after: Seq<u8>, at: int)
    requires
        before.len() == after.len(),
        0 <= at <= before.len(),
        forall|at: int|
            0 <= at < before.len() ==> #[trigger] after[at] + 10 * carry_after(before, at + 1)
                == 2 * before[at] + carry_after(before, at),
    ensures
        digits_value(after.skip(at)) + carry_after(before, before.len() as int)
            * vstd::arithmetic::power::pow(10, (before.len() - at) as nat) == 2 * digits_value(
            before.skip(at),
        ) + carry_after(before, at),
    decreases before.len() - at,
{
    let carry = carry_after(before, before.len() as int);
    if at == before.len() {
        assert(before.skip(at).len() == 0);
        assert(after.skip(at).len() == 0);
        vstd::arithmetic::power::lemma_pow0(10);
        assert(carry * 1 == carry);
    } else {
        lemma_doubled_from(before, after, at + 1);
        assert(before.skip(at).drop_first() =~= before.skip(at + 1));
        assert(after.skip(at).drop_first() =~= after.skip(at + 1));
        let length = (before.len() - at - 1) as nat;
        vstd::arithmetic::power::lemma_pow_adds(10, 1, length);
        vstd::arithmetic::power::lemma_pow1(10);
        let power = vstd::arithmetic::power::pow(10, length);
        assert(carry * (10 * power) == 10 * (carry * power)) by (nonlinear_arith);
        assert(after[at] + 10 * carry_after(before, at + 1) == 2 * before[at] + carry_after(
            before,
            at,
        ));
    }
}

/// Double a number.
fn double(digits: &mut Vec<u8>)
    requires
        are_digits(old(digits)@),
    ensures
        are_digits(final(digits)@),
        digits_value(final(digits)@) == 2 * digits_value(old(digits)@),
{
    let ghost before = digits@;
    let mut carry: u8 = 0;
    let mut at: usize = 0;
    while at < digits.len()
        invariant
            at <= digits@.len(),
            digits@.len() == before.len(),
            are_digits(before),
            carry <= 1,
            carry == carry_after(before, at as int),
            forall|done: int|
                0 <= done < at ==> #[trigger] digits@[done] < 10 && digits@[done] + 10
                    * carry_after(before, done + 1) == 2 * before[done] + carry_after(before, done),
            forall|rest: int| at <= rest < digits@.len() ==> #[trigger] digits@[rest] == before[rest],
        decreases digits@.len() - at,
    {
        let sum: u8 = 2 * digits[at] + carry;
        assert(carry_after(before, at + 1) == sum as nat / 10);
        digits.set(at, sum % 10);
        carry = sum / 10;
        at = at + 1;
    }
    proof {
        lemma_doubled(before, digits@, carry as nat);
        lemma_digits_push(digits@, carry);
        assert(digits@.last() + 10 * carry == 2 * before.last() + carry_after(
            before,
            before.len() - 1,
        ));
        if carry == 0 {
            assert(0 * vstd::arithmetic::power::pow(10, before.len()) == 0) by (nonlinear_arith);
        }
    }
    if carry > 0 {
        digits.push(carry);
    }
}

/// Append the character of a digit.
fn push_digit(text: &mut String, digit: u8)
    requires
        digit < 10,
    ensures
        final(text)@ == old(text)@.push(digit_char(digit as nat)),
{
    proof {
        reveal_strlit("0");
        reveal_strlit("1");
        reveal_strlit("2");
        reveal_strlit("3");
        reveal_strlit("4");
        reveal_strlit("5");
        reveal_strlit("6");
        reveal_strlit("7");
        reveal_strlit("8");
        reveal_strlit("9");
    }
    let character: &str = match digit {
        0 => "0",
        1 => "1",
        2 => "2",
        3 => "3",
        4 => "4",
        5 => "5",
        6 => "6",
        7 => "7",
        8 => "8",
        _ => "9",
    };
    text.append(character);
    assert(text@ =~= old(text)@.push(digit_char(digit as nat)));
}

/// Append digits in reading order.
fn push_digits(text: &mut String, digits: &Vec<u8>)
    requires
        are_digits(digits@),
    ensures
        final(text)@ == old(text)@ + decimal_text(digits_value(digits@)),
{
    let ghost start = text@;
    let ghost written = Seq::new(
        digits@.len(),
        |at: int| digit_char(digits@[digits@.len() - 1 - at] as nat),
    );
    let mut left: usize = digits.len();
    while left > 0
        invariant
            left <= digits@.len(),
            are_digits(digits@),
            written == Seq::new(
                digits@.len(),
                |at: int| digit_char(digits@[digits@.len() - 1 - at] as nat),
            ),
            text@ =~= start + written.take(digits@.len() - left),
        decreases left,
    {
        left = left - 1;
        push_digit(text, digits[left]);
        assert(written.take(digits@.len() - left) =~= written.take(
            digits@.len() - left - 1,
        ).push(written[digits@.len() - left - 1]));
    }
    proof {
        lemma_digits_text(digits@);
        assert(written.take(digits@.len() as int) =~= written);
    }
}

/// Append a machine integer in decimal.
pub fn push_decimal(text: &mut String, number: u64)
    ensures
        final(text)@ == old(text)@ + decimal_text(number as nat),
{
    let digits: Vec<u8> = digits_of(number);
    push_digits(text, &digits);
}

impl Binary64 {
    /// The number of hundredths nearest to a finite number that is not
    /// negative, ties to the even one.
    pub open spec fn hundredths(self) -> nat {
        crate::rounding::half_even(
            self.datum().steps(Format::Binary64) * 100,
            Format::Binary64.one(),
        )
    }

    /// The number with two decimals.
    pub open spec fn two_decimals(self) -> Seq<char> {
        if self.is_finite() {
            fixed_text(self.hundredths())
        } else {
            seq!['i', 'n', 'f']
        }
    }
}

/// Append a number of hundredths with its two decimals.
fn push_hundredths(text: &mut String, hundredths: u64)
    ensures
        final(text)@ == old(text)@ + fixed_text(hundredths as nat),
{
    let ghost start = text@;
    let rest: u64 = hundredths % 100;
    push_decimal(text, hundredths / 100);
    proof {
        reveal_strlit(".");
    }
    text.append(".");
    push_digit(text, (rest / 10) as u8);
    push_digit(text, (rest % 10) as u8);
    assert(text@ =~= start + fixed_text(hundredths as nat));
}

/// Append a number that is not negative with two decimals.
pub fn push_two_decimals(text: &mut String, number: Binary64)
    requires
        !number.is_nan(),
        !number.datum().negative,
    ensures
        final(text)@ == old(text)@ + number.two_decimals(),
{
    let ghost start = text@;
    if !number.is_finite() {
        proof {
            reveal_strlit("inf");
        }
        text.append("inf");
        assert(text@ =~= start + number.two_decimals());
        return;
    }
    let (digits, power): (u64, u32) = number.split();
    let ghost steps = number.datum().steps(Format::Binary64);
    let ghost one = Format::Binary64.one();
    proof {
        lemma2_to64();
        lemma2_to64_rest();
        lemma_pow2_pos(1074);
    }
    if power >= 1074 {
        let mut whole: Vec<u8> = digits_of(digits);
        let mut count: u32 = 0;
        let shift: u32 = power - 1074;
        assert(digits * 1 == digits);
        while count < shift
            invariant
                count <= shift <= 1000,
                are_digits(whole@),
                digits_value(whole@) == digits * pow2(count as nat),
            decreases shift - count,
        {
            double(&mut whole);
            count = count + 1;
            proof {
                lemma_pow2_unfold(count as nat);
                let half = pow2((count - 1) as nat);
                assert(2 * (digits * half) == digits * (2 * half)) by (nonlinear_arith);
            }
        }
        push_digits(text, &whole);
        proof {
            reveal_strlit(".00");
            let value = digits * pow2(shift as nat);
            lemma_pow2_adds(shift as nat, 1074);
            assert(steps * 100 == (value * 100) * one) by (nonlinear_arith)
                requires
                    steps == digits * pow2(power as nat),
                    pow2(power as nat) == pow2(shift as nat) * one,
                    value == digits * pow2(shift as nat),
            ;
            crate::rounding::lemma_half_even_exact((value * 100) as nat, one);
            assert(number.hundredths() == value * 100);
        }
        text.append(".00");
        assert(text@ =~= start + number.two_decimals());
    } else {
        let drop: u32 = 1074 - power;
        let scaled: u64 = digits * 100;
        proof {
            lemma_pow2_adds(drop as nat, power as nat);
            lemma_pow2_pos(drop as nat);
            lemma_pow2_pos(power as nat);
            assert(steps * 100 == scaled * pow2(power as nat)) by (nonlinear_arith)
                requires
                    steps == digits * pow2(power as nat),
                    scaled == digits * 100,
            ;
            crate::rounding::lemma_half_even_scale(
                scaled as nat,
                pow2(drop as nat),
                pow2(power as nat),
            );
        }
        let hundredths: u64 = if drop >= 64 {
            proof {
                if drop > 64 {
                    lemma_pow2_strictly_increases(64, drop as nat);
                }
                vstd::arithmetic::div_mod::lemma_fundamental_div_mod_converse(
                    scaled as int,
                    pow2(drop as nat) as int,
                    0,
                    scaled as int,
                );
            }
            0
        } else {
            let unit: u128 = power_of_two(drop);
            let quotient: u128 = scaled as u128 / unit;
            let remainder: u128 = scaled as u128 % unit;
            proof {
                assert(quotient <= scaled) by (nonlinear_arith)
                    requires
                        quotient == scaled as u128 / unit,
                        unit >= 1,
                ;
            }
            if 2 * remainder < unit || (2 * remainder == unit && quotient % 2 == 0) {
                quotient as u64
            } else {
                quotient as u64 + 1
            }
        };
        assert(hundredths == number.hundredths());
        push_hundredths(text, hundredths);
    }
}

/// The number that a text of decimal digits reads as.
pub open spec fn text_value(text: Seq<char>) -> int
    decreases text.len(),
{
    if text.len() == 0 {
        0
    } else {
        10 * text_value(text.drop_last()) + (text.last() as int - 48)
    }
}

/// The text of a number is made of decimal digits, reads as the number and
/// starts with a zero only where the zero is all of it.
pub proof fn decimals_read_as_their_number(number: nat)
    ensures
        ({
            let text = decimal_text(number);
            &&& text_value(text) == number
            &&& text.len() > 0
            &&& text.len() > 1 ==> text[0] != '0'
            &&& forall|at: int|
                0 <= at < text.len() ==> 48 <= (#[trigger] text[at]) as int && text[at] as int <= 57
        }),
    decreases number,
{
    let text = decimal_text(number);
    if number < 10 {
        assert(text.drop_last() =~= seq![]);
        assert(text_value(text.drop_last()) == 0);
    } else {
        let rest = decimal_text(number / 10);
        decimals_read_as_their_number(number / 10);
        assert(text.drop_last() =~= rest);
        assert(text[0] == rest[0]);
        if rest.len() == 1 {
            assert(rest.drop_last() =~= seq![]);
            assert(text_value(rest.drop_last()) == 0);
        }
    }
}

/// A number with two decimals reads, without its point, as its hundredths; the
/// point stands before the last two digits.
pub proof fn hundredths_read_as_their_number(hundredths: nat)
    ensures
        ({
            let text = fixed_text(hundredths);
            let point = text.len() - 3;
            &&& point >= 1
            &&& text[point] == '.'
            &&& text_value(text.take(point) + text.skip(point + 1)) == hundredths
        }),
{
    let text = fixed_text(hundredths);
    let whole = decimal_text(hundredths / 100);
    let rest = hundredths % 100;
    let point = text.len() - 3;
    decimals_read_as_their_number(hundredths / 100);
    let digits = text.take(point) + text.skip(point + 1);
    let tenths = whole.push(digit_char(rest / 10));
    assert(digits =~= tenths.push(digit_char(rest % 10)));
    assert(digits.drop_last() =~= tenths);
    assert(tenths.drop_last() =~= whole);
    assert(text_value(tenths) == 10 * (hundredths / 100) + rest / 10);
    assert(digits.last() == digit_char(rest % 10));
    assert(text_value(digits) == 10 * text_value(tenths) + rest % 10);
    assert(hundredths == 100 * (hundredths / 100) + rest);
    assert(rest == 10 * (rest / 10) + rest % 10);
    assert(text[point] == '.');
}

/// A number is shown in the hundredths nearest to it.
pub proof fn two_decimals_are_the_nearest(number: Binary64)
    ensures
        ({
            let one = Format::Binary64.one();
            let exact = number.datum().steps(Format::Binary64) * 100;
            let shown = number.hundredths() * one;
            &&& 2 * (exact - shown) <= one
            &&& 2 * (shown - exact) <= one
        }),
{
    let one = Format::Binary64.one();
    let exact = number.datum().steps(Format::Binary64) * 100;
    vstd::arithmetic::power2::lemma_pow2_pos(1074);
    vstd::arithmetic::div_mod::lemma_fundamental_div_mod(exact as int, one as int);
    vstd::arithmetic::div_mod::lemma_mod_bound(exact as int, one as int);
    let quotient = exact / one;
    let rest = exact % one;
    assert((quotient + 1) * one == quotient * one + one && one * quotient == quotient * one)
        by (nonlinear_arith);
}

/// A number beyond all hundredths is told by name.
pub proof fn endless_numbers_are_told_by_name(number: Binary64)
    requires
        !number.is_finite(),
    ensures
        number.two_decimals() == seq!['i', 'n', 'f'],
{
}

} // verus!
