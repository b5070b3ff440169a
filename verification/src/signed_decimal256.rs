use vstd::prelude::*;

use crate::error::RouterError;
use crate::math::{
    difference_of, magnitude, product_of, quotient_of, sum_of, with_sign, CheckedAdd, CheckedDiv,
    CheckedMul, CheckedSub, DecimalMath, Infinity, MachineEpsilon, Scaled,
};
use crate::unsigned_decimal::{
    decimal_read, decimal_sqrt, decimal_sqrt_grain, decimal_text, decimal_unit, lemma_decimal_sqrt,
    magnitude_checked_add, magnitude_checked_div, magnitude_checked_mul, magnitude_checked_sub,
    magnitude_eq, magnitude_from_ratio, magnitude_is_zero, magnitude_lt, magnitude_max,
    magnitude_one, magnitude_parse, magnitude_sqrt, magnitude_text, magnitude_zero, max_atomics,
    parse_error_text, text_limit, UnsignedDecimal,
};

verus! {

/// Whether a text starts with a minus sign.
pub open spec fn is_negative_text(text: Seq<char>) -> bool {
    text.len() > 0 && text[0] == '-'
}

/// A text without its leading minus sign, if it has one.
pub open spec fn unsigned_part(text: Seq<char>) -> Seq<char> {
    if is_negative_text(text) {
        text.subrange(1, text.len() as int)
    } else {
        text
    }
}

/// A decimal number with eighteen places, held as a magnitude and a sign. A zero
/// magnitude stands for zero whatever the sign says.
#[derive(Clone, Copy, Debug)]
pub struct SignedDecimal256 {
    pub value: UnsignedDecimal,
    /// `true` for a number that is not negative.
    pub sign: bool,
}

impl Scaled for SignedDecimal256 {
    open spec fn val(self) -> int {
        with_sign(self.sign, self.value.atomics())
    }

    open spec fn unit() -> nat {
        decimal_unit()
    }

    open spec fn limit() -> nat {
        max_atomics()
    }

    proof fn lemma_scale() {
    }

    proof fn lemma_in_range(self) {
        self.value.lemma_atomics_bound();
    }
}

impl Infinity for SignedDecimal256 {
    fn infinity() -> (r: Self)
        ensures
            r.sign,
    {
        Self { value: magnitude_max(), sign: true }
    }
}

impl MachineEpsilon for SignedDecimal256 {
    fn eps() -> (r: Self)
        ensures
            r.sign,
    {
        Self { value: magnitude_zero(), sign: true }
    }
}

impl CheckedAdd for SignedDecimal256 {
    /// Equal signs add the magnitudes and keep the sign; unequal signs subtract the
    /// smaller magnitude from the larger and take the sign of the larger operand.
    fn checked_add(self, rhs: Self) -> (r: Result<Self, RouterError>)
        ensures
            r matches Ok(v) ==> v.sign == self.sum_sign(rhs),
    {
        proof {
            self.value.lemma_atomics_bound();
            rhs.value.lemma_atomics_bound();
        }
        if self.sign == rhs.sign {
            match magnitude_checked_add(self.value, rhs.value) {
                Ok(value) => {
                    proof {
                        value.lemma_atomics_bound();
                    }
                    Ok(Self { value, sign: self.sign })
                },
                Err(_) => Err(RouterError::Overflow),
            }
        } else if !magnitude_lt(self.value, rhs.value) {
            match magnitude_checked_sub(self.value, rhs.value) {
                Ok(value) => {
                    proof {
                        value.lemma_atomics_bound();
                    }
                    Ok(Self { value, sign: self.sign })
                },
                Err(_) => Err(RouterError::Overflow),
            }
        } else {
            match magnitude_checked_sub(rhs.value, self.value) {
                Ok(value) => {
                    proof {
                        value.lemma_atomics_bound();
                    }
                    Ok(Self { value, sign: rhs.sign })
                },
                Err(_) => Err(RouterError::Overflow),
            }
        }
    }
}

impl CheckedSub for SignedDecimal256 {
    /// Unequal signs add the magnitudes and keep the sign of the minuend; equal signs
    /// subtract the smaller magnitude from the larger, and the sign is that of the
    /// minuend unless the subtrahend has the larger magnitude.
    fn checked_sub(self, rhs: Self) -> (r: Result<Self, RouterError>)
        ensures
            r matches Ok(v) ==> v.sign == self.difference_sign(rhs),
    {
        proof {
            self.value.lemma_atomics_bound();
            rhs.value.lemma_atomics_bound();
        }
        if self.sign != rhs.sign {
            match magnitude_checked_add(self.value, rhs.value) {
                Ok(value) => {
                    proof {
                        value.lemma_atomics_bound();
                    }
                    Ok(Self { value, sign: self.sign })
                },
                Err(_) => Err(RouterError::Overflow),
            }
        } else if !magnitude_lt(self.value, rhs.value) {
            match magnitude_checked_sub(self.value, rhs.value) {
                Ok(value) => {
                    proof {
                        value.lemma_atomics_bound();
                    }
                    Ok(Self { value, sign: self.sign })
                },
                Err(_) => Err(RouterError::Overflow),
            }
        } else {
            match magnitude_checked_sub(rhs.value, self.value) {
                Ok(value) => {
                    proof {
                        value.lemma_atomics_bound();
                    }
                    Ok(Self { value, sign: !self.sign })
                },
                Err(_) => Err(RouterError::Overflow),
            }
        }
    }
}

impl CheckedMul for SignedDecimal256 {
    /// The magnitudes are multiplied; the result is positive exactly when the signs
    /// are equal.
    fn checked_mul(self, rhs: Self) -> (r: Result<Self, RouterError>)
        ensures
            r matches Ok(v) ==> v.sign == (self.sign == rhs.sign),
    {
        match magnitude_checked_mul(self.value, rhs.value) {
            Ok(value) => {
                proof {
                    value.lemma_atomics_bound();
                    lemma_zero_product(self.value.atomics(), rhs.value.atomics(), decimal_unit());
                }
                Ok(Self { value, sign: self.sign == rhs.sign })
            },
            Err(_) => Err(RouterError::Overflow),
        }
    }
}

impl CheckedDiv for SignedDecimal256 {
    open spec fn divisor(rhs: Self) -> int {
        rhs.val()
    }

    /// The magnitudes are divided; the result is positive exactly when the signs are
    /// equal.
    fn checked_div(self, rhs: Self) -> (r: Result<Self, RouterError>)
        ensures
            r matches Ok(v) ==> v.sign == (self.sign == rhs.sign),
    {
        if magnitude_is_zero(rhs.value) {
            Err(RouterError::DivideByZero)
        } else {
            match magnitude_checked_div(self.value, rhs.value) {
                Ok(value) => {
                    proof {
                        value.lemma_atomics_bound();
                        lemma_zero_quotient(
                            self.value.atomics(),
                            decimal_unit(),
                            rhs.value.atomics(),
                        );
                    }
                    Ok(Self { value, sign: self.sign == rhs.sign })
                },
                Err(e) => Err(e),
            }
        }
    }
}

impl CheckedDiv<usize> for SignedDecimal256 {
    open spec fn divisor(rhs: usize) -> int {
        rhs * decimal_unit()
    }

    fn checked_div(self, rhs: usize) -> (r: Result<Self, RouterError>) {
        let d = SignedDecimal256::from_u128(rhs as u128);
        <SignedDecimal256 as CheckedDiv<SignedDecimal256>>::checked_div(self, d)
    }
}

impl DecimalMath for SignedDecimal256 {
    open spec fn sqrt_val(m: nat) -> nat {
        decimal_sqrt(m)
    }

    open spec fn sqrt_grain(m: nat) -> nat {
        decimal_sqrt_grain(m)
    }

    proof fn lemma_sqrt_val(m: nat) {
        lemma_decimal_sqrt(m);
    }

    proof fn lemma_divisors(x: Self, n: usize) {
    }

    fn zero() -> (r: Self)
        ensures
            r.sign,
    {
        Self { value: magnitude_zero(), sign: true }
    }

    fn one() -> (r: Self)
        ensures
            r.sign,
    {
        Self { value: magnitude_one(), sign: true }
    }

    fn sqrt(&self) -> (r: Self)
        ensures
            r.sign,
    {
        Self { value: magnitude_sqrt(self.value), sign: true }
    }

    fn greater_than(self, rhs: Self) -> (r: bool) {
        if self.sign == rhs.sign {
            if self.sign {
                magnitude_lt(rhs.value, self.value)
            } else {
                magnitude_lt(self.value, rhs.value)
            }
        } else if self.sign {
            !(magnitude_is_zero(self.value) && magnitude_is_zero(rhs.value))
        } else {
            false
        }
    }

    fn at_least(self, rhs: Self) -> (r: bool) {
        !rhs.greater_than(self)
    }

    fn same_as(self, rhs: Self) -> (r: bool) {
        if magnitude_is_zero(self.value) && magnitude_is_zero(rhs.value) {
            true
        } else {
            self.sign == rhs.sign && magnitude_eq(self.value, rhs.value)
        }
    }
}

proof fn lemma_zero_product(a: nat, b: nat, d: nat)
    requires
        d > 0,
    ensures
        (a == 0 || b == 0) ==> a * b / d == 0,
        a * b >= 0,
{
    assert(a * b >= 0) by (nonlinear_arith);
    if a == 0 || b == 0 {
        assert(a * b == 0) by (nonlinear_arith)
            requires
                a == 0 || b == 0,
        ;
    }
}

proof fn lemma_zero_quotient(a: nat, d: nat, b: nat)
    requires
        b > 0,
    ensures
        a == 0 ==> a * d / b == 0,
{
    if a == 0 {
        assert(a * d == 0) by (nonlinear_arith)
            requires
                a == 0,
        ;
    }
}

impl SignedDecimal256 {
    /// The value with the given sign and the given count of atomic units.
    pub open spec fn of(sign: bool, atomics: nat) -> Self {
        choose|r: Self| r.sign == sign && r.value.atomics() == atomics
    }

    /// A value is known by its sign and its atomic units.
    pub proof fn lemma_of(self)
        ensures
            self == Self::of(self.sign, self.value.atomics()),
    {
        let other = Self::of(self.sign, self.value.atomics());
        self.value.lemma_atomics_injective(other.value);
    }

    /// The sign of a sum: that of the left operand, unless the signs differ and the
    /// right operand has the larger magnitude.
    pub open spec fn sum_sign(self, rhs: Self) -> bool {
        if self.sign == rhs.sign || self.value.atomics() >= rhs.value.atomics() {
            self.sign
        } else {
            rhs.sign
        }
    }

    /// The sign of a difference: that of the left operand, unless the signs are equal
    /// and the right operand has the larger magnitude.
    pub open spec fn difference_sign(self, rhs: Self) -> bool {
        if self.sign != rhs.sign || self.value.atomics() >= rhs.value.atomics() {
            self.sign
        } else {
            !self.sign
        }
    }

    pub fn new(value: UnsignedDecimal, sign: bool) -> (r: Self)
        ensures
            r.value == value,
            r.sign == sign,
    {
        Self { value, sign }
    }

    /// The number that an unsigned decimal text stands for, taken as positive or
    /// negative as `sign` says. Fails exactly where the text is no such decimal; a
    /// text of `text_limit()` characters or more is none and is not parsed.
    pub fn from_str(value: &str, sign: bool) -> (r: Result<Self, String>)
        ensures
            match decimal_read(value@) {
                Some(atomics) => r matches Ok(v) && v.value.atomics() == atomics && v.sign
                    == sign,
                None => r is Err,
            },
            value@.len() >= text_limit() ==> r is Err,
    {
        let length = value.unicode_len();
        if length as u64 >= 0x1_0000_0000u64 {
            return Err(String::from_str("Text too long"));
        }
        match magnitude_parse(value) {
            Ok(value) => Ok(Self { value, sign }),
            Err(e) => Err(parse_error_text(&e)),
        }
    }

    /// The number that a decimal text with an optional leading minus sign stands for:
    /// the text after the minus sign as a negative number, or the whole text as a
    /// positive one.
    pub fn parse(text: &str) -> (r: Result<Self, String>)
        ensures
            match decimal_read(unsigned_part(text@)) {
                Some(atomics) => r matches Ok(v) && v.value.atomics() == atomics && v.sign
                    == !is_negative_text(text@),
                None => r is Err,
            },
    {
        let length = text.unicode_len();
        if length > 0 && text.get_char(0) == '-' {
            let rest = text.substring_char(1, length);
            Self::from_str(rest, false)
        } else {
            assert(unsigned_part(text@) == text@);
            Self::from_str(text, true)
        }
    }

    /// The whole number `value`.
    pub fn from_u128(value: u128) -> (r: Self)
        ensures
            r.sign,
            r.val() == value * decimal_unit(),
    {
        let value = magnitude_from_ratio(value, 1u128);
        Self { value, sign: true }
    }

    /// The whole number `value`.
    pub fn from_i128(value: i128) -> (r: Self)
        ensures
            r.sign == (value >= 0),
            r.val() == value * decimal_unit(),
    {
        let sign = value >= 0;
        let size: u128 = if value >= 0 {
            value as u128
        } else if value == i128::MIN {
            0x8000_0000_0000_0000_0000_0000_0000_0000u128
        } else {
            (-value) as u128
        };
        let value = magnitude_from_ratio(size, 1u128);
        Self { value, sign }
    }

    /// The whole number `i`.
    pub fn from_i16(i: i16) -> (r: Self)
        ensures
            r.sign == (i >= 0),
            r.val() == i * decimal_unit(),
    {
        Self::from_i128(i as i128)
    }

    /// The decimal text of the magnitude, after a minus sign where the sign is
    /// negative.
    pub fn to_string(&self) -> (r: String)
        ensures
            r@ == if self.sign {
                decimal_text(self.value.atomics())
            } else {
                seq!['-'] + decimal_text(self.value.atomics())
            },
    {
        let text = magnitude_text(self.value);
        if self.sign {
            text
        } else {
            proof {
                reveal_strlit("-");
            }
            let mut r = String::from_str("-");
            r.append(text.as_str());
            assert(r@ =~= seq!['-'] + text@);
            r
        }
    }

    /// The magnitude of a value whose sign is not negative.
    pub fn to_decimal(&self) -> (r: Result<UnsignedDecimal, RouterError>)
        ensures
            r == if self.sign {
                Ok::<UnsignedDecimal, RouterError>(self.value)
            } else {
                Err::<UnsignedDecimal, RouterError>(RouterError::NegativeValue)
            },
    {
        if self.sign {
            Ok(self.value)
        } else {
            Err(RouterError::NegativeValue)
        }
    }

    pub fn is_zero(&self) -> (r: bool)
        ensures
            r == (self.val() == 0),
    {
        magnitude_is_zero(self.value)
    }

    /// Whether the sign is positive; zero may carry either sign.
    pub fn is_positive(&self) -> (r: bool)
        ensures
            r == self.sign,
    {
        self.sign
    }

    /// Whether the sign is negative; zero may carry either sign.
    pub fn is_negative(&self) -> (r: bool)
        ensures
            r == !self.sign,
    {
        !self.sign
    }

    /// Whether the sign is positive; zero may carry either sign.
    pub fn is_sign_positive(&self) -> (r: bool)
        ensures
            r == self.sign,
    {
        self.sign
    }

    /// The same magnitude with a positive sign.
    pub fn abs(&self) -> (r: Self)
        ensures
            r.value == self.value,
            r.sign,
            r.val() == magnitude(self.val()),
    {
        Self { value: self.value, sign: true }
    }

    /// Adds `rhs` in place, for operands whose sum is in range.
    pub fn add_assign(&mut self, rhs: Self)
        requires
            sum_of::<Self>(old(self).val(), rhs.val()) is Ok,
        ensures
            final(self).val() == old(self).val() + rhs.val(),
    {
        match self.checked_add(rhs) {
            Ok(r) => { *self = r; },
            Err(_) => {},
        }
    }

    /// Subtracts `rhs` in place, for operands whose difference is in range.
    pub fn sub_assign(&mut self, rhs: Self)
        requires
            difference_of::<Self>(old(self).val(), rhs.val()) is Ok,
        ensures
            final(self).val() == old(self).val() - rhs.val(),
    {
        match self.checked_sub(rhs) {
            Ok(r) => { *self = r; },
            Err(_) => {},
        }
    }

    /// Multiplies by `rhs` in place, for operands whose product is in range.
    pub fn mul_assign(&mut self, rhs: Self)
        requires
            product_of::<Self>(old(self).val(), rhs.val()) is Ok,
        ensures
            product_of::<Self>(old(self).val(), rhs.val()) == Ok::<int, RouterError>(
                final(self).val(),
            ),
            final(self).sign == (old(self).sign == rhs.sign),
    {
        match self.checked_mul(rhs) {
            Ok(r) => { *self = r; },
            Err(_) => {},
        }
    }

    /// Divides by `rhs` in place, for a divisor that is not zero and a quotient that
    /// is in range.
    pub fn div_assign(&mut self, rhs: Self)
        requires
            quotient_of::<Self>(old(self).val(), rhs.val()) is Ok,
        ensures
            quotient_of::<Self>(old(self).val(), rhs.val()) == Ok::<int, RouterError>(
                final(self).val(),
            ),
            final(self).sign == (old(self).sign == rhs.sign),
    {
        match CheckedDiv::<SignedDecimal256>::checked_div(*self, rhs) {
            Ok(r) => { *self = r; },
            Err(_) => {},
        }
    }
}

} // verus!
