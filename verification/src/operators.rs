use core::cmp::Ordering;
use core::ops::{Add, Div, Mul, Neg, Sub};
use core::str::FromStr;
use vstd::prelude::*;
use vstd::std_specs::cmp::{PartialEqSpecImpl, PartialOrdSpecImpl};
use vstd::std_specs::convert::FromSpecImpl;
use vstd::std_specs::ops::{AddSpecImpl, DivSpecImpl, MulSpecImpl, NegSpecImpl, SubSpecImpl};

use crate::math::{
    difference_of, magnitude, product_of, quotient_of, sum_of, CheckedAdd, CheckedDiv,
    CheckedMul, CheckedSub, DecimalMath, Scaled,
};
use crate::signed_decimal256::SignedDecimal256;
use crate::unsigned_decimal::{decimal_unit, magnitude_zero, UnsignedDecimal};

verus! {

impl PartialEq for SignedDecimal256 {
    /// Two values are equal where they stand for the same number: zero equals zero
    /// whatever the signs.
    fn eq(&self, other: &Self) -> (r: bool) {
        self.same_as(*other)
    }
}

impl PartialEqSpecImpl for SignedDecimal256 {
    open spec fn obeys_eq_spec() -> bool {
        true
    }

    open spec fn eq_spec(&self, other: &Self) -> bool {
        self.val() == other.val()
    }
}

impl Eq for SignedDecimal256 {

}

impl PartialOrd for SignedDecimal256 {
    /// The order of the numbers that the values stand for.
    fn partial_cmp(&self, other: &Self) -> (r: Option<Ordering>) {
        if self.greater_than(*other) {
            Some(Ordering::Greater)
        } else if other.greater_than(*self) {
            Some(Ordering::Less)
        } else {
            Some(Ordering::Equal)
        }
    }
}

impl PartialOrdSpecImpl for SignedDecimal256 {
    open spec fn obeys_partial_cmp_spec() -> bool {
        true
    }

    open spec fn partial_cmp_spec(&self, other: &Self) -> Option<Ordering> {
        if self.val() > other.val() {
            Some(Ordering::Greater)
        } else if self.val() < other.val() {
            Some(Ordering::Less)
        } else {
            Some(Ordering::Equal)
        }
    }
}

impl FromStr for SignedDecimal256 {
    type Err = String;

    /// As `SignedDecimal256::parse`.
    fn from_str(s: &str) -> (r: Result<Self, String>) {
        SignedDecimal256::parse(s)
    }
}

impl Default for SignedDecimal256 {
    fn default() -> (r: Self)
        ensures
            r.val() == 0,
            !r.sign,
    {
        SignedDecimal256 { value: magnitude_zero(), sign: false }
    }
}

impl From<UnsignedDecimal> for SignedDecimal256 {
    fn from(value: UnsignedDecimal) -> (r: Self) {
        SignedDecimal256 { value, sign: true }
    }
}

impl FromSpecImpl<UnsignedDecimal> for SignedDecimal256 {
    open spec fn obeys_from_spec() -> bool {
        true
    }

    open spec fn from_spec(value: UnsignedDecimal) -> Self {
        SignedDecimal256 { value, sign: true }
    }
}

impl From<u128> for SignedDecimal256 {
    fn from(value: u128) -> (r: Self)
        ensures
            r.sign,
            r.val() == value * Self::unit(),
    {
        let r = SignedDecimal256::from_u128(value);
        proof {
            r.lemma_of();
        }
        r
    }
}

impl FromSpecImpl<u128> for SignedDecimal256 {
    open spec fn obeys_from_spec() -> bool {
        true
    }

    open spec fn from_spec(value: u128) -> Self {
        SignedDecimal256::of(true, magnitude(value * decimal_unit()))
    }
}

impl From<i128> for SignedDecimal256 {
    fn from(value: i128) -> (r: Self)
        ensures
            r.sign == (value >= 0),
            r.val() == value * Self::unit(),
    {
        let r = SignedDecimal256::from_i128(value);
        proof {
            r.lemma_of();
        }
        r
    }
}

impl FromSpecImpl<i128> for SignedDecimal256 {
    open spec fn obeys_from_spec() -> bool {
        true
    }

    open spec fn from_spec(value: i128) -> Self {
        SignedDecimal256::of(value >= 0, magnitude(value * decimal_unit()))
    }
}

impl From<i32> for SignedDecimal256 {
    fn from(value: i32) -> (r: Self)
        ensures
            r.sign == (value >= 0),
            r.val() == value * Self::unit(),
    {
        let r = SignedDecimal256::from_i128(value as i128);
        proof {
            r.lemma_of();
        }
        r
    }
}

impl FromSpecImpl<i32> for SignedDecimal256 {
    open spec fn obeys_from_spec() -> bool {
        true
    }

    open spec fn from_spec(value: i32) -> Self {
        SignedDecimal256::of(value >= 0, magnitude(value * decimal_unit()))
    }
}

impl Add for SignedDecimal256 {
    type Output = Self;

    /// The sum, for operands whose sum is in range.
    fn add(self, rhs: Self) -> (r: Self)
        ensures
            r.val() == self.val() + rhs.val(),
    {
        match self.checked_add(rhs) {
            Ok(r) => {
                proof {
                    r.lemma_of();
                }
                r
            },
            Err(_) => self,
        }
    }
}

impl AddSpecImpl for SignedDecimal256 {
    open spec fn obeys_add_spec() -> bool {
        true
    }

    open spec fn add_req(self, rhs: Self) -> bool {
        sum_of::<Self>(self.val(), rhs.val()) is Ok
    }

    open spec fn add_spec(self, rhs: Self) -> Self {
        SignedDecimal256::of(self.sum_sign(rhs), magnitude(self.val() + rhs.val()))
    }
}

impl Sub for SignedDecimal256 {
    type Output = Self;

    /// The difference, for operands whose difference is in range.
    fn sub(self, rhs: Self) -> (r: Self)
        ensures
            r.val() == self.val() - rhs.val(),
    {
        match self.checked_sub(rhs) {
            Ok(r) => {
                proof {
                    r.lemma_of();
                }
                r
            },
            Err(_) => self,
        }
    }
}

impl SubSpecImpl for SignedDecimal256 {
    open spec fn obeys_sub_spec() -> bool {
        true
    }

    open spec fn sub_req(self, rhs: Self) -> bool {
        difference_of::<Self>(self.val(), rhs.val()) is Ok
    }

    open spec fn sub_spec(self, rhs: Self) -> Self {
        SignedDecimal256::of(self.difference_sign(rhs), magnitude(self.val() - rhs.val()))
    }
}

impl Mul for SignedDecimal256 {
    type Output = Self;

    /// The product rounded towards zero, for operands whose product is in range.
    fn mul(self, rhs: Self) -> (r: Self)
        ensures
            product_of::<Self>(self.val(), rhs.val()) == Ok::<int, crate::error::RouterError>(
                r.val(),
            ),
            r.sign == (self.sign == rhs.sign),
    {
        match self.checked_mul(rhs) {
            Ok(r) => {
                proof {
                    r.lemma_of();
                }
                r
            },
            Err(_) => self,
        }
    }
}

impl MulSpecImpl for SignedDecimal256 {
    open spec fn obeys_mul_spec() -> bool {
        true
    }

    open spec fn mul_req(self, rhs: Self) -> bool {
        product_of::<Self>(self.val(), rhs.val()) is Ok
    }

    open spec fn mul_spec(self, rhs: Self) -> Self {
        SignedDecimal256::of(
            self.sign == rhs.sign,
            self.value.atomics() * rhs.value.atomics() / decimal_unit(),
        )
    }
}

impl Div for SignedDecimal256 {
    type Output = Self;

    /// The quotient rounded towards zero, for a divisor that is not zero and a
    /// quotient that is in range.
    fn div(self, rhs: Self) -> (r: Self)
        ensures
            quotient_of::<Self>(self.val(), rhs.val()) == Ok::<int, crate::error::RouterError>(
                r.val(),
            ),
            r.sign == (self.sign == rhs.sign),
    {
        match CheckedDiv::<SignedDecimal256>::checked_div(self, rhs) {
            Ok(r) => {
                proof {
                    r.lemma_of();
                }
                r
            },
            Err(_) => self,
        }
    }
}

impl DivSpecImpl for SignedDecimal256 {
    open spec fn obeys_div_spec() -> bool {
        true
    }

    open spec fn div_req(self, rhs: Self) -> bool {
        quotient_of::<Self>(self.val(), rhs.val()) is Ok
    }

    open spec fn div_spec(self, rhs: Self) -> Self {
        SignedDecimal256::of(
            self.sign == rhs.sign,
            self.value.atomics() * decimal_unit() / rhs.value.atomics(),
        )
    }
}

impl Neg for SignedDecimal256 {
    type Output = Self;

    /// The same magnitude with the other sign.
    fn neg(self) -> (r: Self) {
        SignedDecimal256 { value: self.value, sign: !self.sign }
    }
}

impl NegSpecImpl for SignedDecimal256 {
    open spec fn obeys_neg_spec() -> bool {
        true
    }

    open spec fn neg_req(self) -> bool {
        true
    }

    open spec fn neg_spec(self) -> Self {
        SignedDecimal256 { value: self.value, sign: !self.sign }
    }
}

impl Mul for &SignedDecimal256 {
    type Output = SignedDecimal256;

    /// The product rounded towards zero, for operands whose product is in range.
    fn mul(self, rhs: Self) -> (r: SignedDecimal256)
        ensures
            product_of::<SignedDecimal256>(self.val(), rhs.val()) == Ok::<
                int,
                crate::error::RouterError,
            >(r.val()),
            r.sign == (self.sign == rhs.sign),
    {
        match self.checked_mul(*rhs) {
            Ok(r) => {
                proof {
                    r.lemma_of();
                }
                r
            },
            Err(_) => *self,
        }
    }
}

impl MulSpecImpl for &SignedDecimal256 {
    open spec fn obeys_mul_spec() -> bool {
        true
    }

    open spec fn mul_req(self, rhs: Self) -> bool {
        product_of::<SignedDecimal256>(self.val(), rhs.val()) is Ok
    }

    open spec fn mul_spec(self, rhs: Self) -> SignedDecimal256 {
        SignedDecimal256::of(
            self.sign == rhs.sign,
            self.value.atomics() * rhs.value.atomics() / decimal_unit(),
        )
    }
}

impl Sub for &SignedDecimal256 {
    type Output = SignedDecimal256;

    /// The difference, for operands whose difference is in range.
    fn sub(self, rhs: Self) -> (r: SignedDecimal256)
        ensures
            r.val() == self.val() - rhs.val(),
    {
        match self.checked_sub(*rhs) {
            Ok(r) => {
                proof {
                    r.lemma_of();
                }
                r
            },
            Err(_) => *self,
        }
    }
}

impl SubSpecImpl for &SignedDecimal256 {
    open spec fn obeys_sub_spec() -> bool {
        true
    }

    open spec fn sub_req(self, rhs: Self) -> bool {
        difference_of::<SignedDecimal256>(self.val(), rhs.val()) is Ok
    }

    open spec fn sub_spec(self, rhs: Self) -> SignedDecimal256 {
        SignedDecimal256::of(self.difference_sign(*rhs), magnitude(self.val() - rhs.val()))
    }
}

impl Neg for &SignedDecimal256 {
    type Output = SignedDecimal256;

    /// The same magnitude with the other sign.
    fn neg(self) -> (r: SignedDecimal256) {
        SignedDecimal256 { value: self.value, sign: !self.sign }
    }
}

impl NegSpecImpl for &SignedDecimal256 {
    open spec fn obeys_neg_spec() -> bool {
        true
    }

    open spec fn neg_req(self) -> bool {
        true
    }

    open spec fn neg_spec(self) -> SignedDecimal256 {
        SignedDecimal256 { value: self.value, sign: !self.sign }
    }
}

} // verus!
