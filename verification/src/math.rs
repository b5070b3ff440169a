use vstd::arithmetic::div_mod::{
    lemma_div_pos_is_pos, lemma_fundamental_div_mod, lemma_fundamental_div_mod_converse,
    lemma_mod_bound,
};
use vstd::prelude::*;

use crate::error::RouterError;

verus! {

/// The absolute value of an integer.
pub open spec fn magnitude(x: int) -> nat {
    if x >= 0 {
        x as nat
    } else {
        (-x) as nat
    }
}

/// The integer of magnitude `m` that is nonnegative exactly when `positive` holds.
pub open spec fn with_sign(positive: bool, m: nat) -> int {
    if positive {
        m as int
    } else {
        -(m as int)
    }
}

/// The checked sum of two scaled integers: their sum, unless its magnitude exceeds
/// `limit`.
pub open spec fn add_val(limit: nat, a: int, b: int) -> Result<int, RouterError> {
    if magnitude(a + b) <= limit {
        Ok(a + b)
    } else {
        Err(RouterError::Overflow)
    }
}

/// The checked difference of two scaled integers: their difference, unless its
/// magnitude exceeds `limit`.
pub open spec fn sub_val(limit: nat, a: int, b: int) -> Result<int, RouterError> {
    if magnitude(a - b) <= limit {
        Ok(a - b)
    } else {
        Err(RouterError::Overflow)
    }
}

/// The checked product of two integers scaled by `unit`: the product of the
/// magnitudes divided by `unit` and rounded down, with the sign of the true product,
/// unless that magnitude exceeds `limit`.
pub open spec fn mul_val(unit: nat, limit: nat, a: int, b: int) -> Result<int, RouterError> {
    let m = magnitude(a) * magnitude(b) / unit;
    if m <= limit {
        Ok(with_sign((a >= 0) == (b >= 0), m))
    } else {
        Err(RouterError::Overflow)
    }
}

/// The checked quotient of two integers scaled by `unit`: the magnitude of the
/// dividend times `unit`, divided by the magnitude of the divisor and rounded down,
/// with the sign of the true quotient. A zero divisor is a division by zero; a
/// magnitude above `limit` is an overflow.
pub open spec fn div_val(unit: nat, limit: nat, a: int, b: int) -> Result<int, RouterError> {
    if b == 0 {
        Err(RouterError::DivideByZero)
    } else {
        let m = magnitude(a) * unit / magnitude(b);
        if m <= limit {
            Ok(with_sign((a >= 0) == (b >= 0), m))
        } else {
            Err(RouterError::Overflow)
        }
    }
}

/// A fixed-point number: an integer count of units of which `unit()` make up the
/// number one, of magnitude at most `limit()`.
pub trait Scaled: Sized + Copy {
    /// The scaled integer that the value stands for.
    spec fn val(self) -> int;

    /// The scaled integer of the number one.
    spec fn unit() -> nat;

    /// The largest magnitude that a value can have.
    spec fn limit() -> nat;

    /// The number one is positive and representable.
    proof fn lemma_scale()
        ensures
            0 < Self::unit() <= Self::limit(),
    ;

    /// No value lies outside the limit.
    proof fn lemma_in_range(self)
        ensures
            magnitude(self.val()) <= Self::limit(),
    ;
}

/// The checked sum in the scale of `T`.
pub open spec fn sum_of<T: Scaled>(a: int, b: int) -> Result<int, RouterError> {
    add_val(T::limit(), a, b)
}

/// The checked difference in the scale of `T`.
pub open spec fn difference_of<T: Scaled>(a: int, b: int) -> Result<int, RouterError> {
    sub_val(T::limit(), a, b)
}

/// The checked product in the scale of `T`.
pub open spec fn product_of<T: Scaled>(a: int, b: int) -> Result<int, RouterError> {
    mul_val(T::unit(), T::limit(), a, b)
}

/// The checked quotient in the scale of `T`.
pub open spec fn quotient_of<T: Scaled>(a: int, b: int) -> Result<int, RouterError> {
    div_val(T::unit(), T::limit(), a, b)
}

/// An executable result agrees with a specified one: the same error, or a value that
/// stands for the specified integer.
pub open spec fn agrees<T: Scaled>(r: Result<T, RouterError>, s: Result<int, RouterError>) -> bool {
    match (r, s) {
        (Ok(x), Ok(v)) => x.val() == v,
        (Err(e), Err(f)) => e == f,
        _ => false,
    }
}

/// The scaled integers of a sequence of values.
pub open spec fn vals<T: Scaled>(s: Seq<T>) -> Seq<int> {
    Seq::new(s.len(), |i: int| s[i].val())
}

/// The sentinel that stands for "no finite value": the largest representable number.
pub trait Infinity: Scaled {
    fn infinity() -> (r: Self)
        ensures
            r.val() == Self::limit(),
    ;
}

/// The tolerance below which two values count as equal: exactly zero.
pub trait MachineEpsilon: Scaled {
    fn eps() -> (r: Self)
        ensures
            r.val() == 0,
    ;
}

/// Multiplication that reports a product out of range instead of wrapping.
pub trait CheckedMul: Scaled {
    fn checked_mul(self, rhs: Self) -> (r: Result<Self, RouterError>)
        ensures
            agrees(r, product_of::<Self>(self.val(), rhs.val())),
    ;
}

/// Subtraction that reports a difference out of range instead of wrapping.
pub trait CheckedSub: Scaled {
    fn checked_sub(self, rhs: Self) -> (r: Result<Self, RouterError>)
        ensures
            agrees(r, difference_of::<Self>(self.val(), rhs.val())),
    ;
}

/// Division that reports a zero divisor or a quotient out of range instead of
/// panicking.
pub trait CheckedDiv<Rhs = Self>: Scaled {
    /// The scaled integer that a divisor stands for.
    spec fn divisor(rhs: Rhs) -> int;

    fn checked_div(self, rhs: Rhs) -> (r: Result<Self, RouterError>)
        ensures
            agrees(r, quotient_of::<Self>(self.val(), Self::divisor(rhs))),
    ;
}

/// Addition that reports a sum out of range instead of wrapping.
pub trait CheckedAdd: Scaled {
    fn checked_add(self, rhs: Self) -> (r: Result<Self, RouterError>)
        ensures
            agrees(r, sum_of::<Self>(self.val(), rhs.val())),
    ;
}

/// Everything that pools, objectives and the router ask of a numeric type.
pub trait DecimalMath:
    Infinity + MachineEpsilon + CheckedMul + CheckedSub + CheckedDiv + CheckedAdd + CheckedDiv<
    usize,
> {
    /// The scaled integer of the square root of a magnitude.
    spec fn sqrt_val(m: nat) -> nat;

    /// The spacing of the roots about the root of `m`: one where the root is taken to
    /// the last place.
    spec fn sqrt_grain(m: nat) -> nat;

    /// A square root is representable, never exceeds the true root, and falls short
    /// of it by less than one grain.
    proof fn lemma_sqrt_val(m: nat)
        requires
            m <= Self::limit(),
        ensures
            Self::sqrt_val(m) <= Self::limit(),
            Self::sqrt_val(m) * Self::sqrt_val(m) <= m * Self::unit(),
            Self::sqrt_grain(m) >= 1,
            (Self::sqrt_val(m) + Self::sqrt_grain(m)) * (Self::sqrt_val(m) + Self::sqrt_grain(m))
                > m * Self::unit(),
    ;

    /// A divisor of the type itself stands for its own value, a count for that many
    /// ones.
    proof fn lemma_divisors(x: Self, n: usize)
        ensures
            <Self as CheckedDiv<Self>>::divisor(x) == x.val(),
            <Self as CheckedDiv<usize>>::divisor(n) == n * Self::unit(),
    ;

    fn zero() -> (r: Self)
        ensures
            r.val() == 0,
    ;

    fn one() -> (r: Self)
        ensures
            r.val() == Self::unit(),
    ;

    /// The square root of the magnitude, whatever the sign.
    fn sqrt(&self) -> (r: Self)
        ensures
            r.val() == Self::sqrt_val(magnitude(self.val())),
    ;

    fn greater_than(self, rhs: Self) -> (r: bool)
        ensures
            r == (self.val() > rhs.val()),
    ;

    fn at_least(self, rhs: Self) -> (r: bool)
        ensures
            r == (self.val() >= rhs.val()),
    ;

    fn same_as(self, rhs: Self) -> (r: bool)
        ensures
            r == (self.val() == rhs.val()),
    ;
}

/// The quotient `x / d` is the largest integer whose product with `d` does not
/// exceed `x`.
pub proof fn lemma_floor(x: int, d: int)
    requires
        x >= 0,
        d > 0,
    ensures
        0 <= x / d,
        (x / d) * d <= x < (x / d + 1) * d,
{
    lemma_fundamental_div_mod(x, d);
    lemma_mod_bound(x, d);
    lemma_div_pos_is_pos(x, d);
    let q = x / d;
    assert(q * d == d * q) by (nonlinear_arith);
    assert((q + 1) * d == q * d + d) by (nonlinear_arith);
}

/// An integer `q` with `q * d <= x < (q + 1) * d` is the quotient `x / d`.
pub proof fn lemma_floor_unique(x: int, d: int, q: int)
    requires
        d > 0,
        q * d <= x < (q + 1) * d,
    ensures
        x / d == q,
{
    assert((q + 1) * d == q * d + d) by (nonlinear_arith);
    assert(q * d == d * q) by (nonlinear_arith);
    lemma_fundamental_div_mod_converse(x, d, q, x - q * d);
}

/// A checked product of two nonnegative numbers is the true product rounded down.
pub proof fn lemma_product_rounds_down<T: Scaled>(a: int, b: int)
    requires
        a >= 0,
        b >= 0,
    ensures
        product_of::<T>(a, b) matches Ok(c) ==> 0 <= c <= T::limit() && c * T::unit() <= a * b < (c
            + 1) * T::unit(),
{
    T::lemma_scale();
    let u = T::unit() as int;
    assert(a * b >= 0) by (nonlinear_arith)
        requires
            a >= 0,
            b >= 0,
    ;
    lemma_floor(a * b, u);
}

/// A checked quotient of a nonnegative number by a positive one is the true quotient
/// rounded down.
pub proof fn lemma_quotient_rounds_down<T: Scaled>(a: int, b: int)
    requires
        a >= 0,
        b > 0,
    ensures
        quotient_of::<T>(a, b) matches Ok(c) ==> 0 <= c <= T::limit() && c * b <= a * T::unit() < (c
            + 1) * b,
{
    T::lemma_scale();
    let u = T::unit() as int;
    assert(a * u >= 0) by (nonlinear_arith)
        requires
            a >= 0,
            u >= 0,
    ;
    lemma_floor(a * u, b);
}

/// The dot product of the first `n` entries of two vectors of scaled integers: each
/// product added in order with checked arithmetic, the first failure being the result.
pub open spec fn dot_val<T: Scaled>(a: Seq<int>, b: Seq<int>, n: int) -> Result<int, RouterError>
    decreases n,
{
    if n <= 0 {
        Ok(0)
    } else {
        match dot_val::<T>(a, b, n - 1) {
            Err(e) => Err(e),
            Ok(acc) => match product_of::<T>(a[n - 1], b[n - 1]) {
                Err(e) => Err(e),
                Ok(p) => sum_of::<T>(acc, p),
            },
        }
    }
}

/// A failure among the first entries of a dot product is the failure of the whole.
pub proof fn lemma_dot_val_fails<T: Scaled>(a: Seq<int>, b: Seq<int>, k: int, n: int)
    requires
        k <= n,
        dot_val::<T>(a, b, k) is Err,
    ensures
        dot_val::<T>(a, b, n) == dot_val::<T>(a, b, k),
    decreases n - k,
{
    if k < n {
        lemma_dot_val_fails::<T>(a, b, k, n - 1);
    }
}

/// The product of two integers scaled by `unit`, rounded towards zero.
pub open spec fn rounded_product(unit: nat, a: int, b: int) -> int {
    with_sign((a >= 0) == (b >= 0), magnitude(a) * magnitude(b) / unit)
}

/// The sum of the rounded products of the first `n` entries of two vectors.
pub open spec fn dot_sum(unit: nat, a: Seq<int>, b: Seq<int>, n: int) -> int
    decreases n,
{
    if n <= 0 {
        0
    } else {
        dot_sum(unit, a, b, n - 1) + rounded_product(unit, a[n - 1], b[n - 1])
    }
}

/// A dot product that is in range is the sum of the rounded products.
pub proof fn lemma_dot_val_is_sum<T: Scaled>(a: Seq<int>, b: Seq<int>, n: int)
    ensures
        dot_val::<T>(a, b, n) matches Ok(d) ==> d == dot_sum(T::unit(), a, b, n),
    decreases n,
{
    if n > 0 {
        lemma_dot_val_is_sum::<T>(a, b, n - 1);
    }
}

/// The dot product of two vectors of equal length, with checked arithmetic.
pub fn dot<T: DecimalMath>(a: &[T], b: &[T]) -> (r: Result<T, RouterError>)
    requires
        a@.len() == b@.len(),
    ensures
        agrees(r, dot_val::<T>(vals(a@), vals(b@), a@.len() as int)),
        r matches Ok(d) ==> d.val() == dot_sum(T::unit(), vals(a@), vals(b@), a@.len() as int),
{
    proof {
        lemma_dot_val_is_sum::<T>(vals(a@), vals(b@), a@.len() as int);
    }
    let n = a.len();
    let ghost x = vals(a@);
    let ghost y = vals(b@);
    let mut acc = T::zero();
    let mut i: usize = 0;
    while i < n
        invariant
            i <= n,
            n == a@.len(),
            n == b@.len(),
            x == vals(a@),
            y == vals(b@),
            dot_val::<T>(x, y, i as int) == Ok::<int, RouterError>(acc.val()),
        decreases n - i,
    {
        let p = match a[i].checked_mul(b[i]) {
            Ok(p) => p,
            Err(e) => {
                proof {
                    lemma_dot_val_fails::<T>(x, y, i as int + 1, n as int);
                }
                return Err(e);
            },
        };
        acc = match acc.checked_add(p) {
            Ok(s) => s,
            Err(e) => {
                proof {
                    lemma_dot_val_fails::<T>(x, y, i as int + 1, n as int);
                }
                return Err(e);
            },
        };
        i = i + 1;
    }
    Ok(acc)
}

/// A copy of a slice.
pub fn copy_of<T: Copy>(s: &[T]) -> (r: Vec<T>)
    ensures
        r@ == s@,
{
    let mut r: Vec<T> = Vec::new();
    let mut i: usize = 0;
    while i < s.len()
        invariant
            i <= s@.len(),
            r@ == s@.take(i as int),
        decreases s@.len() - i,
    {
        r.push(s[i]);
        assert(s@.take(i as int + 1) =~= s@.take(i as int).push(s@[i as int]));
        i = i + 1;
    }
    assert(s@.take(s@.len() as int) =~= s@);
    r
}

} // verus!
