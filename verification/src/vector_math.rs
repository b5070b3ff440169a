use core::ops::{Add, Div, Mul, Neg, Sub};
use vstd::prelude::*;

use crate::error::RouterError;
use crate::math::{
    difference_of, dot_val, lemma_dot_val_fails, magnitude, product_of, quotient_of, sum_of,
    vals, DecimalMath, Scaled,
};
use crate::signed_decimal256::SignedDecimal256;
use crate::unsigned_decimal::{decimal_sqrt, decimal_unit};

verus! {

/// The lesser of two lengths.
pub open spec fn shorter(a: nat, b: nat) -> nat {
    if a <= b {
        a
    } else {
        b
    }
}

/// `y + c * x` on scaled integers, with checked arithmetic.
pub open spec fn scaled_sum(y: int, c: int, x: int) -> Result<int, RouterError> {
    match product_of::<SignedDecimal256>(c, x) {
        Err(e) => Err(e),
        Ok(p) => sum_of::<SignedDecimal256>(y, p),
    }
}

fn least(a: usize, b: usize) -> (r: usize)
    ensures
        r == shorter(a as nat, b as nat),
{
    if a <= b {
        a
    } else {
        b
    }
}

/// `y += c * x`, entry by entry as far as both vectors reach, where every entry is in
/// range.
pub fn vecadd(y: &mut Vec<SignedDecimal256>, x: &[SignedDecimal256], c: SignedDecimal256)
    requires
        forall|i: int|
            0 <= i < shorter(old(y)@.len(), x@.len()) ==> #[trigger] scaled_sum(
                old(y)@[i].val(),
                c.val(),
                x@[i].val(),
            ) is Ok,
    ensures
        final(y)@.len() == old(y)@.len(),
        forall|i: int|
            0 <= i < shorter(old(y)@.len(), x@.len()) ==> #[trigger] scaled_sum(
                old(y)@[i].val(),
                c.val(),
                x@[i].val(),
            ) == Ok::<int, RouterError>(final(y)@[i].val()),
        forall|i: int|
            shorter(old(y)@.len(), x@.len()) <= i < old(y)@.len() ==> #[trigger] final(y)@[i]
                == old(y)@[i],
{
    let n = least(y.len(), x.len());
    let mut i: usize = 0;
    while i < n
        invariant
            i <= n,
            n == shorter(old(y)@.len(), x@.len()),
            y@.len() == old(y)@.len(),
            forall|j: int|
                0 <= j < n ==> #[trigger] scaled_sum(old(y)@[j].val(), c.val(), x@[j].val()) is Ok,
            forall|j: int|
                0 <= j < i ==> #[trigger] scaled_sum(old(y)@[j].val(), c.val(), x@[j].val())
                    == Ok::<int, RouterError>(y@[j].val()),
            forall|j: int| i <= j < y@.len() ==> #[trigger] y@[j] == old(y)@[j],
        decreases n - i,
    {
        assert(scaled_sum(old(y)@[i as int].val(), c.val(), x@[i as int].val()) is Ok);
        let p = c.mul(x[i]);
        let s = y[i].add(p);
        y.set(i, s);
        i = i + 1;
    }
}

/// The dot product of two vectors, as far as both reach, where it is in range.
pub fn vecdot(x: &[SignedDecimal256], y: &[SignedDecimal256]) -> (r: SignedDecimal256)
    requires
        dot_val::<SignedDecimal256>(vals(x@), vals(y@), shorter(x@.len(), y@.len()) as int) is Ok,
    ensures
        dot_val::<SignedDecimal256>(vals(x@), vals(y@), shorter(x@.len(), y@.len()) as int)
            == Ok::<int, RouterError>(r.val()),
{
    let n = least(x.len(), y.len());
    let ghost a = vals(x@);
    let ghost b = vals(y@);
    let mut acc = SignedDecimal256::zero();
    let mut i: usize = 0;
    while i < n
        invariant
            i <= n,
            n == shorter(x@.len(), y@.len()),
            a == vals(x@),
            b == vals(y@),
            dot_val::<SignedDecimal256>(a, b, n as int) is Ok,
            dot_val::<SignedDecimal256>(a, b, i as int) == Ok::<int, RouterError>(acc.val()),
        decreases n - i,
    {
        proof {
            if dot_val::<SignedDecimal256>(a, b, i as int + 1) is Err {
                lemma_dot_val_fails::<SignedDecimal256>(a, b, i as int + 1, n as int);
            }
        }
        let p = x[i].mul(y[i]);
        acc = acc.add(p);
        i = i + 1;
    }
    acc
}

/// `y *= c`, entry by entry, where every product is in range.
pub fn vecscale(y: &mut Vec<SignedDecimal256>, c: SignedDecimal256)
    requires
        forall|i: int|
            0 <= i < old(y)@.len() ==> #[trigger] product_of::<SignedDecimal256>(
                old(y)@[i].val(),
                c.val(),
            ) is Ok,
    ensures
        final(y)@.len() == old(y)@.len(),
        forall|i: int|
            0 <= i < old(y)@.len() ==> #[trigger] product_of::<SignedDecimal256>(
                old(y)@[i].val(),
                c.val(),
            ) == Ok::<int, RouterError>(final(y)@[i].val()),
{
    let n = y.len();
    let mut i: usize = 0;
    while i < n
        invariant
            i <= n,
            n == y@.len(),
            y@.len() == old(y)@.len(),
            forall|j: int|
                0 <= j < n ==> #[trigger] product_of::<SignedDecimal256>(
                    old(y)@[j].val(),
                    c.val(),
                ) is Ok,
            forall|j: int|
                0 <= j < i ==> #[trigger] product_of::<SignedDecimal256>(old(y)@[j].val(), c.val())
                    == Ok::<int, RouterError>(y@[j].val()),
            forall|j: int| i <= j < n ==> #[trigger] y@[j] == old(y)@[j],
        decreases n - i,
    {
        assert(product_of::<SignedDecimal256>(old(y)@[i as int].val(), c.val()) is Ok);
        let p = y[i].mul(c);
        y.set(i, p);
        i = i + 1;
    }
}

/// `y = x`, entry by entry as far as both vectors reach.
pub fn veccpy(y: &mut Vec<SignedDecimal256>, x: &[SignedDecimal256])
    ensures
        final(y)@.len() == old(y)@.len(),
        forall|i: int|
            0 <= i < shorter(old(y)@.len(), x@.len()) ==> #[trigger] final(y)@[i] == x@[i],
        forall|i: int|
            shorter(old(y)@.len(), x@.len()) <= i < old(y)@.len() ==> #[trigger] final(y)@[i]
                == old(y)@[i],
{
    let n = least(y.len(), x.len());
    let mut i: usize = 0;
    while i < n
        invariant
            i <= n,
            n == shorter(old(y)@.len(), x@.len()),
            y@.len() == old(y)@.len(),
            forall|j: int| 0 <= j < i ==> #[trigger] y@[j] == x@[j],
            forall|j: int| i <= j < y@.len() ==> #[trigger] y@[j] == old(y)@[j],
        decreases n - i,
    {
        y.set(i, x[i]);
        i = i + 1;
    }
}

/// `y = -x`, entry by entry as far as both vectors reach: each magnitude with the
/// other sign.
pub fn vecncpy(y: &mut Vec<SignedDecimal256>, x: &[SignedDecimal256])
    ensures
        final(y)@.len() == old(y)@.len(),
        forall|i: int|
            0 <= i < shorter(old(y)@.len(), x@.len()) ==> (#[trigger] final(y)@[i]).value
                == x@[i].value && final(y)@[i].sign == !x@[i].sign,
        forall|i: int|
            shorter(old(y)@.len(), x@.len()) <= i < old(y)@.len() ==> #[trigger] final(y)@[i]
                == old(y)@[i],
{
    let n = least(y.len(), x.len());
    let mut i: usize = 0;
    while i < n
        invariant
            i <= n,
            n == shorter(old(y)@.len(), x@.len()),
            y@.len() == old(y)@.len(),
            forall|j: int|
                0 <= j < i ==> (#[trigger] y@[j]).value == x@[j].value && y@[j].sign
                    == !x@[j].sign,
            forall|j: int| i <= j < y@.len() ==> #[trigger] y@[j] == old(y)@[j],
        decreases n - i,
    {
        y.set(i, x[i].neg());
        i = i + 1;
    }
}

/// `z = x - y`, entry by entry as far as all three vectors reach, where every
/// difference is in range.
pub fn vecdiff(z: &mut Vec<SignedDecimal256>, x: &[SignedDecimal256], y: &[SignedDecimal256])
    requires
        forall|i: int|
            0 <= i < shorter(shorter(old(z)@.len(), x@.len()), y@.len())
                ==> #[trigger] difference_of::<SignedDecimal256>(x@[i].val(), y@[i].val()) is Ok,
    ensures
        final(z)@.len() == old(z)@.len(),
        forall|i: int|
            0 <= i < shorter(shorter(old(z)@.len(), x@.len()), y@.len()) ==> (
            #[trigger] final(z)@[i]).val() == x@[i].val() - y@[i].val(),
        forall|i: int|
            shorter(shorter(old(z)@.len(), x@.len()), y@.len()) <= i < old(z)@.len()
                ==> #[trigger] final(z)@[i] == old(z)@[i],
{
    let n = least(least(z.len(), x.len()), y.len());
    let mut i: usize = 0;
    while i < n
        invariant
            i <= n,
            n == shorter(shorter(old(z)@.len(), x@.len()), y@.len()),
            z@.len() == old(z)@.len(),
            forall|j: int|
                0 <= j < n ==> #[trigger] difference_of::<SignedDecimal256>(
                    x@[j].val(),
                    y@[j].val(),
                ) is Ok,
            forall|j: int| 0 <= j < i ==> (#[trigger] z@[j]).val() == x@[j].val() - y@[j].val(),
            forall|j: int| i <= j < z@.len() ==> #[trigger] z@[j] == old(z)@[j],
        decreases n - i,
    {
        assert(difference_of::<SignedDecimal256>(x@[i as int].val(), y@[i as int].val()) is Ok);
        let d = x[i].sub(y[i]);
        z.set(i, d);
        i = i + 1;
    }
}

/// The dot product of a vector with itself, a number that is not negative.
pub open spec fn norm_squared(x: Seq<SignedDecimal256>) -> Result<int, RouterError> {
    dot_val::<SignedDecimal256>(vals(x), vals(x), x.len() as int)
}

/// The 2-norm of a vector: the square root of its dot product with itself, where
/// that is in range.
pub fn vec2norm(x: &[SignedDecimal256]) -> (r: SignedDecimal256)
    requires
        norm_squared(x@) is Ok,
    ensures
        norm_squared(x@) matches Ok(n2) && r.val() == decimal_sqrt(magnitude(n2)),
        r.sign,
{
    let n2 = vecdot(x, x);
    n2.sqrt()
}

/// One over the 2-norm of a vector, where the norm is in range and not zero.
pub fn vec2norminv(x: &[SignedDecimal256]) -> (r: SignedDecimal256)
    requires
        norm_squared(x@) matches Ok(n2) && quotient_of::<SignedDecimal256>(
            decimal_unit() as int,
            decimal_sqrt(magnitude(n2)) as int,
        ) is Ok,
    ensures
        norm_squared(x@) matches Ok(n2) && quotient_of::<SignedDecimal256>(
            decimal_unit() as int,
            decimal_sqrt(magnitude(n2)) as int,
        ) == Ok::<int, RouterError>(r.val()),
{
    let norm = vec2norm(x);
    SignedDecimal256::one().div(norm)
}

} // verus!
