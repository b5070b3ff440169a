use core::str::FromStr;
use vstd::arithmetic::power::{
    lemma_pow0, lemma_pow1, lemma_pow_adds, lemma_pow_increases, lemma_pow_multiplies,
    lemma_pow_positive, pow,
};
use vstd::prelude::*;

use crate::error::RouterError;

verus! {

/// Atomic units in the number one: the magnitude has eighteen decimal places.
pub open spec fn decimal_unit() -> nat {
    1_000_000_000_000_000_000
}

/// The largest number of atomic units that a magnitude holds: 2^256 - 1.
pub open spec fn max_atomics() -> nat {
    0xffff_ffff_ffff_ffff_ffff_ffff_ffff_ffff_ffff_ffff_ffff_ffff_ffff_ffff_ffff_ffffnat
}

/// The number that a sequence of bytes spells, most significant byte first.
pub open spec fn be_value(s: Seq<u8>) -> nat
    decreases s.len(),
{
    if s.len() == 0 {
        0
    } else {
        be_value(s.drop_last()) * 256 + s.last() as nat
    }
}

/// `r` is the largest natural number whose square does not exceed `n`.
pub open spec fn is_integer_sqrt(n: nat, r: nat) -> bool {
    r * r <= n < (r + 1) * (r + 1)
}

/// The integer square root of `n`.
pub open spec fn integer_sqrt(n: nat) -> nat {
    choose|r: nat| #[trigger] is_integer_sqrt(n, r)
}

/// The largest precision not above `p` at which `100^precision` times `a` atomic units
/// still fits in 256 bits; precision zero always fits.
pub open spec fn sqrt_precision(a: nat, p: nat) -> nat
    decreases p,
{
    if p == 0 || a * pow(100, p) <= max_atomics() {
        p
    } else {
        sqrt_precision(a, (p - 1) as nat)
    }
}

/// The atomic units of the square root of a magnitude of `a` atomic units: the integer
/// root taken at the highest precision (at most nine digits) that does not overflow,
/// padded with zeros to eighteen places.
pub open spec fn decimal_sqrt(a: nat) -> nat {
    let p = sqrt_precision(a, 9);
    (integer_sqrt((a * pow(100, p)) as nat) * pow(10, (9 - p) as nat)) as nat
}

/// The spacing of the square roots about the root of `a` atomic units: one where the
/// root is taken at full precision, a power of ten where digits had to be given up.
pub open spec fn decimal_sqrt_grain(a: nat) -> nat {
    pow(10, (9 - sqrt_precision(a, 9)) as nat) as nat
}

/// The atomic units that `Decimal256::from_str` reads from a text, or `None` where it
/// reports an error.
pub uninterp spec fn decimal_parse(text: Seq<char>) -> Option<nat>;

/// The number of characters from which on a text is not handed to the parser.
pub open spec fn text_limit() -> nat {
    0x1_0000_0000
}

/// The atomic units that a text stands for: what the parser reads from it, and
/// nothing for a text of `text_limit()` characters or more, which is never parsed.
pub open spec fn decimal_read(text: Seq<char>) -> Option<nat> {
    if text.len() < text_limit() {
        decimal_parse(text)
    } else {
        None
    }
}

/// The decimal text of a magnitude of `atomics` atomic units.
pub uninterp spec fn decimal_text(atomics: nat) -> Seq<char>;

/// A nonnegative fixed-point number of up to 256 bits with eighteen decimal places,
/// held as the big-endian bytes of its count of atomic units.
#[derive(Clone, Copy, Debug, PartialEq, Eq)]
pub struct UnsignedDecimal {
    pub bytes: [u8; 32],
}

impl UnsignedDecimal {
    /// The count of atomic units (10^-18) that the bytes spell.
    pub open spec fn atomics(self) -> nat {
        be_value(self.bytes@)
    }

    /// Two magnitudes of the same atomic units are the same magnitude.
    pub proof fn lemma_atomics_injective(self, other: Self)
        requires
            self.atomics() == other.atomics(),
        ensures
            self == other,
    {
        lemma_be_value_injective(self.bytes@, other.bytes@);
        assert(self.bytes =~= other.bytes);
    }

    /// Every magnitude fits in 256 bits.
    pub proof fn lemma_atomics_bound(self)
        ensures
            self.atomics() <= max_atomics(),
    {
        lemma_be_value_bound(self.bytes@);
        lemma_pow256_32();
    }
}

/// Two byte sequences of one length that spell the same number are the same.
proof fn lemma_be_value_injective(s: Seq<u8>, t: Seq<u8>)
    requires
        s.len() == t.len(),
        be_value(s) == be_value(t),
    ensures
        s == t,
    decreases s.len(),
{
    if s.len() == 0 {
        assert(s =~= t);
    } else {
        let a = be_value(s.drop_last());
        let b = be_value(t.drop_last());
        assert(be_value(s) == a * 256 + s.last() as nat);
        assert(be_value(t) == b * 256 + t.last() as nat);
        assert(a == b && s.last() == t.last()) by (nonlinear_arith)
            requires
                a * 256 + s.last() as nat == b * 256 + t.last() as nat,
                s.last() < 256,
                t.last() < 256,
        ;
        lemma_be_value_injective(s.drop_last(), t.drop_last());
        assert(s =~= s.drop_last().push(s.last()));
        assert(t =~= t.drop_last().push(t.last()));
    }
}

proof fn lemma_be_value_bound(s: Seq<u8>)
    ensures
        be_value(s) < pow(256, s.len()),
    decreases s.len(),
{
    if s.len() == 0 {
        lemma_pow0(256);
    } else {
        let t = s.drop_last();
        lemma_be_value_bound(t);
        lemma_pow_adds(256, t.len(), 1);
        lemma_pow1(256);
        assert(be_value(s) == be_value(t) * 256 + s.last() as nat);
        assert(be_value(t) + 1 <= pow(256, t.len()));
        assert((be_value(t) + 1) * 256 <= pow(256, t.len()) * 256) by (nonlinear_arith)
            requires
                be_value(t) + 1 <= pow(256, t.len()),
        ;
        assert(s.len() == t.len() + 1);
    }
}

proof fn lemma_pow256_32()
    ensures
        pow(256, 32) == max_atomics() + 1,
{
    lemma_pow1(256);
    lemma_pow_adds(256, 1, 1);
    lemma_pow_adds(256, 2, 2);
    lemma_pow_adds(256, 4, 4);
    lemma_pow_adds(256, 8, 8);
    lemma_pow_adds(256, 16, 16);
    let second = pow(256, 2);
    let fourth = pow(256, 4);
    let eighth = pow(256, 8);
    let sixteenth = pow(256, 16);
    assert(second == 0x1_0000int);
    assert(fourth == 0x1_0000_0000int) by (nonlinear_arith)
        requires
            fourth == second * second,
            second == 0x1_0000int,
    ;
    assert(eighth == 0x1_0000_0000_0000_0000int) by (nonlinear_arith)
        requires
            eighth == fourth * fourth,
            fourth == 0x1_0000_0000int,
    ;
    assert(sixteenth == 0x1_0000_0000_0000_0000_0000_0000_0000_0000int) by (nonlinear_arith)
        requires
            sixteenth == eighth * eighth,
            eighth == 0x1_0000_0000_0000_0000int,
    ;
    assert(pow(256, 32) == max_atomics() + 1) by (nonlinear_arith)
        requires
            pow(256, 32) == sixteenth * sixteenth,
            sixteenth == 0x1_0000_0000_0000_0000_0000_0000_0000_0000int,
            max_atomics()
                == 0xffff_ffff_ffff_ffff_ffff_ffff_ffff_ffff_ffff_ffff_ffff_ffff_ffff_ffff_ffff_ffffnat,
    ;
}

/// The square root of a magnitude fits in 256 bits, never exceeds the true root, and
/// falls short of it by less than one grain.
pub proof fn lemma_decimal_sqrt(a: nat)
    requires
        a <= max_atomics(),
    ensures
        decimal_sqrt(a) <= max_atomics(),
        decimal_sqrt(a) * decimal_sqrt(a) <= a * decimal_unit(),
        decimal_sqrt_grain(a) >= 1,
        (decimal_sqrt(a) + decimal_sqrt_grain(a)) * (decimal_sqrt(a) + decimal_sqrt_grain(a)) > a
            * decimal_unit(),
{
    let p = sqrt_precision(a, 9);
    lemma_sqrt_precision(a, 9);
    let n = (a * pow(100, p)) as nat;
    let f = pow(10, (9 - p) as nat);
    lemma_pow_positive(100, p);
    lemma_pow_positive(10, (9 - p) as nat);
    assert(a * pow(100, p) >= 0) by (nonlinear_arith)
        requires
            pow(100, p) > 0,
    ;
    lemma_integer_sqrt(n);
    let r = integer_sqrt(n);
    // 100^p * 10^(9-p) * 10^(9-p) == 10^18
    lemma_pow_multiplies(10, 2, p);
    lemma_pow1(10);
    lemma_pow_adds(10, 1, 1);
    assert(pow(10, 2) == 100);
    lemma_pow_adds(10, 2 * p, (9 - p) as nat);
    lemma_pow_adds(10, (2 * p + (9 - p)) as nat, (9 - p) as nat);
    lemma_pow10_18();
    assert(pow(100, p) * f * f == decimal_unit()) by (nonlinear_arith)
        requires
            pow(100, p) == pow(10, 2 * p),
            pow(10, 2 * p) * f == pow(10, (2 * p + (9 - p)) as nat),
            pow(10, (2 * p + (9 - p)) as nat) * f == pow(10, 18),
            pow(10, 18) == decimal_unit(),
    ;
    assert((r * f) * (r * f) <= a * decimal_unit()) by (nonlinear_arith)
        requires
            r * r <= n,
            n == a * pow(100, p),
            pow(100, p) * f * f == decimal_unit(),
            f > 0,
            r >= 0,
    ;
    assert((r * f + f) * (r * f + f) > a * decimal_unit()) by (nonlinear_arith)
        requires
            (r + 1) * (r + 1) > n,
            n == a * pow(100, p),
            pow(100, p) * f * f == decimal_unit(),
            f > 0,
            r >= 0,
    ;
    // r * f <= 2^128 * 10^9 at precision zero, and below 2^128 otherwise.
    if p == 0 {
        lemma_pow0(100);
        assert(n == a);
        lemma_pow10_9();
        assert(r * f <= max_atomics()) by (nonlinear_arith)
            requires
                r * r <= n,
                n <= max_atomics(),
                f == 1_000_000_000,
                r >= 0,
                max_atomics()
                    == 0xffff_ffff_ffff_ffff_ffff_ffff_ffff_ffff_ffff_ffff_ffff_ffff_ffff_ffff_ffff_ffffnat,
        ;
    } else {
        assert(n <= max_atomics());
        lemma_pow_increases(10, (9 - p) as nat, 9);
        lemma_pow10_9();
        assert(r * f <= max_atomics()) by (nonlinear_arith)
            requires
                r * r <= n,
                n <= max_atomics(),
                0 < f <= 1_000_000_000,
                r >= 0,
                max_atomics()
                    == 0xffff_ffff_ffff_ffff_ffff_ffff_ffff_ffff_ffff_ffff_ffff_ffff_ffff_ffff_ffff_ffffnat,
        ;
    }
}

/// The root of a magnitude whose atomic units times 10^18 fit in 256 bits is taken at
/// full precision.
pub proof fn lemma_decimal_sqrt_fine(a: nat)
    requires
        a * decimal_unit() <= max_atomics(),
    ensures
        decimal_sqrt_grain(a) == 1,
{
    lemma_pow_multiplies(10, 2, 9);
    lemma_pow1(10);
    lemma_pow_adds(10, 1, 1);
    assert(pow(10, 2) == 100);
    lemma_pow10_18();
    assert(pow(100, 9) == decimal_unit());
    assert(sqrt_precision(a, 9) == 9);
    lemma_pow0(10);
}

proof fn lemma_pow10_9()
    ensures
        pow(10, 9) == 1_000_000_000,
{
    lemma_pow1(10);
    lemma_pow_adds(10, 1, 1);
    lemma_pow_adds(10, 2, 2);
    lemma_pow_adds(10, 4, 4);
    lemma_pow_adds(10, 8, 1);
    let second = pow(10, 2);
    let fourth = pow(10, 4);
    let eighth = pow(10, 8);
    assert(second == 100);
    assert(fourth == 10_000) by (nonlinear_arith)
        requires
            fourth == second * second,
            second == 100,
    ;
    assert(eighth == 100_000_000) by (nonlinear_arith)
        requires
            eighth == fourth * fourth,
            fourth == 10_000,
    ;
}

proof fn lemma_pow10_18()
    ensures
        pow(10, 18) == decimal_unit(),
{
    lemma_pow10_9();
    lemma_pow_adds(10, 9, 9);
    let ninth = pow(10, 9);
    assert(pow(10, 18) == 1_000_000_000_000_000_000) by (nonlinear_arith)
        requires
            pow(10, 18) == ninth * ninth,
            ninth == 1_000_000_000,
    ;
}

proof fn lemma_sqrt_precision(a: nat, p: nat)
    ensures
        sqrt_precision(a, p) <= p,
        sqrt_precision(a, p) == 0 || a * pow(100, sqrt_precision(a, p)) <= max_atomics(),
    decreases p,
{
    if p == 0 || a * pow(100, p) <= max_atomics() {
    } else {
        lemma_sqrt_precision(a, (p - 1) as nat);
    }
}

/// Every natural number has an integer square root.
pub proof fn lemma_integer_sqrt(n: nat)
    ensures
        is_integer_sqrt(n, integer_sqrt(n)),
{
    lemma_integer_sqrt_exists(n);
}

proof fn lemma_integer_sqrt_exists(n: nat)
    ensures
        exists|r: nat| #[trigger] is_integer_sqrt(n, r),
    decreases n,
{
    if n == 0 {
        assert(is_integer_sqrt(0, 0)) by (nonlinear_arith);
    } else {
        lemma_integer_sqrt_exists((n - 1) as nat);
        let r = choose|r: nat| #[trigger] is_integer_sqrt((n - 1) as nat, r);
        if (r + 1) * (r + 1) <= n {
            assert(is_integer_sqrt(n, r + 1)) by (nonlinear_arith)
                requires
                    n - 1 < (r + 1) * (r + 1),
                    (r + 1) * (r + 1) <= n,
            ;
        } else {
            assert(is_integer_sqrt(n, r)) by (nonlinear_arith)
                requires
                    r * r <= n - 1,
                    (r + 1) * (r + 1) > n,
            ;
        }
    }
}

#[verifier::external_type_specification]
#[verifier::external_body]
pub struct ExOverflowError(cosmwasm_std::OverflowError);

#[verifier::external_type_specification]
#[verifier::external_body]
pub struct ExStdError(cosmwasm_std::StdError);

/// `Decimal256::zero`: the magnitude of no atomic units.
#[verifier::external_body]
pub(crate) fn magnitude_zero() -> (r: UnsignedDecimal)
    ensures
        r.atomics() == 0,
{
    UnsignedDecimal { bytes: cosmwasm_std::Decimal256::zero().atomics().to_be_bytes() }
}

/// `Decimal256::one`: the magnitude of 10^18 atomic units.
#[verifier::external_body]
pub(crate) fn magnitude_one() -> (r: UnsignedDecimal)
    ensures
        r.atomics() == decimal_unit(),
{
    UnsignedDecimal { bytes: cosmwasm_std::Decimal256::one().atomics().to_be_bytes() }
}

/// `Decimal256::MAX`: the magnitude of 2^256 - 1 atomic units.
#[verifier::external_body]
pub(crate) fn magnitude_max() -> (r: UnsignedDecimal)
    ensures
        r.atomics() == max_atomics(),
{
    UnsignedDecimal { bytes: cosmwasm_std::Decimal256::MAX.atomics().to_be_bytes() }
}

/// `Decimal256::from_ratio` on two `u128`: the quotient of the two integers as a
/// magnitude, rounded down to a whole atomic unit. With 128-bit operands the result
/// always fits; a zero denominator makes the outside function panic and is left out.
#[verifier::external_body]
pub(crate) fn magnitude_from_ratio(numerator: u128, denominator: u128) -> (r: UnsignedDecimal)
    requires
        denominator != 0,
    ensures
        r.atomics() == numerator as nat * decimal_unit() / denominator as nat,
{
    let d = cosmwasm_std::Decimal256::from_ratio(numerator, denominator);
    UnsignedDecimal { bytes: d.atomics().to_be_bytes() }
}

/// `Decimal256::is_zero`: whether the magnitude holds no atomic unit.
#[verifier::external_body]
pub(crate) fn magnitude_is_zero(a: UnsignedDecimal) -> (r: bool)
    ensures
        r == (a.atomics() == 0),
{
    cosmwasm_std::Decimal256::new(cosmwasm_std::Uint256::from_be_bytes(a.bytes)).is_zero()
}

/// `==` of `Decimal256`: whether two magnitudes hold the same atomic units.
#[verifier::external_body]
pub(crate) fn magnitude_eq(a: UnsignedDecimal, b: UnsignedDecimal) -> (r: bool)
    ensures
        r == (a.atomics() == b.atomics()),
{
    let x = cosmwasm_std::Decimal256::new(cosmwasm_std::Uint256::from_be_bytes(a.bytes));
    let y = cosmwasm_std::Decimal256::new(cosmwasm_std::Uint256::from_be_bytes(b.bytes));
    x == y
}

/// `<` of `Decimal256`: whether the first magnitude holds fewer atomic units.
#[verifier::external_body]
pub(crate) fn magnitude_lt(a: UnsignedDecimal, b: UnsignedDecimal) -> (r: bool)
    ensures
        r == (a.atomics() < b.atomics()),
{
    let x = cosmwasm_std::Decimal256::new(cosmwasm_std::Uint256::from_be_bytes(a.bytes));
    let y = cosmwasm_std::Decimal256::new(cosmwasm_std::Uint256::from_be_bytes(b.bytes));
    x < y
}

/// `Decimal256::checked_add`: the sum of the atomic units, or an error exactly when
/// the sum does not fit in 256 bits.
#[verifier::external_body]
pub(crate) fn magnitude_checked_add(a: UnsignedDecimal, b: UnsignedDecimal) -> (r: Result<
    UnsignedDecimal,
    cosmwasm_std::OverflowError,
>)
    ensures
        match r {
            Ok(v) => v.atomics() == a.atomics() + b.atomics(),
            Err(_) => a.atomics() + b.atomics() > max_atomics(),
        },
{
    let x = cosmwasm_std::Decimal256::new(cosmwasm_std::Uint256::from_be_bytes(a.bytes));
    let y = cosmwasm_std::Decimal256::new(cosmwasm_std::Uint256::from_be_bytes(b.bytes));
    match x.checked_add(y) {
        Ok(v) => Ok(UnsignedDecimal { bytes: v.atomics().to_be_bytes() }),
        Err(e) => Err(e),
    }
}

/// `Decimal256::checked_sub`: the difference of the atomic units, or an error exactly
/// when the second magnitude is the larger.
#[verifier::external_body]
pub(crate) fn magnitude_checked_sub(a: UnsignedDecimal, b: UnsignedDecimal) -> (r: Result<
    UnsignedDecimal,
    cosmwasm_std::OverflowError,
>)
    ensures
        match r {
            Ok(v) => a.atomics() >= b.atomics() && v.atomics() == a.atomics() - b.atomics(),
            Err(_) => a.atomics() < b.atomics(),
        },
{
    let x = cosmwasm_std::Decimal256::new(cosmwasm_std::Uint256::from_be_bytes(a.bytes));
    let y = cosmwasm_std::Decimal256::new(cosmwasm_std::Uint256::from_be_bytes(b.bytes));
    match x.checked_sub(y) {
        Ok(v) => Ok(UnsignedDecimal { bytes: v.atomics().to_be_bytes() }),
        Err(e) => Err(e),
    }
}

/// `Decimal256::checked_mul`: the product of the atomic units divided by 10^18 and
/// rounded down, or an error exactly when that does not fit in 256 bits.
#[verifier::external_body]
pub(crate) fn magnitude_checked_mul(a: UnsignedDecimal, b: UnsignedDecimal) -> (r: Result<
    UnsignedDecimal,
    cosmwasm_std::OverflowError,
>)
    ensures
        match r {
            Ok(v) => v.atomics() == a.atomics() * b.atomics() / decimal_unit(),
            Err(_) => a.atomics() * b.atomics() / decimal_unit() > max_atomics(),
        },
{
    let x = cosmwasm_std::Decimal256::new(cosmwasm_std::Uint256::from_be_bytes(a.bytes));
    let y = cosmwasm_std::Decimal256::new(cosmwasm_std::Uint256::from_be_bytes(b.bytes));
    match x.checked_mul(y) {
        Ok(v) => Ok(UnsignedDecimal { bytes: v.atomics().to_be_bytes() }),
        Err(e) => Err(e),
    }
}

/// `Decimal256::checked_div`: the atomic units of the dividend times 10^18, divided by
/// those of the divisor and rounded down. A zero divisor is reported as a division by
/// zero, a quotient that does not fit in 256 bits as an overflow.
#[verifier::external_body]
pub(crate) fn magnitude_checked_div(a: UnsignedDecimal, b: UnsignedDecimal) -> (r: Result<
    UnsignedDecimal,
    RouterError,
>)
    ensures
        match r {
            Ok(v) => b.atomics() != 0 && v.atomics() == a.atomics() * decimal_unit()
                / b.atomics(),
            Err(e) => if b.atomics() == 0 {
                e == RouterError::DivideByZero
            } else {
                e == RouterError::Overflow && a.atomics() * decimal_unit() / b.atomics()
                    > max_atomics()
            },
        },
{
    let x = cosmwasm_std::Decimal256::new(cosmwasm_std::Uint256::from_be_bytes(a.bytes));
    let y = cosmwasm_std::Decimal256::new(cosmwasm_std::Uint256::from_be_bytes(b.bytes));
    match x.checked_div(y) {
        Ok(v) => Ok(UnsignedDecimal { bytes: v.atomics().to_be_bytes() }),
        Err(cosmwasm_std::CheckedFromRatioError::DivideByZero) => Err(RouterError::DivideByZero),
        Err(cosmwasm_std::CheckedFromRatioError::Overflow) => Err(RouterError::Overflow),
    }
}

/// `Decimal256::sqrt`: the integer square root, taken at the highest precision that
/// does not overflow and padded to eighteen decimal places. It never fails.
#[verifier::external_body]
pub(crate) fn magnitude_sqrt(a: UnsignedDecimal) -> (r: UnsignedDecimal)
    ensures
        r.atomics() == decimal_sqrt(a.atomics()),
{
    let x = cosmwasm_std::Decimal256::new(cosmwasm_std::Uint256::from_be_bytes(a.bytes));
    UnsignedDecimal { bytes: x.sqrt().atomics().to_be_bytes() }
}

/// `Decimal256::from_str`: the magnitude that a decimal text stands for. The result
/// depends on the text alone and is known here only by name. The outside function
/// takes the length of the fractional part as a 32-bit number, and can panic on a
/// text whose length does not fit in one: such a text is left out.
#[verifier::external_body]
pub(crate) fn magnitude_parse(text: &str) -> (r: Result<UnsignedDecimal, cosmwasm_std::StdError>)
    requires
        text@.len() < text_limit(),
    ensures
        match r {
            Ok(v) => decimal_parse(text@) == Some(v.atomics()),
            Err(_) => decimal_parse(text@) is None,
        },
{
    match cosmwasm_std::Decimal256::from_str(text) {
        Ok(v) => Ok(UnsignedDecimal { bytes: v.atomics().to_be_bytes() }),
        Err(e) => Err(e),
    }
}

/// `to_string` of `Decimal256`: the decimal text of a magnitude, known here only by
/// name.
#[verifier::external_body]
pub(crate) fn magnitude_text(a: UnsignedDecimal) -> (r: String)
    ensures
        r@ == decimal_text(a.atomics()),
{
    cosmwasm_std::Decimal256::new(cosmwasm_std::Uint256::from_be_bytes(a.bytes)).to_string()
}

/// `to_string` of `StdError`: the message of a failed parse. Nothing is claimed of it.
#[verifier::external_body]
pub(crate) fn parse_error_text(e: &cosmwasm_std::StdError) -> String {
    e.to_string()
}

} // verus!
