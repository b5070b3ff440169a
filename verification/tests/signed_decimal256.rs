use cfmm_router::error::RouterError;
use cfmm_router::math::{
    CheckedAdd, CheckedDiv, CheckedMul, CheckedSub, DecimalMath, Infinity, MachineEpsilon,
};
use cfmm_router::signed_decimal256::SignedDecimal256;

fn dec(text: &str) -> SignedDecimal256 {
    SignedDecimal256::parse(text).unwrap()
}

#[test]
fn parse_takes_a_leading_minus_sign() {
    let x = SignedDecimal256::parse("-12.5").unwrap();
    assert!(x.is_negative());
    assert_eq!(x, SignedDecimal256::from_str("12.5", false).unwrap());
    let y = SignedDecimal256::parse("12.5").unwrap();
    assert!(y.is_positive());
    assert_eq!(y, SignedDecimal256::from_str("12.5", true).unwrap());
    assert!(SignedDecimal256::parse("-0").unwrap().is_negative());
    assert_eq!(SignedDecimal256::parse("-0.75").unwrap().to_string(), "-0.75");
    assert!(SignedDecimal256::parse("").is_err());
    assert!(SignedDecimal256::parse("-").is_err());
    assert!(SignedDecimal256::parse("--1").is_err());
    assert!(SignedDecimal256::parse("1-").is_err());
    assert!(SignedDecimal256::parse("\u{2212}1").is_err());
    let z: SignedDecimal256 = "-3".parse().unwrap();
    assert_eq!(z, SignedDecimal256::from_i128(-3));
    assert!("x".parse::<SignedDecimal256>().is_err());
}

#[test]
fn test_add() {
    let a = SignedDecimal256::from_i128(100);
    let b = SignedDecimal256::from_i128(100);
    let c = SignedDecimal256::from_i128(200);
    assert_eq!(a + b, c);

    let a = SignedDecimal256::from_i128(-100);
    let b = SignedDecimal256::from_i128(200);
    let c = SignedDecimal256::from_i128(100);
    assert_eq!(a + b, c);

    let a = SignedDecimal256::from_i128(-100);
    let b = SignedDecimal256::from_i128(100);
    let c = SignedDecimal256::zero();
    assert_eq!(a + b, c);

    let a = SignedDecimal256::from_i128(200);
    let b = SignedDecimal256::from_i128(-200);
    let c = SignedDecimal256::zero();
    assert_eq!(a + b, c);

    let a = SignedDecimal256::from_i128(500);
    let b = SignedDecimal256::from_i128(-200);
    let c = SignedDecimal256::from_i128(300);
    assert_eq!(a + b, c);

    let a = SignedDecimal256::from_i128(-500);
    let b = SignedDecimal256::from_i128(-500);
    let c = SignedDecimal256::from_i128(-1000);
    assert_eq!(a + b, c);
}

#[test]
fn test_sub() {
    let a = SignedDecimal256::from_i128(100);
    let b = SignedDecimal256::from_i128(100);
    let c = SignedDecimal256::zero();
    assert_eq!(a - b, c);

    let a = SignedDecimal256::from_i128(-100);
    let b = SignedDecimal256::from_i128(200);
    let c = SignedDecimal256::from_i128(-300);
    assert_eq!(a - b, c);

    let a = SignedDecimal256::from_i128(-100);
    let b = SignedDecimal256::from_i128(100);
    let c = SignedDecimal256::from_i128(-200);
    assert_eq!(a - b, c);

    let a = SignedDecimal256::from_i128(200);
    let b = SignedDecimal256::from_i128(-200);
    let c = SignedDecimal256::from_i128(400);
    assert_eq!(a - b, c);

    let a = SignedDecimal256::from_i128(500);
    let b = SignedDecimal256::from_i128(-200);
    let c = SignedDecimal256::from_i128(700);
    assert_eq!(a - b, c);

    let a = SignedDecimal256::from_i128(-500);
    let b = SignedDecimal256::from_i128(-500);
    let c = SignedDecimal256::zero();
    assert_eq!(a - b, c);
}

#[test]
fn test_div() {
    let a = SignedDecimal256::from_i128(100);
    let b = SignedDecimal256::from_i128(100);
    let c = SignedDecimal256::from_i128(1);
    assert_eq!(a / b, c);

    let a = SignedDecimal256::from_i128(-100);
    let b = SignedDecimal256::from_i128(200);
    let c = SignedDecimal256::from_str("0.5", false).unwrap();
    assert_eq!(a / b, c);

    let a = SignedDecimal256::from_i128(-100);
    let b = SignedDecimal256::from_i128(100);
    let c = SignedDecimal256::from_i128(-1);
    assert_eq!(a / b, c);

    let a = SignedDecimal256::from_i128(200);
    let b = SignedDecimal256::from_i128(-200);
    let c = SignedDecimal256::from_i128(-1);
    assert_eq!(a / b, c);

    let a = SignedDecimal256::from_i128(500);
    let b = SignedDecimal256::from_i128(-200);
    let c = SignedDecimal256::from_str("2.5", false).unwrap();
    assert_eq!(a / b, c);

    let a = SignedDecimal256::from_i128(-500);
    let b = SignedDecimal256::from_i128(-500);
    let c = SignedDecimal256::from_i128(1);
    assert_eq!(a / b, c);
}

#[test]
fn test_mul() {
    let a = SignedDecimal256::from_i128(100);
    let b = SignedDecimal256::from_i128(100);
    let c = SignedDecimal256::from_i128(10000);
    assert_eq!(a * b, c);

    let a = SignedDecimal256::from_i128(-100);
    let b = SignedDecimal256::from_i128(200);
    let c = SignedDecimal256::from_i128(-20000);
    assert_eq!(a * b, c);

    let a = SignedDecimal256::from_i128(-100);
    let b = SignedDecimal256::from_i128(100);
    let c = SignedDecimal256::from_i128(-10000);
    assert_eq!(a * b, c);

    let a = SignedDecimal256::from_i128(200);
    let b = SignedDecimal256::from_i128(-200);
    let c = SignedDecimal256::from_i128(-40000);
    assert_eq!(a * b, c);

    let a = SignedDecimal256::from_i128(500);
    let b = SignedDecimal256::from_i128(-200);
    let c = SignedDecimal256::from_i128(-100000);
    assert_eq!(a * b, c);

    let a = SignedDecimal256::from_i128(-500);
    let b = SignedDecimal256::from_i128(-500);
    let c = SignedDecimal256::from_i128(250000);
    assert_eq!(a * b, c);
}

#[test]
fn test_checked_add() {
    let a = SignedDecimal256::from_i128(100);
    let b = SignedDecimal256::from_i128(100);
    let c = SignedDecimal256::from_i128(200);
    assert_eq!(a.checked_add(b), Ok(c));

    let a = SignedDecimal256::from_i128(-100);
    let b = SignedDecimal256::from_i128(200);
    let c = SignedDecimal256::from_i128(100);
    assert_eq!(a.checked_add(b), Ok(c));

    let a = SignedDecimal256::from_i128(-100);
    let b = SignedDecimal256::from_i128(100);
    let c = SignedDecimal256::zero();
    assert_eq!(a.checked_add(b), Ok(c));

    let a = SignedDecimal256::from_i128(200);
    let b = SignedDecimal256::from_i128(-200);
    let c = SignedDecimal256::zero();
    assert_eq!(a.checked_add(b), Ok(c));

    let a = SignedDecimal256::from_i128(500);
    let b = SignedDecimal256::from_i128(-200);
    let c = SignedDecimal256::from_i128(300);
    assert_eq!(a.checked_add(b), Ok(c));

    let a = SignedDecimal256::from_i128(-500);
    let b = SignedDecimal256::from_i128(-500);
    let c = SignedDecimal256::from_i128(-1000);
    assert_eq!(a.checked_add(b), Ok(c));
}

#[test]
fn test_checked_sub() {
    let a = SignedDecimal256::from_i128(100);
    let b = SignedDecimal256::from_i128(100);
    let c = SignedDecimal256::zero();
    let res = a.checked_sub(b);
    assert_eq!(res, Ok(c));

    let a = SignedDecimal256::from_i128(-100);
    let b = SignedDecimal256::from_i128(200);
    let c = SignedDecimal256::from_i128(-300);
    let res = a.checked_sub(b).unwrap();
    assert_eq!(res, c);

    let a = SignedDecimal256::from_i128(-100);
    let b = SignedDecimal256::from_i128(100);
    let c = SignedDecimal256::from_i128(-200);
    assert_eq!(a.checked_sub(b), Ok(c));

    let a = SignedDecimal256::from_i128(200);
    let b = SignedDecimal256::from_i128(-200);
    let c = SignedDecimal256::from_i128(400);
    assert_eq!(a.checked_sub(b), Ok(c));

    let a = SignedDecimal256::from_i128(500);
    let b = SignedDecimal256::from_i128(-200);
    let c = SignedDecimal256::from_i128(700);
    assert_eq!(a.checked_sub(b), Ok(c));

    let a = SignedDecimal256::from_i128(-500);
    let b = SignedDecimal256::from_i128(-500);
    let c = SignedDecimal256::zero();
    assert_eq!(a.checked_sub(b), Ok(c));
}

#[test]
fn test_checked_mul() {
    let a = SignedDecimal256::from_i128(100);
    let b = SignedDecimal256::from_i128(100);
    let c = SignedDecimal256::from_i128(10000);
    assert_eq!(a.checked_mul(b), Ok(c));

    let a = SignedDecimal256::from_i128(-100);
    let b = SignedDecimal256::from_i128(200);
    let c = SignedDecimal256::from_i128(-20000);
    assert_eq!(a.checked_mul(b), Ok(c));

    let a = SignedDecimal256::from_i128(-100);
    let b = SignedDecimal256::from_i128(100);
    let c = SignedDecimal256::from_i128(-10000);
    assert_eq!(a.checked_mul(b), Ok(c));

    let a = SignedDecimal256::from_i128(200);
    let b = SignedDecimal256::from_i128(-200);
    let c = SignedDecimal256::from_i128(-40000);
    assert_eq!(a.checked_mul(b), Ok(c));

    let a = SignedDecimal256::from_i128(500);
    let b = SignedDecimal256::from_i128(-200);
    let c = SignedDecimal256::from_i128(-100000);
    assert_eq!(a.checked_mul(b), Ok(c));

    let a = SignedDecimal256::from_i128(-500);
    let b = SignedDecimal256::from_i128(-500);
    let c = SignedDecimal256::from_i128(250000);
    assert_eq!(a.checked_mul(b), Ok(c));
}

#[test]
fn test_checked_div() {
    let a = SignedDecimal256::from_i128(100);
    let b = SignedDecimal256::from_i128(100);
    let c = SignedDecimal256::from_i128(1);
    assert_eq!(a.checked_div(b), Ok(c));

    let a = SignedDecimal256::from_i128(-100);
    let b = SignedDecimal256::from_i128(200);
    let c = SignedDecimal256::from_str("0.5", false).unwrap();
    assert_eq!(a.checked_div(b), Ok(c));

    let a = SignedDecimal256::from_i128(-100);
    let b = SignedDecimal256::from_i128(100);
    let c = SignedDecimal256::from_i128(-1);
    assert_eq!(a.checked_div(b), Ok(c));

    let a = SignedDecimal256::from_i128(200);
    let b = SignedDecimal256::from_i128(-200);
    let c = SignedDecimal256::from_i128(-1);
    assert_eq!(a.checked_div(b), Ok(c));

    let a = SignedDecimal256::from_i128(500);
    let b = SignedDecimal256::from_i128(-200);
    let c = SignedDecimal256::from_str("2.5", false).unwrap();
    assert_eq!(a.checked_div(b), Ok(c));

    let a = SignedDecimal256::from_i128(-500);
    let b = SignedDecimal256::from_i128(-500);
    let c = SignedDecimal256::from_i128(1);
    assert_eq!(a.checked_div(b), Ok(c));
}

#[test]
fn text_round_trip() {
    assert_eq!(dec("12.5").to_string(), "12.5");
    assert_eq!(dec("-12.5").to_string(), "-12.5");
    assert_eq!(dec("0.000000000000000001").to_string(), "0.000000000000000001");
    assert_eq!(SignedDecimal256::from_u128(7).to_string(), "7");
    assert_eq!(SignedDecimal256::from_i128(-7).to_string(), "-7");
    assert_eq!(SignedDecimal256::from_i16(-3).to_string(), "-3");
    assert_eq!(SignedDecimal256::from(5u128).to_string(), "5");
    assert_eq!(SignedDecimal256::from(-5i32).to_string(), "-5");
    assert_eq!(SignedDecimal256::from(-6i128).to_string(), "-6");
}

#[test]
fn from_i128_takes_the_least_integer() {
    let least = SignedDecimal256::from_i128(i128::MIN);
    assert!(least.is_negative());
    assert_eq!(least.to_string(), "-170141183460469231731687303715884105728");
}

#[test]
fn from_str_rejects_what_is_no_decimal() {
    assert!(SignedDecimal256::from_str("", true).is_err());
    assert!(SignedDecimal256::from_str("abc", true).is_err());
    assert!(SignedDecimal256::from_str("1.2.3", true).is_err());
    assert!(SignedDecimal256::from_str("-1", true).is_err());
    assert!(SignedDecimal256::from_str("0.0000000000000000001", true).is_err());
    let message = SignedDecimal256::from_str("abc", true).unwrap_err();
    assert!(message.contains("Error parsing whole"));
}

#[test]
fn constants() {
    assert!(SignedDecimal256::zero().is_zero());
    assert!(!SignedDecimal256::one().is_zero());
    assert_eq!(SignedDecimal256::one(), SignedDecimal256::from_u128(1));
    assert_eq!(SignedDecimal256::eps(), SignedDecimal256::zero());
    assert_eq!(
        SignedDecimal256::infinity().to_string(),
        "115792089237316195423570985008687907853269984665640564039457.584007913129639935"
    );
    let d = SignedDecimal256::default();
    assert!(d.is_zero());
    assert!(d.is_negative());
}

#[test]
fn zero_ignores_the_sign() {
    let plus = dec("0");
    let minus = SignedDecimal256::from_str("0", false).unwrap();
    assert!(plus.is_positive());
    assert!(minus.is_negative());
    assert!(!minus.is_sign_positive());
    assert_eq!(plus, minus);
    assert!(plus.same_as(minus));
    assert!(!plus.greater_than(minus));
    assert!(!minus.greater_than(plus));
    assert!(plus.at_least(minus));
    assert!(minus.at_least(plus));
    assert_eq!(plus.partial_cmp(&minus), Some(std::cmp::Ordering::Equal));
    assert_eq!(minus.to_string(), "-0");
}

#[test]
fn order_follows_the_numbers() {
    assert!(dec("2") > dec("1"));
    assert!(dec("-2") < dec("-1"));
    assert!(dec("-1") < dec("1"));
    assert!(dec("1") >= dec("1"));
    assert!(dec("0.5").greater_than(dec("-3")));
    assert!(!dec("-3").greater_than(dec("0.5")));
    assert!(dec("-1").greater_than(dec("-2")));
    assert!(!dec("1").same_as(dec("-1")));
    assert!(dec("1") != dec("-1"));
}

#[test]
fn signs_of_sums_and_differences() {
    // differing signs: the sign of the larger operand
    assert!((dec("-5").checked_add(dec("3")).unwrap()).is_negative());
    assert!((dec("5").checked_add(dec("-3")).unwrap()).is_positive());
    // equal magnitudes: the sign of the first operand
    assert!((dec("-5").checked_add(dec("5")).unwrap()).is_negative());
    // equal signs on subtraction: the minuend's sign unless the subtrahend is larger
    assert!((dec("5").checked_sub(dec("7")).unwrap()).is_negative());
    assert!((dec("-5").checked_sub(dec("-7")).unwrap()).is_positive());
    assert!((dec("-7").checked_sub(dec("-5")).unwrap()).is_negative());
    assert_eq!(dec("5").checked_sub(dec("7")).unwrap().to_string(), "-2");
}

#[test]
fn products_and_quotients_round_towards_zero() {
    let third = SignedDecimal256::one().checked_div(dec("3")).unwrap();
    assert_eq!(third.to_string(), "0.333333333333333333");
    let minus_third = SignedDecimal256::one().checked_div(dec("-3")).unwrap();
    assert_eq!(minus_third.to_string(), "-0.333333333333333333");
    let tiny = dec("0.000000000000000001");
    assert_eq!(tiny.checked_mul(dec("0.5")).unwrap().to_string(), "0");
    assert_eq!(dec("-0.000000000000000003").checked_mul(dec("0.5")).unwrap().to_string(), "-0.000000000000000001");
    assert_eq!(SignedDecimal256::one().checked_div(4usize).unwrap().to_string(), "0.25");
}

#[test]
fn arithmetic_failures() {
    let infinity = SignedDecimal256::infinity();
    let one = SignedDecimal256::one();
    assert_eq!(infinity.checked_add(one), Err(RouterError::Overflow));
    assert_eq!((-infinity).checked_sub(one), Err(RouterError::Overflow));
    assert_eq!(infinity.checked_mul(dec("2")), Err(RouterError::Overflow));
    assert_eq!(infinity.checked_div(dec("0.5")), Err(RouterError::Overflow));
    assert_eq!(one.checked_div(SignedDecimal256::zero()), Err(RouterError::DivideByZero));
    assert_eq!(one.checked_div(0usize), Err(RouterError::DivideByZero));
    assert_eq!(infinity.checked_sub(one).unwrap().checked_add(one), Ok(infinity));
}

#[test]
fn square_roots() {
    assert_eq!(dec("4").sqrt(), dec("2"));
    assert_eq!(dec("2").sqrt().to_string(), "1.414213562373095048");
    assert_eq!(dec("-9").sqrt(), dec("3"));
    assert_eq!(dec("0").sqrt(), dec("0"));
    // above 10^41 the root is taken with fewer digits
    let big = dec("2000000000000000000000000000000000000000000000000");
    assert_eq!(big.sqrt().to_string(), "1414213562373095048801688.72420969807856");
}

#[test]
fn magnitude_and_negation() {
    let x = dec("-2.5");
    assert_eq!(x.abs(), dec("2.5"));
    assert_eq!(-x, dec("2.5"));
    assert_eq!(x.to_decimal(), Err(RouterError::NegativeValue));
    let m = dec("2.5").to_decimal().unwrap();
    assert_eq!(SignedDecimal256::new(m, false), x);
    assert_eq!(SignedDecimal256::from(m), dec("2.5"));
}

#[test]
fn assignments_in_place() {
    let mut x = dec("10");
    x.add_assign(dec("-4"));
    assert_eq!(x, dec("6"));
    x.sub_assign(dec("8"));
    assert_eq!(x, dec("-2"));
    x.mul_assign(dec("-1.5"));
    assert_eq!(x, dec("3"));
    x.div_assign(dec("-4"));
    assert_eq!(x, dec("-0.75"));
}
