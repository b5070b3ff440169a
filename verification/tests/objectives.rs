use cfmm_router::error::RouterError;
use cfmm_router::math::{DecimalMath, Infinity};
use cfmm_router::objectives::{BasketLiquidation, Objective};
use cfmm_router::signed_decimal256::SignedDecimal256;

fn dec(text: &str) -> SignedDecimal256 {
    SignedDecimal256::parse(text).unwrap()
}

fn decs(texts: &[&str]) -> Vec<SignedDecimal256> {
    texts.iter().map(|t| dec(t)).collect()
}

fn basket() -> BasketLiquidation<SignedDecimal256> {
    BasketLiquidation::new(0, decs(&["0", "10", "100"]))
}

#[test]
fn value_is_the_worth_of_the_basket_where_feasible() {
    let b = basket();
    assert_eq!(b.f(&decs(&["1", "2", "0.5"])), Ok(dec("70")));
    assert_eq!(b.f(&decs(&["1", "0.5", "0.1"])), Ok(dec("15")));
    assert_eq!(b.f(&decs(&["7.5", "0", "0"])), Ok(dec("0")));
    assert_eq!(b.f(&decs(&["1", "-2", "0.5"])), Ok(dec("30")));
}

#[test]
fn value_leaves_out_the_output_token() {
    let b = BasketLiquidation::new(1, decs(&["3", "1000", "5"]));
    assert_eq!(b.f(&decs(&["2", "1", "4"])), Ok(dec("26")));
}

#[test]
fn value_is_infinite_where_infeasible() {
    let b = basket();
    let infinity = SignedDecimal256::infinity();
    assert_eq!(b.f(&decs(&["0.999999999999999999", "2", "0.5"])), Ok(infinity));
    assert_eq!(b.f(&decs(&["0", "2", "0.5"])), Ok(infinity));
    assert_eq!(b.f(&decs(&["-5", "2", "0.5"])), Ok(infinity));
}

#[test]
fn value_fails_where_the_worth_is_out_of_range() {
    let infinity = SignedDecimal256::infinity();
    let b = BasketLiquidation::new(0, vec![dec("0"), infinity, dec("1")]);
    assert_eq!(b.f(&decs(&["1", "2", "1"])), Err(RouterError::Overflow));
    assert_eq!(b.f(&decs(&["1", "1", "1"])), Err(RouterError::Overflow));
    assert_eq!(b.f(&decs(&["1", "1", "0"])), Ok(infinity));
}

#[test]
fn gradient_is_the_basket_where_feasible() {
    let b = basket();
    let mut g = decs(&["9", "9", "9"]);
    b.grad(&mut g, &decs(&["1", "2", "0.5"]));
    assert_eq!(g, decs(&["0", "10", "100"]));
    let b = BasketLiquidation::new(2, decs(&["3", "4", "5"]));
    let mut g = decs(&["9", "9", "9"]);
    b.grad(&mut g, &decs(&["0", "0", "1"]));
    assert_eq!(g, decs(&["3", "4", "0"]));
}

#[test]
fn gradient_is_infinite_where_infeasible() {
    let b = basket();
    let infinity = SignedDecimal256::infinity();
    let mut g = decs(&["9", "9", "9"]);
    b.grad(&mut g, &decs(&["0.5", "2", "0.5"]));
    assert_eq!(g, vec![infinity, infinity, infinity]);
}

#[test]
fn limits() {
    let b = basket();
    let infinity = SignedDecimal256::infinity();
    assert_eq!(b.lower_limit(), decs(&["1", "0", "0"]));
    assert_eq!(b.upper_limit(), vec![infinity, infinity, infinity]);
    let b = BasketLiquidation::new(1, decs(&["3", "4"]));
    assert_eq!(b.lower_limit(), vec![SignedDecimal256::zero(), SignedDecimal256::one()]);
}
