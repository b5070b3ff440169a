use cfmm_router::cfmms::{ProductTwoCoin, CFMM};
use cfmm_router::error::RouterError;
use cfmm_router::math::{CheckedMul, DecimalMath};
use cfmm_router::signed_decimal256::SignedDecimal256;

fn dec(text: &str) -> SignedDecimal256 {
    SignedDecimal256::parse(text).unwrap()
}

fn decs(texts: &[&str]) -> Vec<SignedDecimal256> {
    texts.iter().map(|t| dec(t)).collect()
}

fn texts(values: &[SignedDecimal256]) -> Vec<String> {
    values.iter().map(|v| v.to_string()).collect()
}

fn pool(reserves: &[&str], fee: &str, ids: &[usize]) -> ProductTwoCoin<SignedDecimal256> {
    ProductTwoCoin::new(decs(reserves), dec(fee), ids.to_vec()).unwrap()
}

#[test]
fn new_keeps_what_it_is_given() {
    let p = pool(&["1000", "10000"], "0.997", &[4, 7]);
    assert_eq!(p.get_token_ids(), vec![4, 7]);
    assert_eq!(p.get_reserves(), decs(&["1000", "10000"]));
    assert_eq!(p.fee, dec("0.997"));
}

#[test]
fn new_rejects_other_shapes() {
    let fee = dec("0.997");
    let r = ProductTwoCoin::new(decs(&["1", "2", "3"]), fee, vec![0, 1]);
    assert!(matches!(r, Err(RouterError::InvalidPool)));
    let r = ProductTwoCoin::new(decs(&["1"]), fee, vec![0, 1]);
    assert!(matches!(r, Err(RouterError::InvalidPool)));
    let r = ProductTwoCoin::new(decs(&["1", "2"]), fee, vec![0, 1, 2]);
    assert!(matches!(r, Err(RouterError::InvalidPool)));
    let r = ProductTwoCoin::new(decs(&["1", "2"]), fee, vec![0]);
    assert!(matches!(r, Err(RouterError::InvalidPool)));
    let r = ProductTwoCoin::new(decs(&["1", "2"]), fee, vec![3, 3]);
    assert!(matches!(r, Err(RouterError::InvalidPool)));
}

#[test]
fn set_reserves_replaces_the_reserves() {
    let mut p = pool(&["1000", "10000"], "0.997", &[0, 1]);
    p.set_reserves(&decs(&["5", "6.5"]));
    assert_eq!(p.get_reserves(), decs(&["5", "6.5"]));
    assert_eq!(p.get_token_ids(), vec![0, 1]);
    assert_eq!(p.fee, dec("0.997"));
}

#[test]
fn find_arb_at_equal_prices() {
    let p = pool(&["1000", "10000"], "0.997", &[0, 1]);
    let (sell, buy) = p.find_arb(&decs(&["1", "1"])).unwrap();
    assert_eq!(texts(&sell), vec!["2164.022749016438133038", "0"]);
    assert_eq!(texts(&buy), vec!["0", "6832.968223902318135768"]);
}

#[test]
fn find_arb_the_other_way() {
    let p = pool(&["1000", "100"], "0.997", &[1, 2]);
    let (sell, buy) = p.find_arb(&decs(&["1", "3"])).unwrap();
    assert_eq!(texts(&sell), vec!["0", "82.547762138085148424"]);
    assert_eq!(texts(&buy), vec!["451.454005461371434819", "0"]);
}

#[test]
fn prod_arb_delta_is_the_clamped_formula() {
    type P = ProductTwoCoin<SignedDecimal256>;
    // sqrt(0.997 * 1 * 10^7) - 1000, over 0.997
    let d = P::prod_arb_delta(dec("1"), dec("1000"), dec("10000000"), dec("0.997")).unwrap();
    assert_eq!(d.to_string(), "2164.022749016438133038");
    // the root is below the reserve: nothing is sold
    let d = P::prod_arb_delta(dec("1"), dec("10000"), dec("10000000"), dec("0.997")).unwrap();
    assert_eq!(d, SignedDecimal256::zero());
    // without a fee: sqrt(4 * 25) - 3
    let d = P::prod_arb_delta(dec("4"), dec("3"), dec("25"), dec("1")).unwrap();
    assert_eq!(d, dec("7"));
}

#[test]
fn prod_arb_lambda_is_the_clamped_formula() {
    type P = ProductTwoCoin<SignedDecimal256>;
    // 10000 - sqrt(10^7 / (1 * 0.997))
    let l = P::prod_arb_lambda(dec("1"), dec("10000"), dec("10000000"), dec("0.997")).unwrap();
    assert_eq!(l.to_string(), "6832.968223902318135768");
    let l = P::prod_arb_lambda(dec("1"), dec("1000"), dec("10000000"), dec("0.997")).unwrap();
    assert_eq!(l, SignedDecimal256::zero());
    // without a fee: 30 - sqrt(100 / 4)
    let l = P::prod_arb_lambda(dec("4"), dec("30"), dec("100"), dec("1")).unwrap();
    assert_eq!(l, dec("25"));
}

#[test]
fn find_arb_fails_on_a_zero_price() {
    let p = pool(&["1000", "10000"], "0.997", &[0, 1]);
    assert!(matches!(p.find_arb(&decs(&["0", "1"])), Err(RouterError::DivideByZero)));
    assert!(matches!(p.find_arb(&decs(&["1", "0"])), Err(RouterError::DivideByZero)));
    assert!(matches!(p.find_arb(&decs(&["0", "0"])), Err(RouterError::DivideByZero)));
}

#[test]
fn find_arb_fails_on_a_zero_fee() {
    let p = pool(&["1000", "10000"], "0", &[0, 1]);
    assert!(matches!(p.find_arb(&decs(&["1", "1"])), Err(RouterError::DivideByZero)));
}

#[test]
fn find_arb_fails_where_the_product_of_the_reserves_is_out_of_range() {
    let big = "100000000000000000000000000000000000000";
    let p = pool(&[big, big], "0.997", &[0, 1]);
    assert!(matches!(p.find_arb(&decs(&["1", "1"])), Err(RouterError::Overflow)));
}

#[test]
fn scaled_prices_give_the_same_trade() {
    let p = pool(&["1000", "10000"], "0.997", &[0, 1]);
    let base = p.find_arb(&decs(&["0.25", "0.75"])).unwrap();
    for scaled in [["0.5", "1.5"], ["25", "75"], ["0.125", "0.375"], ["1000000", "3000000"]] {
        let again = p.find_arb(&decs(&scaled)).unwrap();
        assert_eq!(again.0, base.0);
        assert_eq!(again.1, base.1);
    }
    let one = p.find_arb(&decs(&["1", "1"])).unwrap();
    let two = p.find_arb(&decs(&["2", "2"])).unwrap();
    assert_eq!(texts(&two.0), texts(&one.0));
    assert_eq!(texts(&two.1), texts(&one.1));
}

#[test]
fn scaling_that_rounds_may_change_the_trade() {
    let p = pool(&["1000", "10000"], "0.997", &[0, 1]);
    let prices = decs(&["0.000000000000000001", "0.000000000000000003"]);
    assert!(p.find_arb(&prices).is_ok());
    // half of one atomic unit rounds down to nothing
    let half = dec("0.5");
    let scaled: Vec<SignedDecimal256> =
        prices.iter().map(|v| v.checked_mul(half).unwrap()).collect();
    assert_eq!(scaled, decs(&["0", "0.000000000000000001"]));
    assert!(matches!(p.find_arb(&scaled), Err(RouterError::DivideByZero)));
}

#[test]
fn nothing_is_traded_at_the_pools_own_price() {
    // 10 * 1000 == 1 * 10000
    let p = pool(&["1000", "10000"], "0.997", &[0, 1]);
    let (sell, buy) = p.find_arb(&decs(&["10", "1"])).unwrap();
    assert_eq!(texts(&sell), vec!["0", "0"]);
    assert_eq!(texts(&buy), vec!["0", "0"]);
    // exact arithmetic and no fee
    let p = pool(&["4", "9"], "1", &[0, 1]);
    let (sell, buy) = p.find_arb(&decs(&["9", "4"])).unwrap();
    assert_eq!(texts(&sell), vec!["0", "0"]);
    assert_eq!(texts(&buy), vec!["0", "0"]);
}

#[test]
fn nothing_is_bought_at_the_pools_own_price_where_the_root_is_not_exact() {
    // the root of two is not exact, and still covers the reserve
    let p = pool(&["1", "1"], "0.5", &[0, 1]);
    let (sell, buy) = p.find_arb(&decs(&["1", "1"])).unwrap();
    assert_eq!(texts(&sell), vec!["0", "0"]);
    assert_eq!(texts(&buy), vec!["0", "0"]);
}

#[test]
fn a_pool_is_well_formed_with_two_reserves_and_two_distinct_tokens() {
    let mut p = pool(&["1", "1"], "0.5", &[0, 1]);
    assert!(p.is_wf());
    p.token_ids = vec![1, 1];
    assert!(!p.is_wf());
    p.token_ids = vec![1, 2];
    p.reserves = decs(&["1"]);
    assert!(!p.is_wf());
}

#[test]
fn rounding_may_leave_a_remainder_to_buy() {
    // the product of the reserves rounds down to zero, and so does the root
    let tiny = "0.000000000000000003";
    let p = pool(&[tiny, tiny], "1", &[0, 1]);
    let (sell, buy) = p.find_arb(&decs(&["1", "1"])).unwrap();
    assert_eq!(texts(&sell), vec!["0", "0"]);
    assert_eq!(texts(&buy), vec![tiny, tiny]);
    // the product of the reserves is not exact
    let small = "0.0000000015";
    let p = pool(&[small, small], "1", &[0, 1]);
    let (sell, buy) = p.find_arb(&decs(&["1", "1"])).unwrap();
    assert_eq!(texts(&sell), vec!["0", "0"]);
    assert_eq!(texts(&buy), vec!["0.000000000085786438", "0.000000000085786438"]);
}

#[test]
fn no_amount_is_negative() {
    let zero = SignedDecimal256::zero();
    let pools = [
        pool(&["1000", "10000"], "0.997", &[0, 1]),
        pool(&["1000", "100"], "0.997", &[1, 2]),
        pool(&["0.5", "20000"], "1", &[0, 2]),
        pool(&["-3", "7"], "0.5", &[0, 2]),
    ];
    let prices = [["1", "1"], ["0.001", "7"], ["12", "0.3"], ["5", "-2"], ["-1", "-4"]];
    for p in pools.iter() {
        for v in prices.iter() {
            if let Ok((sell, buy)) = p.find_arb(&decs(v)) {
                for x in sell.iter().chain(buy.iter()) {
                    assert!(x.at_least(zero), "{} at {:?}", x.to_string(), v);
                }
            }
        }
    }
}
