use cfmm_router::cfmms::{ProductTwoCoin, CFMM};
use cfmm_router::error::RouterError;
use cfmm_router::math::{DecimalMath, Infinity};
use cfmm_router::objectives::BasketLiquidation;
use cfmm_router::flows::{count_up, gather, pull, same_prices, zeros};
use cfmm_router::router::Router;
use cfmm_router::signed_decimal256::SignedDecimal256;

type Pool = ProductTwoCoin<SignedDecimal256>;
type Basket = BasketLiquidation<SignedDecimal256>;
type BasketRouter = Router<SignedDecimal256, Basket, Pool>;

fn dec(text: &str) -> SignedDecimal256 {
    SignedDecimal256::parse(text).unwrap()
}

fn decs(texts: &[&str]) -> Vec<SignedDecimal256> {
    texts.iter().map(|t| dec(t)).collect()
}

fn texts(values: &[SignedDecimal256]) -> Vec<String> {
    values.iter().map(|v| v.to_string()).collect()
}

fn pool(reserves: &[&str], ids: &[usize]) -> Pool {
    ProductTwoCoin::new(decs(reserves), dec("0.997"), ids.to_vec()).unwrap()
}

/// Three pools that connect three tokens, and a basket of the second and the third
/// token that is to be turned into the first.
fn three_pools() -> BasketRouter {
    let cfmms = vec![
        pool(&["1000", "10000"], &[0, 1]),
        pool(&["1000", "100"], &[1, 2]),
        pool(&["1000", "20000"], &[0, 2]),
    ];
    Router::new(BasketLiquidation::new(0, decs(&["0", "10", "100"])), cfmms, 3)
}

#[test]
fn new_starts_from_zero() {
    let r = three_pools();
    assert_eq!(r.cfmms.len(), 3);
    assert_eq!(r.market_prices, decs(&["0", "0", "0"]));
    assert_eq!(r.token_sales, vec![decs(&["0", "0"]); 3]);
    assert_eq!(r.token_buys, vec![decs(&["0", "0"]); 3]);
    assert_eq!(r.net_flows().unwrap(), decs(&["0", "0", "0"]));
}

#[test]
fn find_arb_stores_the_trade_of_every_pool() {
    let mut r = three_pools();
    r.find_arb(&decs(&["1", "0.5", "0.1"])).unwrap();
    assert_eq!(texts(&r.token_sales[0]), vec!["1236.420618030702770915", "0"]);
    assert_eq!(texts(&r.token_sales[1]), vec!["0", "607.868931117506655923"]);
    assert_eq!(texts(&r.token_sales[2]), vec!["413.330640570018326893", "0"]);
    assert_eq!(texts(&r.token_buys[0]), vec!["0", "5521.140709776106995782"]);
    assert_eq!(texts(&r.token_buys[1]), vec!["858.366033234873794192", "0"]);
    assert_eq!(texts(&r.token_buys[2]), vec!["0", "5836.603323487379419125"]);
    // the prices are not touched
    assert_eq!(r.market_prices, decs(&["0", "0", "0"]));
}

#[test]
fn find_arb_hands_each_pool_the_prices_of_its_own_tokens() {
    let mut r = three_pools();
    let v = decs(&["1", "0.5", "0.1"]);
    r.find_arb(&v).unwrap();
    for (i, cfmm) in r.cfmms.iter().enumerate() {
        let ids = cfmm.get_token_ids();
        let local = vec![v[ids[0]], v[ids[1]]];
        let (sell, buy) = cfmm.find_arb(&local).unwrap();
        assert_eq!(r.token_sales[i], sell);
        assert_eq!(r.token_buys[i], buy);
    }
}

#[test]
fn find_arb_stores_nothing_where_a_pool_fails() {
    let mut r = three_pools();
    r.find_arb(&decs(&["1", "0.5", "0.1"])).unwrap();
    let sales = r.token_sales.clone();
    let buys = r.token_buys.clone();
    // only the last two pools trade the third token
    assert_eq!(r.find_arb(&decs(&["1", "0.5", "0"])), Err(RouterError::DivideByZero));
    assert_eq!(r.token_sales, sales);
    assert_eq!(r.token_buys, buys);
    assert_eq!(r.arb_all(&decs(&["0", "1", "1"])).err(), Some(RouterError::DivideByZero));
}

#[test]
fn find_arb_again_at_the_same_prices_changes_nothing() {
    let mut r = three_pools();
    let x = decs(&["2", "0.2", "0.1"]);
    r.end_route(Some(x.clone())).unwrap();
    let sales = r.token_sales.clone();
    let buys = r.token_buys.clone();
    let prices = r.market_prices.clone();
    r.find_arb(&prices).unwrap();
    assert_eq!(r.token_sales, sales);
    assert_eq!(r.token_buys, buys);
}

#[test]
fn net_flows_add_up_by_token() {
    let mut r = three_pools();
    r.find_arb(&decs(&["1", "0.5", "0.1"])).unwrap();
    let flows = r.net_flows().unwrap();
    assert_eq!(
        texts(&flows),
        vec!["1649.751258600721097808", "-6379.506743010980789974", "-5228.734392369872763202"]
    );
}

#[test]
fn net_flows_fail_where_a_sum_is_out_of_range() {
    let mut r = three_pools();
    let infinity = SignedDecimal256::infinity();
    r.token_sales[0][0] = infinity;
    r.token_sales[2][0] = dec("1");
    assert_eq!(r.net_flows(), Err(RouterError::Overflow));
    r.token_sales[2][0] = dec("0");
    r.token_buys[0][0] = -infinity;
    assert_eq!(r.net_flows(), Err(RouterError::Overflow));
}

#[test]
fn begin_route_starts_from_equal_prices() {
    let mut r = three_pools();
    r.begin_route().unwrap();
    let third = "0.333333333333333333";
    assert_eq!(texts(&r.market_prices), vec![third, third, third]);
    assert_eq!(texts(&r.token_sales[0]), vec!["2164.022749016438133038", "0"]);
    assert_eq!(texts(&r.token_sales[1]), vec!["0", "216.402274901643813302"]);
    assert_eq!(texts(&r.token_sales[2]), vec!["3475.850263142649273025", "0"]);
    assert_eq!(texts(&r.token_buys[0]), vec!["0", "6832.968223902318135768"]);
    assert_eq!(texts(&r.token_buys[1]), vec!["683.296822390231813577", "0"]);
    assert_eq!(texts(&r.token_buys[2]), vec!["0", "15521.140709776106995782"]);
    assert_eq!(
        texts(&r.net_flows().unwrap()),
        vec!["5639.873012159087406063", "-7516.265046292549949345", "-15304.73843487446318248"]
    );
}

#[test]
fn begin_route_forgets_earlier_prices() {
    let mut r = three_pools();
    r.end_route(Some(decs(&["2", "0.2", "0.1"]))).unwrap();
    r.begin_route().unwrap();
    let third = "0.333333333333333333";
    assert_eq!(texts(&r.market_prices), vec![third, third, third]);
}

#[test]
fn begin_route_without_tokens_divides_by_zero() {
    let basket: Basket = BasketLiquidation::new(0, decs(&["0"]));
    let mut r: BasketRouter = Router::new(basket, vec![], 0);
    assert!(r.is_wf());
    assert!(!r.objective_fits());
    assert_eq!(r.begin_route(), Err(RouterError::DivideByZero));
    assert!(r.market_prices.is_empty());
}

#[test]
fn is_wf_tells_whether_the_parts_fit() {
    let mut r = three_pools();
    assert!(r.is_wf());
    assert!(r.objective_fits());
    r.token_sales[1] = decs(&["0"]);
    assert!(!r.is_wf());
    let mut r = three_pools();
    r.token_buys.pop();
    assert!(!r.is_wf());
    let mut r = three_pools();
    r.market_prices.pop();
    // the last two pools trade the third token
    assert!(!r.is_wf());
    let mut r = three_pools();
    r.cfmms[0].token_ids = vec![1, 1];
    assert!(!r.is_wf());
    let mut r = three_pools();
    r.market_prices.push(dec("0"));
    assert!(r.is_wf());
    assert!(!r.objective_fits());
    assert!(BasketRouter::ids_below(&[0, 2], 3));
    assert!(!BasketRouter::ids_below(&[0, 3], 3));
}

#[test]
fn begin_route_with_one_token() {
    let basket: Basket = BasketLiquidation::new(0, decs(&["1"]));
    let mut r: BasketRouter = Router::new(basket, vec![], 1);
    r.begin_route().unwrap();
    assert_eq!(r.market_prices, decs(&["1"]));
    assert!(r.token_sales.is_empty());
}

#[test]
fn evaluate_adds_the_trades_to_the_objective() {
    let mut r = three_pools();
    let x = decs(&["1", "0.5", "0.1"]);
    let mut g = decs(&["0", "0", "0"]);
    let value = r.evaluate(&x, &mut g).unwrap();
    // 10 * 0.5 + 100 * 0.1, plus the worth of what is sold less what is bought
    assert_eq!(value.to_string(), "-2047.875552141756573499");
    assert_eq!(
        texts(&g),
        vec!["1649.751258600721097808", "-6369.506743010980789974", "-5128.734392369872763202"]
    );
    assert_eq!(r.market_prices, x);
    assert_eq!(texts(&r.token_sales[0]), vec!["1236.420618030702770915", "0"]);
}

#[test]
fn evaluate_at_other_prices() {
    let mut r = three_pools();
    let mut g = decs(&["0", "0", "0"]);
    let value = r.evaluate(&decs(&["1", "0.1", "0.05"]), &mut g).unwrap();
    assert_eq!(value.to_string(), "-54.226452233167288614");
    assert_eq!(texts(&g), vec!["0", "-766.05703548880534979", "447.585026314264927301"]);
    let value = r.evaluate(&decs(&["2", "0.2", "0.1"]), &mut g).unwrap();
    assert_eq!(value.to_string(), "-108.452904466334577228");
    assert_eq!(texts(&g), vec!["0", "-766.05703548880534979", "447.585026314264927301"]);
}

#[test]
fn evaluate_uses_the_stored_trades_at_the_stored_prices() {
    let mut r = three_pools();
    let x = decs(&["1", "0.5", "0.1"]);
    let mut g = decs(&["0", "0", "0"]);
    let first = r.evaluate(&x, &mut g).unwrap();
    // trades put in by hand stay in use as long as the prices are the stored ones
    r.token_sales = vec![decs(&["0", "0"]); 3];
    r.token_buys = vec![decs(&["0", "0"]); 3];
    let mut h = decs(&["0", "0", "0"]);
    let second = r.evaluate(&x, &mut h).unwrap();
    assert_eq!(second, dec("15"));
    assert_eq!(h, decs(&["0", "10", "100"]));
    assert_eq!(r.token_sales, vec![decs(&["0", "0"]); 3]);
    // other prices bring the trades back
    let mut k = decs(&["0", "0", "0"]);
    r.evaluate(&decs(&["2", "1", "0.2"]), &mut k).unwrap();
    let third = r.evaluate(&x, &mut k).unwrap();
    assert_eq!(third, first);
    assert_eq!(k, g);
}

#[test]
fn evaluate_fails_at_equal_prices_where_the_gradient_is_out_of_range() {
    let mut r = three_pools();
    r.begin_route().unwrap();
    let x = r.market_prices.clone();
    let mut g = decs(&["7", "8", "9"]);
    // the objective is infinite below a price of one for the output token, and the
    // first pool sells: infinity plus a positive amount
    assert_eq!(r.evaluate(&x, &mut g), Err(RouterError::Overflow));
    assert_eq!(g, decs(&["7", "8", "9"]));
    assert_eq!(r.market_prices, x);
}

#[test]
fn evaluate_leaves_the_router_where_a_pool_fails() {
    let mut r = three_pools();
    r.end_route(Some(decs(&["2", "0.2", "0.1"]))).unwrap();
    let sales = r.token_sales.clone();
    let mut g = decs(&["7", "8", "9"]);
    assert_eq!(r.evaluate(&decs(&["2", "0", "0.1"]), &mut g), Err(RouterError::DivideByZero));
    assert_eq!(g, decs(&["7", "8", "9"]));
    assert_eq!(r.market_prices, decs(&["2", "0.2", "0.1"]));
    assert_eq!(r.token_sales, sales);
}

#[test]
fn end_route_stores_prices_and_trades() {
    let mut r = three_pools();
    let x = decs(&["1", "0.1", "0.05"]);
    r.end_route(Some(x.clone())).unwrap();
    assert_eq!(r.market_prices, x);
    assert_eq!(texts(&r.token_sales[1]), vec!["0", "347.585026314264927301"]);
    assert_eq!(texts(&r.token_buys[1]), vec!["776.05703548880534979", "0"]);
    assert_eq!(
        texts(&r.net_flows().unwrap()),
        vec!["0", "-776.05703548880534979", "347.585026314264927301"]
    );
}

#[test]
fn end_route_without_an_outcome_is_an_optimizer_failure() {
    let mut r = three_pools();
    r.begin_route().unwrap();
    let prices = r.market_prices.clone();
    let sales = r.token_sales.clone();
    assert_eq!(r.end_route(None), Err(RouterError::OptimizerFailure));
    assert_eq!(r.market_prices, prices);
    assert_eq!(r.token_sales, sales);
}

#[test]
fn end_route_keeps_the_router_where_a_pool_fails() {
    let mut r = three_pools();
    r.begin_route().unwrap();
    let prices = r.market_prices.clone();
    assert_eq!(r.end_route(Some(decs(&["0", "1", "1"]))), Err(RouterError::DivideByZero));
    assert_eq!(r.market_prices, prices);
}

#[test]
fn update_reserves_carries_out_the_trades() {
    let mut r = three_pools();
    r.end_route(Some(decs(&["1", "1", "3"]))).unwrap();
    assert_eq!(texts(&r.token_sales[0]), vec!["2164.022749016438133038", "0"]);
    assert_eq!(texts(&r.token_buys[0]), vec!["0", "6832.968223902318135768"]);
    assert_eq!(texts(&r.token_sales[1]), vec!["0", "82.547762138085148424"]);
    assert_eq!(texts(&r.token_buys[1]), vec!["451.454005461371434819", "0"]);
    r.update_reserves().unwrap();
    assert_eq!(
        texts(&r.cfmms[0].get_reserves()),
        vec!["3164.022749016438133038", "3167.031776097681864232"]
    );
    assert_eq!(
        texts(&r.cfmms[1].get_reserves()),
        vec!["548.545994538628565181", "182.547762138085148424"]
    );
    assert_eq!(r.cfmms[0].get_token_ids(), vec![0, 1]);
    assert_eq!(r.cfmms[0].fee, dec("0.997"));
}

#[test]
fn update_reserves_leaves_nothing_to_trade_at_the_same_prices() {
    let zero = SignedDecimal256::zero();
    let tolerance = dec("0.000001");
    for prices in [["1", "1", "3"], ["1", "0.5", "0.1"], ["2", "0.2", "0.1"], ["0.25", "0.5", "4"]] {
        let mut r = three_pools();
        let x = decs(&prices);
        r.end_route(Some(x.clone())).unwrap();
        r.update_reserves().unwrap();
        r.find_arb(&x).unwrap();
        for amounts in r.token_sales.iter().chain(r.token_buys.iter()) {
            for a in amounts.iter() {
                assert!(a.at_least(zero));
                assert!(tolerance.greater_than(*a), "{} at {:?}", a.to_string(), prices);
            }
        }
    }
}

#[test]
fn update_reserves_changes_no_pool_where_one_fails() {
    let mut r = three_pools();
    r.end_route(Some(decs(&["1", "1", "3"]))).unwrap();
    let infinity = SignedDecimal256::infinity();
    r.token_sales[2][1] = infinity;
    assert_eq!(r.update_reserves(), Err(RouterError::Overflow));
    assert_eq!(r.cfmms[0].get_reserves(), decs(&["1000", "10000"]));
    assert_eq!(r.cfmms[1].get_reserves(), decs(&["1000", "100"]));
    assert_eq!(r.cfmms[2].get_reserves(), decs(&["1000", "20000"]));
    assert_eq!(r.settled_reserves().err(), Some(RouterError::Overflow));
}

#[test]
fn gains_are_the_worth_of_the_trades() {
    let mut r = three_pools();
    let x = decs(&["1", "0.5", "0.1"]);
    r.find_arb(&x).unwrap();
    assert_eq!(r.gains(&x).unwrap().to_string(), "-2062.875552141756573499");
    let gain = BasketRouter::gain(&decs(&["2", "0"]), &decs(&["0", "3"]), &decs(&["5", "7"]));
    assert_eq!(gain, Ok(dec("-11")));
}

#[test]
fn add_flows_adds_to_what_is_there() {
    let mut r = three_pools();
    r.find_arb(&decs(&["1", "0.1", "0.05"])).unwrap();
    let mut g = decs(&["1", "2", "3"]);
    r.add_flows(&mut g).unwrap();
    assert_eq!(texts(&g), vec!["1", "-774.05703548880534979", "350.585026314264927301"]);
}

#[test]
fn helpers() {
    let v = decs(&["10", "20", "30", "40"]);
    assert_eq!(gather(&[3, 1], &v), decs(&["40", "20"]));
    assert_eq!(gather(&[], &v), decs(&[]));
    assert_eq!(zeros::<SignedDecimal256>(2), decs(&["0", "0"]));
    assert_eq!(count_up(3), vec![0, 1, 2]);
    assert!(same_prices(&decs(&["1", "0"]), &[dec("1"), SignedDecimal256::from_str("0", false).unwrap()]));
    assert!(!same_prices(&decs(&["1", "2"]), &decs(&["1", "2.000000000000000001"])));
    assert!(!same_prices(&decs(&["1", "2"]), &decs(&["1"])));
    let mut g = decs(&["1", "1", "1"]);
    pull(&mut g, &[2, 0], &decs(&["5", "0.5"]), &decs(&["1", "2"])).unwrap();
    assert_eq!(g, decs(&["-0.5", "1", "5"]));
    // the same position twice
    let mut g = decs(&["0"]);
    pull(&mut g, &[0, 0], &decs(&["5", "3"]), &decs(&["1", "1"])).unwrap();
    assert_eq!(g, decs(&["6"]));
}
