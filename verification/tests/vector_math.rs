use cfmm_router::signed_decimal256::SignedDecimal256;
use cfmm_router::vector_math::{
    vec2norm, vec2norminv, vecadd, veccpy, vecdiff, vecdot, vecncpy, vecscale,
};

fn dec(text: &str) -> SignedDecimal256 {
    SignedDecimal256::parse(text).unwrap()
}

fn decs(texts: &[&str]) -> Vec<SignedDecimal256> {
    texts.iter().map(|t| dec(t)).collect()
}

#[test]
fn vecadd_adds_a_multiple() {
    let mut y = decs(&["1", "2", "3"]);
    vecadd(&mut y, &decs(&["10", "-20", "0.5"]), dec("2"));
    assert_eq!(y, decs(&["21", "-38", "4"]));
    // the shorter vector decides
    let mut y = decs(&["1", "2", "3"]);
    vecadd(&mut y, &decs(&["10"]), dec("-1"));
    assert_eq!(y, decs(&["-9", "2", "3"]));
}

#[test]
fn vecdot_is_the_sum_of_the_products() {
    assert_eq!(vecdot(&decs(&["1", "2", "3"]), &decs(&["4", "-5", "0.5"])), dec("-4.5"));
    assert_eq!(vecdot(&decs(&["1", "2", "3"]), &decs(&["4"])), dec("4"));
    assert_eq!(vecdot(&decs(&[]), &decs(&["4"])), dec("0"));
}

#[test]
fn vecscale_multiplies_every_entry() {
    let mut y = decs(&["1", "-2", "0.000000000000000003"]);
    vecscale(&mut y, dec("-0.5"));
    assert_eq!(y, decs(&["-0.5", "1", "-0.000000000000000001"]));
}

#[test]
fn veccpy_copies() {
    let mut y = decs(&["1", "2", "3"]);
    veccpy(&mut y, &decs(&["-7", "8"]));
    assert_eq!(y, decs(&["-7", "8", "3"]));
}

#[test]
fn vecncpy_copies_the_negation() {
    let mut y = decs(&["1", "2", "3"]);
    vecncpy(&mut y, &decs(&["-7", "8", "0", "5"]));
    assert_eq!(y, decs(&["7", "-8", "0"]));
    assert!(y[2].is_negative());
}

#[test]
fn vecdiff_subtracts() {
    let mut z = decs(&["0", "0", "0"]);
    vecdiff(&mut z, &decs(&["5", "1", "-2"]), &decs(&["2", "3"]));
    assert_eq!(z, decs(&["3", "-2", "0"]));
}

#[test]
fn norms() {
    assert_eq!(vec2norm(&decs(&["3", "-4"])), dec("5"));
    assert_eq!(vec2norm(&decs(&["1", "1"])).to_string(), "1.414213562373095048");
    assert_eq!(vec2norminv(&decs(&["3", "-4"])), dec("0.2"));
    assert_eq!(vec2norminv(&decs(&["0.6", "0.8"])), dec("1"));
}
