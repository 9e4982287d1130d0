use algo_trading::decimal::Decimal;
use algo_trading::md::types::{OrderBook, Side};
use std::str::FromStr;

fn d(s: &str) -> Decimal {
    Decimal::parse(s).unwrap()
}

fn rd(s: &str) -> rust_decimal::Decimal {
    rust_decimal::Decimal::from_str(s).unwrap()
}

fn prices(book: &OrderBook, side: Side) -> Vec<String> {
    let levels = match side {
        Side::Buy => &book.bids,
        Side::Sell => &book.asks,
    };
    levels.iter().map(|l| l.price.to_text()).collect()
}

#[test]
fn update_level_keeps_bids_descending_and_asks_ascending() {
    let mut book = OrderBook::new("TEST/USDT".to_string());
    book.update_level(d("100"), d("1"), Side::Buy);
    book.update_level(d("102"), d("1"), Side::Buy);
    book.update_level(d("101"), d("1"), Side::Buy);
    book.update_level(d("105"), d("1"), Side::Sell);
    book.update_level(d("103"), d("1"), Side::Sell);
    book.update_level(d("104"), d("1"), Side::Sell);
    assert_eq!(prices(&book, Side::Buy), vec!["102", "101", "100"]);
    assert_eq!(prices(&book, Side::Sell), vec!["103", "104", "105"]);
    assert_eq!(book.best_bid().unwrap().price.to_text(), "102");
    assert_eq!(book.best_ask().unwrap().price.to_text(), "103");
}

#[test]
fn update_level_replaces_quantity_at_equal_price_value() {
    let mut book = OrderBook::new("TEST/USDT".to_string());
    book.update_level(d("1.0"), d("5"), Side::Buy);
    book.update_level(d("1.00"), d("7"), Side::Buy);
    assert_eq!(book.bids.len(), 1);
    assert_eq!(book.bids[0].quantity.to_text(), "7");
    assert_eq!(book.bids[0].price.to_text(), "1.0");
}

#[test]
fn update_level_with_zero_quantity_removes_level() {
    let mut book = OrderBook::new("TEST/USDT".to_string());
    book.update_level(d("100"), d("5"), Side::Sell);
    book.update_level(d("101"), d("6"), Side::Sell);
    book.update_level(d("100.00"), d("0"), Side::Sell);
    assert_eq!(prices(&book, Side::Sell), vec!["101"]);
    book.update_level(d("200"), d("0"), Side::Sell);
    assert_eq!(prices(&book, Side::Sell), vec!["101"]);
    assert!(book.bids.is_empty());
}

#[test]
fn empty_book_has_no_best_levels_mid_or_spread() {
    let book = OrderBook::new("TEST/USDT".to_string());
    assert_eq!(book.symbol, "TEST/USDT");
    assert_eq!(book.timestamp, 0);
    assert!(book.best_bid().is_none());
    assert!(book.best_ask().is_none());
    assert!(book.mid_price().is_none());
    assert!(book.spread_bps().is_none());
    assert_eq!(book.depth_qty(Side::Buy, 5).to_text(), "0");
}

#[test]
fn mid_price_and_spread_of_top_of_book() {
    let mut book = OrderBook::new("TEST/USDT".to_string());
    book.update_level(d("100"), d("10"), Side::Buy);
    book.update_level(d("101"), d("10"), Side::Sell);
    let mid = book.mid_price().unwrap();
    assert_eq!(mid.to_text(), ((rd("100") + rd("101")) / rd("2")).to_string());
    assert!(mid.value_eq(&d("100.5")));
    let spread = book.spread_bps().unwrap();
    let expected = (rd("101") - rd("100")) / ((rd("100") + rd("101")) / rd("2")) * rd("10000");
    assert_eq!(spread.to_text(), expected.to_string());
    assert!(spread.value_lt(&d("100")));
    assert!(d("99").value_lt(&spread));
    assert!(book.try_mid_price().unwrap().unwrap().value_eq(&d("100.5")));
}

#[test]
fn spread_is_none_when_mid_not_positive() {
    let mut book = OrderBook::new("TEST/USDT".to_string());
    book.update_level(d("-1"), d("1"), Side::Buy);
    book.update_level(d("0.5"), d("1"), Side::Sell);
    assert!(book.spread_bps().is_none());
    assert!(matches!(book.try_spread_bps(), Some(None)));
}

#[test]
fn depth_qty_sums_top_levels_for_imbalance() {
    let mut book = OrderBook::new("TEST/USDT".to_string());
    book.update_level(d("100"), d("10"), Side::Buy);
    book.update_level(d("101"), d("5"), Side::Sell);
    assert_eq!(book.depth_qty(Side::Buy, 5).to_text(), "10");
    assert_eq!(book.depth_qty(Side::Sell, 5).to_text(), "5");
    book.update_level(d("99.5"), d("2.25"), Side::Buy);
    book.update_level(d("99"), d("1"), Side::Buy);
    assert_eq!(book.depth_qty(Side::Buy, 2).to_text(), "12.25");
    assert_eq!(book.depth_qty(Side::Buy, 10).to_text(), "13.25");
    assert_eq!(book.depth_qty(Side::Buy, 0).to_text(), "0");
}

#[test]
fn apply_level_updates_applies_in_order() {
    let mut book = OrderBook::new("X".to_string());
    let updates = vec![(d("10"), d("1")), (d("11"), d("2")), (d("10"), d("0")), (d("12"), d("3"))];
    book.apply_level_updates(&updates, Side::Buy);
    assert_eq!(prices(&book, Side::Buy), vec!["12", "11"]);
    assert!(book.asks.is_empty());
}

#[test]
fn decimal_values_compare_by_value() {
    assert!(d("1.0").value_eq(&d("1.00")));
    assert!(!d("1.0").value_eq(&d("1.01")));
    assert!(d("-2").value_lt(&d("0.5")));
    assert!(Decimal::parse("abc").is_none());
    let x = Decimal::new(12345, 3);
    assert_eq!(x.to_text(), "12.345");
    assert_eq!(x.mantissa(), 12345);
    assert_eq!(x.scale(), 3);
    assert!(Decimal::from_i128_with_scale(1, 29).is_none());
    assert!(Decimal::zero().is_zero());
    assert!(Decimal::from_u32(3).is_positive());
}

#[test]
fn decimal_text_places_the_point_scale_digits_from_the_right() {
    assert_eq!(Decimal::new(12345, 2).to_text(), "123.45");
    assert_eq!(Decimal::new(5, 3).to_text(), "0.005");
    assert_eq!(Decimal::new(0, 2).to_text(), "0.00");
    assert_eq!(Decimal::new(0, 0).to_text(), "0");
    assert_eq!(Decimal::new(-5, 0).to_text(), "-5");
    assert_eq!(Decimal::new(-120, 2).to_text(), "-1.20");
    assert_eq!(Decimal::new(100, 1).to_text(), "10.0");
}

#[test]
fn negative_zero_keeps_its_sign() {
    // Parsing normalises the sign of zero, as rust_decimal does.
    let z = Decimal::parse("-0").unwrap();
    assert!(!z.is_sign_negative());
    assert_eq!(z.to_text(), "0");
    // A zero with its sign flag set is written with the sign.
    let nz = Decimal::from_parts(0, 2, true).unwrap();
    assert!(nz.is_sign_negative());
    assert!(nz.is_zero());
    assert_eq!(nz.to_text(), "-0.00");
    assert!(nz.value_eq(&Decimal::zero()));
    assert!(!nz.value_lt(&Decimal::zero()));
    assert!(!Decimal::zero().is_sign_negative());
    assert!(Decimal::from_parts(5, 0, true).is_none());
    assert_eq!(Decimal::from_parts(-5, 0, true).unwrap().to_text(), "-5");
}

#[test]
fn well_formedness_can_be_checked() {
    let mut book = OrderBook::new("USDC/USDT".to_string());
    assert!(book.is_well_formed());
    book.update_level(d("0.9995"), d("10"), Side::Buy);
    book.update_level(d("0.9996"), d("5"), Side::Buy);
    book.update_level(d("1.0001"), d("7"), Side::Sell);
    assert!(book.is_well_formed());
    let mut bad = book.clone();
    bad.bids.reverse();
    assert!(!bad.is_well_formed());
    let mut dup = book.clone();
    dup.asks.push(dup.asks[0]);
    assert!(!dup.is_well_formed());
}
