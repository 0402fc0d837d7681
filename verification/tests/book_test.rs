use order_book_parser::validate::{validate_order_params, OrderParamsError};
use order_book_parser::{
    parse_order_book, Comparison, Decimal, InstrumentConfig, Level, OrderBook, OrderBookError,
    Position, Side,
};
use std::str::FromStr;

fn dec(text: &str) -> Decimal {
    let d = rust_decimal::Decimal::from_str(text).unwrap();
    Decimal::try_new(d.mantissa(), d.scale()).unwrap()
}

fn outside(d: Decimal) -> rust_decimal::Decimal {
    rust_decimal::Decimal::from_i128_with_scale(d.mantissa, d.scale)
}

fn config(tick_size: &str, min_lot: &str, lot_step: &str) -> InstrumentConfig {
    InstrumentConfig::new(dec(tick_size), dec(min_lot), dec(lot_step))
}

fn written(levels: &[Level]) -> Vec<(String, String)> {
    levels.iter().map(|l| (l.price.to_string(), l.quantity.to_string())).collect()
}

fn pair(price: &str, quantity: &str) -> (String, String) {
    (String::from(price), String::from(quantity))
}

const MAX_TEXT: &str = "79228162514264337593543950335";

#[test]
fn decimal_parts_are_the_digits_and_the_fraction_length() {
    let book = parse_order_book("BIDS:100.0,007.50;ASKS:101,0.001", None).unwrap();
    assert_eq!((book.bids[0].price.mantissa, book.bids[0].price.scale), (1000, 1));
    assert_eq!((book.bids[0].quantity.mantissa, book.bids[0].quantity.scale), (750, 2));
    assert_eq!((book.asks[0].price.mantissa, book.asks[0].price.scale), (101, 0));
    assert_eq!((book.asks[0].quantity.mantissa, book.asks[0].quantity.scale), (1, 3));
}

#[test]
fn equal_values_differ_only_in_writing() {
    let book = parse_order_book("BIDS:100.0,1;ASKS:", None).unwrap();
    let price = book.bids[0].price;
    let hundred = Decimal::from_i64(100);
    assert!(price.eq_value(hundred));
    assert!(!price.lt(hundred));
    assert!(price.le(hundred));
    assert_eq!(price.compare(hundred), Comparison::Equal);
    assert_eq!(price.to_string(), "100.0");
    assert_eq!(hundred.to_string(), "100");
}

#[test]
fn decimals_compare_by_value_across_scales() {
    assert!(dec("99.5").lt(dec("100")));
    assert!(dec("100").lt(dec("100.01")));
    assert!(!dec("100.01").lt(dec("100")));
    assert!(dec("-1").lt(dec("0.000")));
    assert_eq!(dec("2.50").compare(dec("2.5")), Comparison::Equal);
    assert_eq!(dec("2.51").compare(dec("2.5")), Comparison::Greater);
    assert_eq!(dec("2.49").compare(dec("2.5")), Comparison::Less);
    assert!(dec("0.00").is_zero());
    assert!(!dec("0.01").is_zero());
    assert!(dec("0.01").is_positive());
    assert!(!dec("-0.01").is_positive());
    assert!(!Decimal::zero().is_positive());
}

#[test]
fn decimals_out_of_range_are_not_made() {
    let max: i128 = 79228162514264337593543950335;
    assert!(Decimal::try_new(max, 28).is_some());
    assert!(Decimal::try_new(-max, 0).is_some());
    assert!(Decimal::try_new(max + 1, 0).is_none());
    assert!(Decimal::try_new(-max - 1, 0).is_none());
    assert!(Decimal::try_new(1, 29).is_none());
    let d = Decimal::try_new(-1204, 2).unwrap();
    assert_eq!((d.mantissa, d.scale), (-1204, 2));
    assert_eq!(d.to_string(), "-12.04");
}

#[test]
fn a_number_too_long_is_a_decimal_error() {
    let fine = format!("BIDS:{},1;ASKS:", MAX_TEXT);
    let book = parse_order_book(&fine, None).unwrap();
    assert_eq!(book.bids[0].price.mantissa, 79228162514264337593543950335);
    let too_large = "BIDS:79228162514264337593543950336,1;ASKS:";
    assert!(matches!(parse_order_book(too_large, None), Err(OrderBookError::DecimalError(_))));
    let finest = "BIDS:0.0000000000000000000000000001,1;ASKS:";
    let book = parse_order_book(finest, None).unwrap();
    assert_eq!((book.bids[0].price.mantissa, book.bids[0].price.scale), (1, 28));
    let too_fine = "BIDS:1,1;ASKS:2,0.00000000000000000000000000000";
    let result = parse_order_book(too_fine, None);
    assert!(matches!(result, Err(OrderBookError::DecimalError(_))));
    assert!(result.unwrap_err().to_string().starts_with("Failed to parse number: "));
    let leading_zeros = "BIDS:0000000000000000000000000000000000000012.5,1;ASKS:";
    let book = parse_order_book(leading_zeros, None).unwrap();
    assert_eq!((book.bids[0].price.mantissa, book.bids[0].price.scale), (125, 1));
}

#[test]
fn a_decimal_error_comes_before_any_fault_of_the_book() {
    let input = "BIDS:1,1|2,1;ASKS:0.5,0.00000000000000000000000000000";
    assert!(matches!(parse_order_book(input, None), Err(OrderBookError::DecimalError(_))));
}

#[test]
fn ordered_input_gives_its_levels_in_order() {
    let book = parse_order_book("BIDS:10,1|9.5,2|9,3;ASKS:10.5,4|11,5", None).unwrap();
    assert_eq!(written(&book.bids), vec![pair("10", "1"), pair("9.5", "2"), pair("9", "3")]);
    assert_eq!(written(&book.asks), vec![pair("10.5", "4"), pair("11", "5")]);
}

#[test]
fn a_duplicate_names_the_first_of_the_pair() {
    match parse_order_book("BIDS:100,1|100.0,5;ASKS:110.0,1", None) {
        Err(OrderBookError::DuplicatePrice(p)) => assert_eq!(p.to_string(), "100"),
        other => panic!("{:?}", other),
    }
    match parse_order_book("BIDS:1,1;ASKS:5.0,1|5,1", None) {
        Err(OrderBookError::DuplicatePrice(p)) => assert_eq!(p.to_string(), "5.0"),
        other => panic!("{:?}", other),
    }
    let error = parse_order_book("BIDS:7,1|7,1;ASKS:", None).unwrap_err();
    assert_eq!(error.to_string(), "Duplicate price level found: 7");
}

#[test]
fn disorder_names_the_later_level() {
    match parse_order_book("BIDS:100.0,1|101.0,1;ASKS:110.0,1", None) {
        Err(OrderBookError::BidsUnsorted(p)) => assert_eq!(p.to_string(), "101.0"),
        other => panic!("{:?}", other),
    }
    match parse_order_book("BIDS:100.0,1;ASKS:110.0,1|109.0,1", None) {
        Err(OrderBookError::AsksUnsorted(p)) => assert_eq!(p.to_string(), "109.0"),
        other => panic!("{:?}", other),
    }
    let error = parse_order_book("BIDS:1,1|2,1;ASKS:", None).unwrap_err();
    assert_eq!(
        error.to_string(),
        "Bids must be sorted descending (highest first). Found issue at price 2"
    );
    let error = parse_order_book("BIDS:;ASKS:2,1|1,1", None).unwrap_err();
    assert_eq!(
        error.to_string(),
        "Asks must be sorted ascending (lowest first). Found issue at price 1"
    );
}

#[test]
fn the_first_fault_is_the_one_reported() {
    let result = parse_order_book("BIDS:5,1|6,1|6,1;ASKS:9,1", None);
    assert!(matches!(result, Err(OrderBookError::BidsUnsorted(_))));
    let result = parse_order_book("BIDS:6,1|6,1|7,1;ASKS:9,1", None);
    assert!(matches!(result, Err(OrderBookError::DuplicatePrice(_))));
    let result = parse_order_book("BIDS:5,1|6,1;ASKS:9,1|9,1", None);
    assert!(matches!(result, Err(OrderBookError::BidsUnsorted(_))));
    let result = parse_order_book("BIDS:9,1|8,1;ASKS:7,1|7,1", None);
    assert!(matches!(result, Err(OrderBookError::DuplicatePrice(_))));
    let result = parse_order_book("BIDS:9,1|8,1;ASKS:7,1|6,1", None);
    assert!(matches!(result, Err(OrderBookError::AsksUnsorted(_))));
}

#[test]
fn a_crossed_book_names_both_prices() {
    match parse_order_book("BIDS:105.0,10;ASKS:105.0,20", None) {
        Err(OrderBookError::CrossedBook(bid, ask)) => {
            assert_eq!(bid.to_string(), "105.0");
            assert_eq!(ask.to_string(), "105.0");
        }
        other => panic!("{:?}", other),
    }
    let error = parse_order_book("BIDS:106,10|1,1;ASKS:105.5,20", None).unwrap_err();
    assert_eq!(
        error.to_string(),
        "Crossed book detected: Best Bid (106) is >= Best Ask (105.5)"
    );
    assert!(parse_order_book("BIDS:105,10;ASKS:105.0001,20", None).is_ok());
    assert!(parse_order_book("BIDS:105,10;ASKS:", None).is_ok());
}

#[test]
fn instrument_rules_are_held_in_order() {
    let rules = config("0.5", "10", "5");
    match parse_order_book("BIDS:100.3,10;ASKS:102.0,20", Some(&rules)) {
        Err(OrderBookError::InvalidTickSize(price, tick)) => {
            assert_eq!(price.to_string(), "100.3");
            assert_eq!(tick.to_string(), "0.5");
        }
        other => panic!("{:?}", other),
    }
    match parse_order_book("BIDS:100.0,2;ASKS:102.0,20", Some(&rules)) {
        Err(OrderBookError::InvalidMinLot(quantity, lot)) => {
            assert_eq!(quantity.to_string(), "2");
            assert_eq!(lot.to_string(), "10");
        }
        other => panic!("{:?}", other),
    }
    match parse_order_book("BIDS:100.0,12;ASKS:102.0,20", Some(&rules)) {
        Err(OrderBookError::InvalidLotStep(quantity, step)) => {
            assert_eq!(quantity.to_string(), "12");
            assert_eq!(step.to_string(), "5");
        }
        other => panic!("{:?}", other),
    }
    let result = parse_order_book("BIDS:100.3,2;ASKS:102.0,20", Some(&rules));
    assert!(matches!(result, Err(OrderBookError::InvalidTickSize(_, _))));
    let result = parse_order_book("BIDS:100.5,3;ASKS:102.0,20", Some(&rules));
    assert!(matches!(result, Err(OrderBookError::InvalidMinLot(_, _))));
    let result = parse_order_book("BIDS:100,12;ASKS:102.3,20", Some(&rules));
    assert!(matches!(result, Err(OrderBookError::InvalidLotStep(_, _))));
    let result = parse_order_book("BIDS:100,10|99.5,15;ASKS:102.3,2", Some(&rules));
    assert!(matches!(result, Err(OrderBookError::InvalidTickSize(_, _))));
    let result = parse_order_book("BIDS:100,10|99.7,15;ASKS:102.3,2", Some(&rules));
    match result {
        Err(OrderBookError::InvalidTickSize(price, _)) => assert_eq!(price.to_string(), "99.7"),
        other => panic!("{:?}", other),
    }
}

#[test]
fn instrument_errors_say_what_is_wrong() {
    let rules = config("0.5", "10", "5");
    let error = parse_order_book("BIDS:100.3,10;ASKS:", Some(&rules)).unwrap_err();
    assert_eq!(error.to_string(), "Price 100.3 is not a multiple of tick size 0.5");
    let error = parse_order_book("BIDS:100,2;ASKS:", Some(&rules)).unwrap_err();
    assert_eq!(error.to_string(), "Quantity 2 is less than minimum lot size 10");
    let error = parse_order_book("BIDS:100,12;ASKS:", Some(&rules)).unwrap_err();
    assert_eq!(error.to_string(), "Quantity 12 is not a multiple of lot step 5");
}

#[test]
fn the_structure_is_checked_before_the_instrument() {
    let rules = config("0.5", "10", "5");
    let result = parse_order_book("BIDS:100.3,10|100.3,10;ASKS:", Some(&rules));
    assert!(matches!(result, Err(OrderBookError::DuplicatePrice(_))));
    let result = parse_order_book("BIDS:100.3,1;ASKS:100.3,1", Some(&rules));
    assert!(matches!(result, Err(OrderBookError::CrossedBook(_, _))));
}

#[test]
fn returned_levels_conform_to_the_instrument() {
    let rules = config("0.25", "2", "0.5");
    let book =
        parse_order_book("BIDS:10.25,2|10,2.5|9.75,300;ASKS:10.5,3|11,3.5", Some(&rules)).unwrap();
    let tick = outside(rules.tick_size);
    let lot = outside(rules.min_lot);
    let step = outside(rules.lot_step);
    for level in book.bids.iter().chain(book.asks.iter()) {
        assert!((outside(level.price) % tick).is_zero());
        assert!(outside(level.quantity) >= lot);
        assert!((outside(level.quantity) % step).is_zero());
    }
}

#[test]
fn a_step_of_zero_sets_no_rule() {
    let no_tick = config("0", "1", "1");
    assert!(parse_order_book("BIDS:100.37,10;ASKS:", Some(&no_tick)).is_ok());
    let result = parse_order_book("BIDS:100.37,10.5;ASKS:", Some(&no_tick));
    assert!(matches!(result, Err(OrderBookError::InvalidLotStep(_, _))));
    let no_step = config("1", "1", "0.0");
    assert!(parse_order_book("BIDS:100,10.37;ASKS:", Some(&no_step)).is_ok());
    let result = parse_order_book("BIDS:100.5,10.37;ASKS:", Some(&no_step));
    assert!(matches!(result, Err(OrderBookError::InvalidTickSize(_, _))));
    let nothing = config("0", "0", "0");
    assert!(parse_order_book("BIDS:3.14,0|2.71,0.001;ASKS:4,1", Some(&nothing)).is_ok());
    assert!(validate_order_params(dec("12.5"), &no_step).is_ok());
}

#[test]
fn multiples_go_by_the_remainder_of_rust_decimal() {
    let cases = [
        ("79228162514264337593543950335", "0.0000000000000000000000000003"),
        ("1000000000000000000000", "0.0000000000000000000000000007"),
        ("7922816251426433759354395033", "0.00000000000000000007"),
        ("79228162514264337593543950335", "7.0000000000000000000000000001"),
        ("100.5", "0.25"),
        ("100.5", "0.20"),
    ];
    for (price, tick) in cases {
        let rules = config(tick, "0", "0");
        let input = format!("BIDS:{},1;ASKS:", price);
        let rest = rust_decimal::Decimal::from_str(price)
            .unwrap()
            .checked_rem(rust_decimal::Decimal::from_str(tick).unwrap());
        let result = parse_order_book(&input, Some(&rules));
        match rest {
            Some(rest) if rest.is_zero() => assert!(result.is_ok()),
            _ => assert!(matches!(result, Err(OrderBookError::InvalidTickSize(_, _)))),
        }
    }
    let rules = config("0.0000000000000000000000000007", "0", "0");
    let result = parse_order_book("BIDS:1000000000000000000000,1;ASKS:", Some(&rules));
    assert!(matches!(result, Err(OrderBookError::InvalidTickSize(_, _))));
    let rules = config("0.0000000000000000000000000001", "0", "0");
    let input = format!("BIDS:{},1;ASKS:", MAX_TEXT);
    assert!(parse_order_book(&input, Some(&rules)).is_ok());
}

#[test]
fn an_order_for_nothing_or_less_fails_and_changes_nothing() {
    let mut book = parse_order_book("BIDS:99,10;ASKS:101,10", None).unwrap();
    match book.execute_market_order(Side::Buy, Decimal::zero()) {
        Err(OrderBookError::NotEnoughLiquidity(asked, found)) => {
            assert!(asked.is_zero());
            assert_eq!(found.to_string(), "0");
        }
        other => panic!("{:?}", other),
    }
    let error = book.execute_market_order(Side::Sell, dec("-2.5")).unwrap_err();
    assert_eq!(
        error.to_string(),
        "Not enough liquidity to fill order. Requested: -2.5, Available: 0"
    );
    assert_eq!(written(&book.bids), vec![pair("99", "10")]);
    assert_eq!(written(&book.asks), vec![pair("101", "10")]);
}

#[test]
fn an_order_against_an_empty_side_fails_and_changes_nothing() {
    let mut book = parse_order_book("BIDS:99,10;ASKS:", None).unwrap();
    let result = book.execute_market_order(Side::Buy, dec("5"));
    assert!(matches!(result, Err(OrderBookError::NotEnoughLiquidity(_, _))));
    assert_eq!(written(&book.bids), vec![pair("99", "10")]);
    assert!(book.asks.is_empty());
}

#[test]
fn levels_without_quantity_fill_nothing_and_stay() {
    let mut book = parse_order_book("BIDS:;ASKS:101,0|102,0.0", None).unwrap();
    let result = book.execute_market_order(Side::Buy, dec("5"));
    assert!(matches!(result, Err(OrderBookError::NotEnoughLiquidity(_, _))));
    assert_eq!(written(&book.asks), vec![pair("101", "0"), pair("102", "0.0")]);
}

#[test]
fn a_sell_takes_the_bids_from_the_best_down() {
    let mut book = parse_order_book("BIDS:99,10|98,10|97,10;ASKS:101,10", None).unwrap();
    let position = book.execute_market_order(Side::Sell, dec("25")).unwrap();
    assert_eq!(position.side, Side::Sell);
    assert_eq!(position.quantity.to_string(), "25");
    let cost = rust_decimal::Decimal::from(99 * 10 + 98 * 10 + 97 * 5);
    let entry = cost / rust_decimal::Decimal::from(25);
    assert_eq!(outside(position.entry_price), entry);
    assert_eq!(written(&book.bids), vec![pair("97", "5")]);
    assert_eq!(written(&book.asks), vec![pair("101", "10")]);
}

#[test]
fn a_level_of_just_the_size_asked_for_leaves_the_book() {
    let mut book = parse_order_book("BIDS:;ASKS:101,10|102,10", None).unwrap();
    let position = book.execute_market_order(Side::Buy, dec("10.0")).unwrap();
    assert!(position.quantity.eq_value(dec("10")));
    assert!(position.entry_price.eq_value(dec("101")));
    assert_eq!(written(&book.asks), vec![pair("102", "10")]);
}

#[test]
fn the_entry_price_is_cost_over_quantity() {
    let mut book = parse_order_book("BIDS:;ASKS:10.5,3|11.25,4|12,100", None).unwrap();
    let position = book.execute_market_order(Side::Buy, dec("9.5")).unwrap();
    let cost = rust_decimal::Decimal::from_str("10.5").unwrap()
        * rust_decimal::Decimal::from(3)
        + rust_decimal::Decimal::from_str("11.25").unwrap() * rust_decimal::Decimal::from(4)
        + rust_decimal::Decimal::from(12) * rust_decimal::Decimal::from_str("2.5").unwrap();
    let filled = rust_decimal::Decimal::from_str("9.5").unwrap();
    assert_eq!(outside(position.quantity), filled);
    assert_eq!(outside(position.entry_price), cost / filled);
    assert_eq!(written(&book.asks), vec![pair("12", "97.5")]);
}

#[test]
fn no_more_is_filled_than_asked_for() {
    for asked in ["0.5", "3", "3.5", "7", "106.9", "107", "107.1", "5000"] {
        let mut book = parse_order_book("BIDS:;ASKS:10.5,3|11.25,4|12,100", None).unwrap();
        let position = book.execute_market_order(Side::Buy, dec(asked)).unwrap();
        assert!(position.quantity.le(dec(asked)));
        assert!(position.quantity.is_positive());
    }
}

#[test]
fn a_partial_fill_empties_the_side() {
    let mut book = parse_order_book("BIDS:100.0,10;ASKS:101.0,5", None).unwrap();
    let position = book.execute_market_order(Side::Buy, dec("10")).unwrap();
    assert_eq!(position.quantity.to_string(), "5");
    assert!(book.asks.is_empty());
    assert!(position.calculate_pnl(&book).is_some());
    let result = book.execute_market_order(Side::Buy, dec("10"));
    assert!(matches!(result, Err(OrderBookError::NotEnoughLiquidity(_, _))));
}

#[test]
fn a_book_stays_ordered_after_an_order() {
    let mut book = parse_order_book("BIDS:99,10|98,10;ASKS:101,10|102,10|103,1", None).unwrap();
    book.execute_market_order(Side::Buy, dec("12")).unwrap();
    assert!(order_book_parser::validate::validate_book_logic(&book).is_ok());
    book.execute_market_order(Side::Sell, dec("10")).unwrap();
    assert!(order_book_parser::validate::validate_book_logic(&book).is_ok());
    assert_eq!(written(&book.bids), vec![pair("98", "10")]);
    assert_eq!(written(&book.asks), vec![pair("102", "8"), pair("103", "1")]);
}

#[test]
fn an_order_that_cannot_be_computed_is_found_and_changes_nothing() {
    let input = format!("BIDS:;ASKS:{},{}", MAX_TEXT, MAX_TEXT);
    let mut book = parse_order_book(&input, None).unwrap();
    let all = dec(MAX_TEXT);
    assert!(!book.can_execute(Side::Buy, all));
    assert!(book.try_execute_market_order(Side::Buy, all).is_none());
    assert_eq!(written(&book.asks), vec![pair(MAX_TEXT, MAX_TEXT)]);
    assert!(book.can_execute(Side::Sell, all));
    assert!(matches!(
        book.try_execute_market_order(Side::Sell, all),
        Some(Err(OrderBookError::NotEnoughLiquidity(_, _)))
    ));
    assert!(book.can_execute(Side::Buy, Decimal::zero()));
}

#[test]
fn an_order_that_can_be_computed_is_executed() {
    let mut book = parse_order_book("BIDS:99.0,10;ASKS:101.0,10|102.0,10", None).unwrap();
    assert!(book.can_execute(Side::Buy, dec("15")));
    let position = book.try_execute_market_order(Side::Buy, dec("15")).unwrap().unwrap();
    assert_eq!(position.quantity.to_string(), "15");
    assert_eq!(written(&book.asks), vec![pair("102.0", "5")]);
}

#[test]
fn profit_is_marked_against_the_side_to_close_on() {
    let book = parse_order_book("BIDS:99,10;ASKS:101,10", None).unwrap();
    let long = Position { side: Side::Buy, quantity: dec("4"), entry_price: dec("100.5") };
    assert_eq!(long.calculate_pnl(&book).unwrap().to_string(), "-6.0");
    let short = Position { side: Side::Sell, quantity: dec("4"), entry_price: dec("100.5") };
    assert_eq!(short.calculate_pnl(&book).unwrap().to_string(), "-2.0");
    let short = Position { side: Side::Sell, quantity: dec("2"), entry_price: dec("103") };
    assert_eq!(short.calculate_pnl(&book).unwrap().to_string(), "4");
    assert_eq!(short.try_calculate_pnl(&book).unwrap().unwrap().to_string(), "4");
}

#[test]
fn there_is_no_profit_without_a_price_to_close_at() {
    let book = parse_order_book("BIDS:;ASKS:101,10", None).unwrap();
    let long = Position { side: Side::Buy, quantity: dec("4"), entry_price: dec("100.5") };
    assert!(long.calculate_pnl(&book).is_none());
    assert!(matches!(long.try_calculate_pnl(&book), Some(None)));
    let book = parse_order_book("BIDS:99,1;ASKS:", None).unwrap();
    let short = Position { side: Side::Sell, quantity: dec("4"), entry_price: dec("100.5") };
    assert!(short.calculate_pnl(&book).is_none());
}

#[test]
fn a_profit_that_cannot_be_computed_is_found() {
    let input = format!("BIDS:{},1;ASKS:", MAX_TEXT);
    let book = parse_order_book(&input, None).unwrap();
    let long = Position { side: Side::Buy, quantity: dec("10"), entry_price: dec("1") };
    assert!(long.try_calculate_pnl(&book).is_none());
    let long = Position { side: Side::Buy, quantity: dec("1"), entry_price: dec("-1") };
    assert!(long.try_calculate_pnl(&book).is_none());
}

#[test]
fn a_summary_shows_three_levels_of_each_side() {
    let book = parse_order_book("BIDS:9,1|8,2|7,3|6,4;ASKS:10,5|11,6", None).unwrap();
    assert_eq!(written(&book.top_bids()), vec![pair("9", "1"), pair("8", "2"), pair("7", "3")]);
    assert_eq!(written(&book.top_asks()), vec![pair("10", "5"), pair("11", "6")]);
    let empty = OrderBook::default();
    assert!(empty.top_bids().is_empty());
    assert!(empty.top_asks().is_empty());
    assert!(empty.bids.is_empty() && empty.asks.is_empty());
}

#[test]
fn the_quantity_of_an_order_is_held_against_the_lot_rules() {
    let rules = config("0.5", "10", "5");
    assert!(validate_order_params(dec("15"), &rules).is_ok());
    assert!(validate_order_params(dec("10.0"), &rules).is_ok());
    match validate_order_params(dec("5"), &rules) {
        Err(e @ OrderParamsError::BelowMinLot(_, _)) => {
            assert_eq!(e.to_string(), "Order amount 5 is less than minimum lot 10")
        }
        other => panic!("{:?}", other),
    }
    match validate_order_params(dec("12"), &rules) {
        Err(e @ OrderParamsError::OffLotStep(_, _)) => {
            assert_eq!(e.to_string(), "Order amount 12 must be a multiple of lot step 5")
        }
        other => panic!("{:?}", other),
    }
    assert!(matches!(
        validate_order_params(dec("3"), &rules),
        Err(OrderParamsError::BelowMinLot(_, _))
    ));
}

#[test]
fn a_missing_section_says_which() {
    let error = OrderBookError::MissingSection(String::from("Missing price"));
    assert_eq!(error.to_string(), "Missing required section: Missing price");
}

#[test]
fn long_numbers_are_read_digit_for_digit() {
    let input = "BIDS:123456789012345678.1234567890,000000000000000000001;ASKS:";
    let book = parse_order_book(input, None).unwrap();
    assert_eq!(book.bids[0].price.mantissa, 1234567890123456781234567890);
    assert_eq!(book.bids[0].price.scale, 10);
    assert_eq!((book.bids[0].quantity.mantissa, book.bids[0].quantity.scale), (1, 0));
    let input = "BIDS:7.9228162514264337593543950335,0.0;ASKS:";
    let book = parse_order_book(input, None).unwrap();
    assert_eq!(book.bids[0].price.mantissa, 79228162514264337593543950335);
    assert_eq!(book.bids[0].price.scale, 28);
    assert_eq!((book.bids[0].quantity.mantissa, book.bids[0].quantity.scale), (0, 1));
    let input = "BIDS:7.9228162514264337593543950336,1;ASKS:";
    assert!(matches!(parse_order_book(input, None), Err(OrderBookError::DecimalError(_))));
    let input = "BIDS:79228162514264337593543950335.0,1;ASKS:";
    assert!(matches!(parse_order_book(input, None), Err(OrderBookError::DecimalError(_))));
    let input = "BIDS:0,1;ASKS:1.00000000000000000000000000000,1";
    assert!(matches!(parse_order_book(input, None), Err(OrderBookError::DecimalError(_))));
}

#[test]
fn values_far_apart_in_scale_compare_by_value() {
    let largest = dec(MAX_TEXT);
    let finest = Decimal::try_new(1, 28).unwrap();
    assert!(finest.lt(largest));
    assert!(!largest.lt(finest));
    assert!(!largest.eq_value(finest));
    assert!(Decimal::try_new(-1, 28).unwrap().lt(finest));
    let one = Decimal::try_new(10000000000000000000000000000, 28).unwrap();
    assert!(one.eq_value(Decimal::from_i64(1)));
    assert!(Decimal::try_new(0, 28).unwrap().eq_value(Decimal::zero()));
    assert_eq!(one.to_string(), "1.0000000000000000000000000000");
}

#[test]
fn sums_that_round_can_fill_more_than_asked() {
    let asked = "79228162514264337593543950334";
    let input = format!("BIDS:;ASKS:0.1,0.4|0.2,0.4|0.3,{}", asked);
    let mut book = parse_order_book(&input, None).unwrap();
    let position = book.try_execute_market_order(Side::Buy, dec(asked)).unwrap().unwrap();
    assert_eq!(position.quantity.to_string(), MAX_TEXT);
    assert!(dec(asked).lt(position.quantity));
    assert!(book.asks.is_empty());
}
