use order_book_parser::{
    parse_order_book, Expected, OrderBookError, OrderBookParser, Rule, Span, SyntaxError,
};

fn syntax_error(input: &str) -> SyntaxError {
    match parse_order_book(input, None) {
        Err(OrderBookError::ParseError(e)) => e,
        other => panic!("no syntax error for {:?}: {:?}", input, other),
    }
}

#[test]
fn whitespace_is_skipped_around_every_token() {
    let book = parse_order_book(" \tBIDS :\n100.5 ,\r\n 2 | 99 , 1 ;  ASKS:101,3\n", None).unwrap();
    assert_eq!(book.bids.len(), 2);
    assert_eq!(book.asks.len(), 1);
    assert_eq!(book.bids[0].price.to_string(), "100.5");
    assert_eq!(book.bids[1].price.to_string(), "99");
    assert_eq!(book.asks[0].quantity.to_string(), "3");
}

#[test]
fn whitespace_inside_a_number_splits_it() {
    let e = syntax_error("BIDS:1 0,1;ASKS:");
    assert_eq!(e, SyntaxError { position: 7, expected: Expected::Comma });
}

#[test]
fn empty_sides_are_valid() {
    let book = parse_order_book("BIDS:;ASKS:", None).unwrap();
    assert!(book.bids.is_empty());
    assert!(book.asks.is_empty());
    let book = parse_order_book("BIDS:;ASKS:5,1", None).unwrap();
    assert!(book.bids.is_empty());
    assert_eq!(book.asks.len(), 1);
}

#[test]
fn side_words_are_case_sensitive() {
    assert_eq!(
        syntax_error("bids:;ASKS:"),
        SyntaxError { position: 0, expected: Expected::Bids }
    );
    assert_eq!(
        syntax_error("BIDS:;asks:"),
        SyntaxError { position: 6, expected: Expected::Asks }
    );
    assert_eq!(
        syntax_error("BID:;ASKS:"),
        SyntaxError { position: 0, expected: Expected::Bids }
    );
}

#[test]
fn sides_stand_in_fixed_order() {
    assert_eq!(
        syntax_error("ASKS:2,1;BIDS:1,1"),
        SyntaxError { position: 0, expected: Expected::Bids }
    );
}

#[test]
fn trailing_text_fails() {
    assert_eq!(
        syntax_error("BIDS:1,1;ASKS:2,1 x"),
        SyntaxError { position: 18, expected: Expected::EndOfInput }
    );
    assert_eq!(
        syntax_error("BIDS:1,1;ASKS:2,1;"),
        SyntaxError { position: 17, expected: Expected::EndOfInput }
    );
}

#[test]
fn missing_parts_of_a_level_fail() {
    assert_eq!(
        syntax_error("BIDS:1;ASKS:"),
        SyntaxError { position: 6, expected: Expected::Comma }
    );
    assert_eq!(
        syntax_error("BIDS:1,;ASKS:"),
        SyntaxError { position: 7, expected: Expected::Digit }
    );
    assert_eq!(
        syntax_error("BIDS:,1;ASKS:"),
        SyntaxError { position: 5, expected: Expected::Semicolon }
    );
    assert_eq!(
        syntax_error("BIDS:1,1|;ASKS:"),
        SyntaxError { position: 9, expected: Expected::Digit }
    );
    assert_eq!(
        syntax_error("BIDS:1,1||2,1;ASKS:"),
        SyntaxError { position: 9, expected: Expected::Digit }
    );
    assert_eq!(
        syntax_error("BIDS:1,1,1;ASKS:"),
        SyntaxError { position: 8, expected: Expected::Semicolon }
    );
}

#[test]
fn a_list_may_open_with_a_separator() {
    let book = parse_order_book("BIDS:|3,1|2,1;ASKS:", None).unwrap();
    assert_eq!(book.bids.len(), 2);
    assert_eq!(book.bids[0].price.to_string(), "3");
}

#[test]
fn numbers_have_no_sign_exponent_or_bare_point() {
    assert_eq!(
        syntax_error("BIDS:-1,1;ASKS:"),
        SyntaxError { position: 5, expected: Expected::Semicolon }
    );
    assert_eq!(
        syntax_error("BIDS:1e5,1;ASKS:"),
        SyntaxError { position: 6, expected: Expected::Comma }
    );
    assert_eq!(
        syntax_error("BIDS:1.,1;ASKS:"),
        SyntaxError { position: 6, expected: Expected::Comma }
    );
    assert_eq!(
        syntax_error("BIDS:.5,1;ASKS:"),
        SyntaxError { position: 5, expected: Expected::Semicolon }
    );
    assert_eq!(
        syntax_error("BIDS:1.2.3,1;ASKS:"),
        SyntaxError { position: 8, expected: Expected::Comma }
    );
    assert_eq!(
        syntax_error("BIDS:1,000,1;ASKS:"),
        SyntaxError { position: 10, expected: Expected::Semicolon }
    );
}

#[test]
fn bytes_beyond_ascii_fail_at_their_offset() {
    assert_eq!(
        syntax_error("BIDS:1,1;ASKS:2,1\u{e9}"),
        SyntaxError { position: 17, expected: Expected::EndOfInput }
    );
    assert_eq!(
        syntax_error("BIDS\u{a0}:1,1;ASKS:"),
        SyntaxError { position: 4, expected: Expected::Colon }
    );
}

#[test]
fn empty_input_fails_at_the_start() {
    assert_eq!(syntax_error(""), SyntaxError { position: 0, expected: Expected::Bids });
    assert_eq!(syntax_error("   "), SyntaxError { position: 3, expected: Expected::Bids });
}

#[test]
fn a_rule_matches_at_the_start_and_tells_its_end() {
    assert_eq!(OrderBookParser::parse(Rule::number, "123.456"), Ok(Span { start: 0, end: 7 }));
    assert_eq!(OrderBookParser::parse(Rule::number, "12."), Ok(Span { start: 0, end: 2 }));
    assert_eq!(OrderBookParser::parse(Rule::number, "12.x"), Ok(Span { start: 0, end: 2 }));
    assert_eq!(OrderBookParser::parse(Rule::integer, "12ab"), Ok(Span { start: 0, end: 2 }));
    assert_eq!(OrderBookParser::parse(Rule::ASCII_DIGIT, "12"), Ok(Span { start: 0, end: 1 }));
    assert_eq!(OrderBookParser::parse(Rule::WHITESPACE, "\t "), Ok(Span { start: 0, end: 1 }));
    assert_eq!(
        OrderBookParser::parse(Rule::WHITESPACE, "x"),
        Err(SyntaxError { position: 0, expected: Expected::Whitespace })
    );
    assert_eq!(OrderBookParser::parse(Rule::level, "1 , 2 |"), Ok(Span { start: 0, end: 5 }));
    assert_eq!(
        OrderBookParser::parse(Rule::level_list, "1,2 | 3,4 ;"),
        Ok(Span { start: 0, end: 9 })
    );
    assert_eq!(OrderBookParser::parse(Rule::level_list, ";"), Ok(Span { start: 0, end: 0 }));
    assert_eq!(
        OrderBookParser::parse(Rule::bids_side, "BIDS : 1,2;ASKS:"),
        Ok(Span { start: 0, end: 10 })
    );
    assert_eq!(
        OrderBookParser::parse(Rule::asks_side, "ASKS:"),
        Ok(Span { start: 0, end: 5 })
    );
    assert_eq!(
        OrderBookParser::parse(Rule::asks_identifier, "ASKS!"),
        Ok(Span { start: 0, end: 4 })
    );
}

#[test]
fn the_order_book_rule_takes_the_whole_input() {
    assert_eq!(
        OrderBookParser::parse(Rule::order_book, " BIDS:1,1;ASKS:2,1 "),
        Ok(Span { start: 0, end: 19 })
    );
    assert_eq!(
        OrderBookParser::parse(Rule::order_book, "BIDS:1,1;ASKS:2,1 BIDS"),
        Err(SyntaxError { position: 18, expected: Expected::EndOfInput })
    );
    assert_eq!(
        OrderBookParser::parse(Rule::level, " 1,2"),
        Err(SyntaxError { position: 0, expected: Expected::Digit })
    );
}

#[test]
fn parse_book_tells_where_the_numbers_stand() {
    let input = "BIDS: 10.5 , 2|9,1 ; ASKS:";
    let book = OrderBookParser::parse_book(input).unwrap();
    assert_eq!(book.bids.len(), 2);
    assert!(book.asks.is_empty());
    assert_eq!(book.bids[0].price, Span { start: 6, end: 10 });
    assert_eq!(book.bids[0].quantity, Span { start: 13, end: 14 });
    assert_eq!(&input[book.bids[1].price.start..book.bids[1].price.end], "9");
    assert_eq!(&input[book.bids[1].quantity.start..book.bids[1].quantity.end], "1");
}

#[test]
fn a_syntax_error_says_what_and_where() {
    let e = syntax_error("BIDS:1 0,1;ASKS:");
    assert_eq!(e.to_string(), "expected `,` at byte 7");
    let e = SyntaxError { position: 1204, expected: Expected::EndOfInput };
    assert_eq!(e.to_string(), "expected the end of the input at byte 1204");
    let e = SyntaxError { position: 0, expected: Expected::Digit };
    assert_eq!(e.to_string(), "expected a digit at byte 0");
    let e = SyntaxError { position: 10, expected: Expected::Bids };
    assert_eq!(e.to_string(), "expected `BIDS` at byte 10");
    let message = OrderBookError::ParseError(e).to_string();
    assert_eq!(message, "Failed to parse the input string: expected `BIDS` at byte 10");
}
