//! From text to a checked order book: the grammar finds the numbers, each number
//! becomes an exact decimal, and the book that they make is checked for its
//! structure and, where an instrument is given, for the instrument's rules. The
//! first failure on that way is the answer.

use crate::book::{levels_wf, InstrumentConfig, Level, OrderBook};
use crate::decimal::{decimal_of_text, lemma_decimal_of_text_wf, parse_exact};
use crate::error::OrderBookError;
use crate::grammar::{
    is_level_in, lemma_number_is_decimal_text, levels_in, scan_order_book, LevelSyntax,
    OrderBookParser, SyntaxError,
};
use crate::language::{is_order_book, lemma_recognizer_accepts_the_language};
use crate::validate::{
    conforms, crossed, follows, instrument_error, lemma_breach_at, lemma_fault_at,
    lemma_instrument_error_of_both, lemma_levels_error_from, lemma_no_fault_iff_ordered,
    lemma_structural_error_iff, level_error, ordered, structural_error, validate_book_logic,
    validate_instrument_rules, validated,
};
use vstd::prelude::*;
use vstd::slice::slice_subrange;
use vstd::string::StringSliceAdditionalSpecFns;

verus! {

/// The level that the two numbers of `syntax` write in `s`, if both can be held.
pub open spec fn level_of(s: Seq<u8>, syntax: LevelSyntax) -> Option<Level> {
    match (decimal_of_text(syntax.price.text(s)), decimal_of_text(syntax.quantity.text(s))) {
        (Some(price), Some(quantity)) => Some(Level { price, quantity }),
        _ => None,
    }
}

/// The levels that `syntax` writes in `s`, in the same order, if every number of
/// them can be held.
pub open spec fn levels_of(s: Seq<u8>, syntax: Seq<LevelSyntax>) -> Option<Seq<Level>> {
    if forall|k: int| 0 <= k < syntax.len() ==> level_of(s, #[trigger] syntax[k]) is Some {
        Some(Seq::new(syntax.len(), |k: int| level_of(s, syntax[k]).unwrap()))
    } else {
        None
    }
}

/// The first fault of a book: that of its structure, else that against the rules
/// of the instrument, where one is given.
pub open spec fn book_error(bids: Seq<Level>, asks: Seq<Level>, config: Option<InstrumentConfig>)
    -> Option<OrderBookError> {
    if structural_error(bids, asks) is Some {
        structural_error(bids, asks)
    } else {
        match config {
            Some(c) => instrument_error(bids, asks, c),
            None => None,
        }
    }
}

/// What parsing makes of a text.
pub enum Outcome {
    /// The text does not match the grammar.
    NoMatch(SyntaxError),
    /// The text matches, and one of its numbers cannot be held as a decimal.
    NoDecimal,
    /// The book that the text writes has this fault.
    Fault(OrderBookError),
    /// The book with these bids and these asks.
    Book(Seq<Level>, Seq<Level>),
}

/// The bids and the asks that `s` writes, in the order in which it has them, where
/// it matches the grammar and each of its numbers can be held.
pub open spec fn input_levels(s: Seq<u8>) -> Option<(Seq<Level>, Seq<Level>)> {
    match scan_order_book(s) {
        Err(_) => None,
        Ok((bids_syntax, asks_syntax)) => match (
            levels_of(s, bids_syntax),
            levels_of(s, asks_syntax),
        ) {
            (Some(bids), Some(asks)) => Some((bids, asks)),
            _ => None,
        },
    }
}

/// What parsing makes of the text `s`: the syntax error where the grammar does not
/// match, else the lack of a decimal, else the first fault of the book, else the
/// book.
pub open spec fn parse_outcome(s: Seq<u8>, config: Option<InstrumentConfig>) -> Outcome {
    match scan_order_book(s) {
        Err(e) => Outcome::NoMatch(e),
        Ok(_) => match input_levels(s) {
            None => Outcome::NoDecimal,
            Some((bids, asks)) => match book_error(bids, asks, config) {
                Some(e) => Outcome::Fault(e),
                None => Outcome::Book(bids, asks),
            },
        },
    }
}

/// The answer `r` of the parser is `outcome`.
pub open spec fn is_outcome(r: Result<OrderBook, OrderBookError>, outcome: Outcome) -> bool {
    match outcome {
        Outcome::NoMatch(e) => r matches Err(OrderBookError::ParseError(x)) && x == e,
        Outcome::NoDecimal => r matches Err(OrderBookError::DecimalError(_)),
        Outcome::Fault(e) => r matches Err(x) && x == e,
        Outcome::Book(bids, asks) => r matches Ok(book) && book.bids@ == bids && book.asks@
            == asks,
    }
}

/// The fault of a book is an error of its structure or against the instrument.
pub proof fn lemma_book_error_is_fault(
    bids: Seq<Level>,
    asks: Seq<Level>,
    config: Option<InstrumentConfig>,
)
    ensures
        book_error(bids, asks, config) matches Some(e) ==> e.is_fault(),
{
    if let Some(c) = config {
        lemma_levels_error_from(bids, c, 0);
        lemma_levels_error_from(asks, c, 0);
    }
}

/// Parsing fails with a syntax error exactly on the texts that are no order book
/// of the language, and the fault of a book that it reads is one of the book's
/// structure or against the instrument.
pub proof fn lemma_syntax_error_iff_not_in_language(s: Seq<u8>, config: Option<InstrumentConfig>)
    ensures
        parse_outcome(s, config) is NoMatch <==> !is_order_book(s),
        parse_outcome(s, config) matches Outcome::Fault(e) ==> e.is_fault(),
{
    lemma_recognizer_accepts_the_language(s);
    if let Some((bids, asks)) = input_levels(s) {
        lemma_book_error_is_fault(bids, asks, config);
    }
}

/// A text whose bids fall strictly, whose asks rise strictly and whose best bid is
/// below its best ask parses, without an instrument, to the book of its levels in
/// the order in which the text has them.
pub proof fn lemma_ordered_input_parses(s: Seq<u8>, bids: Seq<Level>, asks: Seq<Level>)
    requires
        input_levels(s) == Some((bids, asks)),
        ordered(true, bids),
        ordered(false, asks),
        bids.len() > 0 && asks.len() > 0 ==> bids[0].price.value_lt(asks[0].price),
    ensures
        parse_outcome(s, None) == Outcome::Book(bids, asks),
{
    lemma_structural_error_iff(bids, asks);
}

/// A text whose book is not validated does not parse: whatever the instrument,
/// parsing fails with the first fault of the book's structure.
pub proof fn lemma_disordered_input_fails(
    s: Seq<u8>,
    config: Option<InstrumentConfig>,
    bids: Seq<Level>,
    asks: Seq<Level>,
)
    requires
        input_levels(s) == Some((bids, asks)),
        !validated(bids, asks),
    ensures
        structural_error(bids, asks) matches Some(e) && parse_outcome(s, config)
            == Outcome::Fault(e),
{
    lemma_structural_error_iff(bids, asks);
}

/// Two neighbours of one side with equal prices make parsing fail with
/// `DuplicatePrice` of the first one's price, where no fault stands before them:
/// the levels of the side up to the second one are ordered and, for a pair of asks,
/// so are all the bids.
pub proof fn lemma_duplicate_price_is_reported(
    s: Seq<u8>,
    config: Option<InstrumentConfig>,
    bids: Seq<Level>,
    asks: Seq<Level>,
    among_bids: bool,
    at: int,
)
    requires
        input_levels(s) == Some((bids, asks)),
        !among_bids ==> ordered(true, bids),
        ({
            let side = if among_bids {
                bids
            } else {
                asks
            };
            &&& 0 < at < side.len()
            &&& ordered(among_bids, side.take(at))
            &&& side[at - 1].price.value_eq(side[at].price)
        }),
    ensures
        parse_outcome(s, config) == Outcome::Fault(
            OrderBookError::DuplicatePrice(
                if among_bids {
                    bids[at - 1].price
                } else {
                    asks[at - 1].price
                },
            ),
        ),
{
    if among_bids {
        lemma_fault_at(true, bids, at);
    } else {
        lemma_no_fault_iff_ordered(true, bids);
        lemma_fault_at(false, asks, at);
    }
}

/// A bid that is above the bid before it, or an ask that is below the ask before
/// it, makes parsing fail with `BidsUnsorted` or `AsksUnsorted` of its price, where
/// no fault stands before it: the levels of the side before it are ordered and, for
/// an ask, so are all the bids.
pub proof fn lemma_disorder_is_reported(
    s: Seq<u8>,
    config: Option<InstrumentConfig>,
    bids: Seq<Level>,
    asks: Seq<Level>,
    among_bids: bool,
    at: int,
)
    requires
        input_levels(s) == Some((bids, asks)),
        !among_bids ==> ordered(true, bids),
        ({
            let side = if among_bids {
                bids
            } else {
                asks
            };
            &&& 0 < at < side.len()
            &&& ordered(among_bids, side.take(at))
            &&& follows(!among_bids, side[at - 1].price, side[at].price)
        }),
    ensures
        parse_outcome(s, config) == Outcome::Fault(
            if among_bids {
                OrderBookError::BidsUnsorted(bids[at].price)
            } else {
                OrderBookError::AsksUnsorted(asks[at].price)
            },
        ),
{
    if among_bids {
        lemma_fault_at(true, bids, at);
    } else {
        lemma_no_fault_iff_ordered(true, bids);
        lemma_fault_at(false, asks, at);
    }
}

/// A best bid that is not below the best ask makes parsing fail with `CrossedBook`
/// of the two prices, where both sides are ordered.
pub proof fn lemma_crossed_book_is_reported(
    s: Seq<u8>,
    config: Option<InstrumentConfig>,
    bids: Seq<Level>,
    asks: Seq<Level>,
)
    requires
        input_levels(s) == Some((bids, asks)),
        ordered(true, bids),
        ordered(false, asks),
        crossed(bids, asks),
    ensures
        parse_outcome(s, config) == Outcome::Fault(
            OrderBookError::CrossedBook(bids[0].price, asks[0].price),
        ),
{
    lemma_no_fault_iff_ordered(true, bids);
    lemma_no_fault_iff_ordered(false, asks);
}

/// Every book that parsing returns is validated, and with an instrument every
/// level of it conforms to the instrument: its price is a multiple of the tick
/// size, its quantity is at least the minimum lot and a multiple of the lot step.
pub proof fn lemma_returned_book_is_checked(
    s: Seq<u8>,
    config: Option<InstrumentConfig>,
    bids: Seq<Level>,
    asks: Seq<Level>,
)
    requires
        parse_outcome(s, config) == Outcome::Book(bids, asks),
    ensures
        validated(bids, asks),
        config matches Some(c) ==> {
            &&& forall|k: int| 0 <= k < bids.len() ==> conforms(#[trigger] bids[k], c)
            &&& forall|k: int| 0 <= k < asks.len() ==> conforms(#[trigger] asks[k], c)
        },
{
    lemma_structural_error_iff(bids, asks);
    if let Some(c) = config {
        lemma_levels_error_from(bids, c, 0);
        lemma_levels_error_from(asks, c, 0);
    }
}

/// The first level of a validated book that breaks a rule of the instrument, the
/// bids taken before the asks, makes parsing fail with the error of the first rule
/// that it breaks, which names the price or quantity at fault.
pub proof fn lemma_breach_is_reported(
    s: Seq<u8>,
    config: InstrumentConfig,
    bids: Seq<Level>,
    asks: Seq<Level>,
    at: int,
)
    requires
        input_levels(s) == Some((bids, asks)),
        validated(bids, asks),
        0 <= at < bids.len() + asks.len(),
        forall|k: int| 0 <= k < at ==> conforms(#[trigger] (bids + asks)[k], config),
        !conforms((bids + asks)[at], config),
    ensures
        level_error((bids + asks)[at], config) matches Some(e) && parse_outcome(s, Some(config))
            == Outcome::Fault(e),
{
    lemma_structural_error_iff(bids, asks);
    lemma_instrument_error_of_both(bids, asks, config);
    lemma_breach_at(bids + asks, config, at);
}

/// The answer `r` of the extractor is the levels `levels`.
pub open spec fn same_levels(r: Result<Vec<Level>, OrderBookError>, levels: Option<Seq<Level>>)
    -> bool {
    match (r, levels) {
        (Ok(found), Some(l)) => found@ == l,
        (Err(OrderBookError::DecimalError(_)), None) => true,
        _ => false,
    }
}

/// The instrument behind the reference, if there is one.
pub open spec fn config_of(config: Option<&InstrumentConfig>) -> Option<InstrumentConfig> {
    match config {
        Some(c) => Some(*c),
        None => None,
    }
}

/// Turns the numbers of each level into decimals.
pub fn parse_levels(s: &[u8], syntax: &Vec<LevelSyntax>) -> (r: Result<Vec<Level>, OrderBookError>)
    requires
        levels_in(s@, syntax@),
    ensures
        same_levels(r, levels_of(s@, syntax@)),
        r matches Ok(found) ==> levels_wf(found@),
{
    let mut levels: Vec<Level> = Vec::new();
    let mut k: usize = 0;
    while k < syntax.len()
        invariant
            k <= syntax.len(),
            levels_in(s@, syntax@),
            levels_wf(levels@),
            levels@.len() == k,
            forall|j: int| 0 <= j < k ==> level_of(s@, #[trigger] syntax@[j]) == Some(levels@[j]),
        decreases syntax.len() - k,
    {
        let level = syntax[k];
        proof {
            assert(is_level_in(s@, level));
            lemma_number_is_decimal_text(s@, level.price.start as int);
            lemma_number_is_decimal_text(s@, level.quantity.start as int);
            lemma_decimal_of_text_wf(level.price.text(s@));
            lemma_decimal_of_text_wf(level.quantity.text(s@));
        }
        let price = match parse_exact(slice_subrange(s, level.price.start, level.price.end)) {
            Err(e) => { return Err(OrderBookError::DecimalError(e)); },
            Ok(d) => d,
        };
        let quantity = match parse_exact(
            slice_subrange(s, level.quantity.start, level.quantity.end),
        ) {
            Err(e) => { return Err(OrderBookError::DecimalError(e)); },
            Ok(d) => d,
        };
        levels.push(Level { price, quantity });
        k += 1;
    }
    proof {
        assert(levels@ =~= Seq::new(syntax@.len(), |k: int| level_of(s@, syntax@[k]).unwrap()));
    }
    Ok(levels)
}

/// Reads an order book from `input` and checks it; with `config`, also against the
/// rules of the instrument.
pub fn parse_order_book(input: &str, config: Option<&InstrumentConfig>) -> (r: Result<
    OrderBook,
    OrderBookError,
>)
    requires
        config matches Some(c) ==> c.wf(),
    ensures
        is_outcome(r, parse_outcome(input.spec_bytes(), config_of(config))),
        r matches Err(OrderBookError::ParseError(_)) <==> !is_order_book(input.spec_bytes()),
        r matches Err(e) ==> e is ParseError || e is DecimalError || e.is_fault(),
        r matches Ok(book) ==> book.wf() && validated(book.bids@, book.asks@),
        r matches Err(e) ==> e.wf(),
{
    let s = input.as_bytes();
    assert(scan_order_book(s@) is Ok <==> is_order_book(s@)) by {
        lemma_recognizer_accepts_the_language(s@);
    }
    let syntax = match OrderBookParser::parse_book(input) {
        Err(e) => { return Err(OrderBookError::ParseError(e)); },
        Ok(syntax) => syntax,
    };
    let bids = match parse_levels(s, &syntax.bids) {
        Err(e) => { return Err(e); },
        Ok(levels) => levels,
    };
    let asks = match parse_levels(s, &syntax.asks) {
        Err(e) => { return Err(e); },
        Ok(levels) => levels,
    };
    let book = OrderBook { bids, asks };
    assert(structural_error(book.bids@, book.asks@) is None <==> validated(
        book.bids@,
        book.asks@,
    )) by {
        lemma_structural_error_iff(book.bids@, book.asks@);
    }
    match validate_book_logic(&book) {
        Err(e) => { return Err(e); },
        Ok(_) => {},
    }
    match config {
        Some(c) => match validate_instrument_rules(&book, c) {
            Err(e) => { return Err(e); },
            Ok(_) => {},
        },
        None => {},
    }
    Ok(book)
}

} // verus!
