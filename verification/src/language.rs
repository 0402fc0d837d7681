//! The language of order book snapshots as the grammar defines it, rule by rule,
//! and the proof that the recognizer accepts exactly that language.
//!
//! Each predicate says that a stretch of the input, from one offset up to another,
//! is a sentence of one rule. Whitespace may stand between any two tokens.

use crate::decimal::{is_decimal_text, is_digit, DOT};
use crate::grammar::{
    asks_word, bids_word, is_space, lemma_number_is_decimal_text, lemma_skip_digits_bounds,
    lemma_skip_spaces_bounds, scan_byte, scan_level, scan_level_list, scan_more_levels,
    scan_number, scan_order_book, scan_side, scan_word, skip_digits, skip_spaces, Expected,
    SyntaxError, COLON, COMMA, PIPE, SEMICOLON,
};
use vstd::prelude::*;

verus! {

/// The stretch holds whitespace only.
pub open spec fn blank(s: Seq<u8>, from: int, to: int) -> bool {
    &&& 0 <= from <= to <= s.len()
    &&& forall|k: int| from <= k < to ==> is_space(#[trigger] s[k])
}

/// `number := integer ("." integer)?`
pub open spec fn is_number(s: Seq<u8>, from: int, to: int) -> bool {
    0 <= from < to <= s.len() && is_decimal_text(s.subrange(from, to))
}

/// The parts of a level: the price up to `price_end`, the comma at `comma`, the
/// quantity from `quantity_start` on.
pub open spec fn level_parts(
    s: Seq<u8>,
    from: int,
    to: int,
    price_end: int,
    comma: int,
    quantity_start: int,
) -> bool {
    &&& is_number(s, from, price_end)
    &&& blank(s, price_end, comma)
    &&& comma < s.len()
    &&& s[comma] == COMMA
    &&& blank(s, comma + 1, quantity_start)
    &&& is_number(s, quantity_start, to)
}

/// `level := number "," number`
pub open spec fn is_level(s: Seq<u8>, from: int, to: int) -> bool {
    exists|price_end: int, comma: int, quantity_start: int| #[trigger]
        level_parts(s, from, to, price_end, comma, quantity_start)
}

/// `("|" level)*` with `count` levels.
pub open spec fn is_more_levels(s: Seq<u8>, from: int, to: int, count: nat) -> bool
    decreases count,
{
    if count == 0 {
        0 <= from == to <= s.len()
    } else {
        exists|bar: int, start: int, end: int|
            #![trigger blank(s, from, bar), is_level(s, start, end)]
            {
                &&& blank(s, from, bar)
                &&& bar < s.len()
                &&& s[bar] == PIPE
                &&& blank(s, bar + 1, start)
                &&& is_level(s, start, end)
                &&& is_more_levels(s, end, to, (count - 1) as nat)
            }
    }
}

/// `level_list := (level)? ("|" level)*`
pub open spec fn is_level_list(s: Seq<u8>, from: int, to: int) -> bool {
    ||| exists|count: nat| #[trigger] is_more_levels(s, from, to, count)
    ||| exists|end: int, count: nat|
        #![trigger is_level(s, from, end), is_more_levels(s, end, to, count)]
        is_level(s, from, end) && is_more_levels(s, end, to, count)
}

/// `bids_side := "BIDS" ":" level_list` and `asks_side := "ASKS" ":" level_list`,
/// by the side's word.
pub open spec fn is_side(s: Seq<u8>, from: int, to: int, word: Seq<u8>) -> bool {
    exists|colon: int, start: int|
        #![trigger blank(s, from + word.len(), colon), is_level_list(s, start, to)]
        {
            &&& 0 <= from
            &&& from + word.len() <= s.len()
            &&& s.subrange(from, from + word.len()) == word
            &&& blank(s, from + word.len(), colon)
            &&& colon < s.len()
            &&& s[colon] == COLON
            &&& blank(s, colon + 1, start)
            &&& is_level_list(s, start, to)
        }
}

/// The parts of an order book: where the bids stand, the semicolon, and where the
/// asks stand.
pub open spec fn order_book_parts(
    s: Seq<u8>,
    bids_start: int,
    bids_end: int,
    semicolon: int,
    asks_start: int,
    asks_end: int,
) -> bool {
    &&& blank(s, 0, bids_start)
    &&& is_side(s, bids_start, bids_end, bids_word())
    &&& blank(s, bids_end, semicolon)
    &&& semicolon < s.len()
    &&& s[semicolon] == SEMICOLON
    &&& blank(s, semicolon + 1, asks_start)
    &&& is_side(s, asks_start, asks_end, asks_word())
    &&& blank(s, asks_end, s.len() as int)
}

/// `order_book := bids_side ";" asks_side`: the whole of `s` is an order book.
#[verifier::opaque]
pub open spec fn is_order_book(s: Seq<u8>) -> bool {
    exists|bids_start: int, bids_end: int, semicolon: int, asks_start: int, asks_end: int|
        #[trigger] order_book_parts(s, bids_start, bids_end, semicolon, asks_start, asks_end)
}

/// No number goes on at `at`: the input ends there, or holds there neither a digit
/// nor a point.
pub open spec fn ends_number(s: Seq<u8>, at: int) -> bool {
    at >= s.len() || (!is_digit(s[at]) && s[at] != DOT)
}

/// No level list goes on at `at`: no number does, and what follows the whitespace
/// there is neither a `|` nor a digit.
pub open spec fn ends_list(s: Seq<u8>, at: int) -> bool {
    &&& ends_number(s, at)
    &&& skip_spaces(s, at) >= s.len() || (s[skip_spaces(s, at)] != PIPE && !is_digit(
        s[skip_spaces(s, at)],
    ))
}

/// Skipping whitespace over a blank stretch ends where the stretch ends, if what
/// stands there is no whitespace.
pub proof fn lemma_skip_blank(s: Seq<u8>, from: int, to: int)
    requires
        blank(s, from, to),
        to == s.len() || !is_space(s[to]),
    ensures
        skip_spaces(s, from) == to,
    decreases to - from,
{
    if from < to {
        assert(is_space(s[from]));
        lemma_skip_blank(s, from + 1, to);
    }
}

/// Skipping whitespace from the start of a blank stretch ends where skipping it
/// from the end of the stretch does.
pub proof fn lemma_skip_over_blank(s: Seq<u8>, from: int, to: int)
    requires
        blank(s, from, to),
    ensures
        skip_spaces(s, from) == skip_spaces(s, to),
    decreases to - from,
{
    if from < to {
        assert(is_space(s[from]));
        lemma_skip_over_blank(s, from + 1, to);
    }
}

/// Skipping digits over a stretch of digits ends where the stretch ends, if what
/// stands there is no digit.
pub proof fn lemma_skip_all_digits(s: Seq<u8>, from: int, to: int)
    requires
        0 <= from <= to <= s.len(),
        forall|k: int| from <= k < to ==> is_digit(#[trigger] s[k]),
        to == s.len() || !is_digit(s[to]),
    ensures
        skip_digits(s, from) == to,
    decreases to - from,
{
    if from < to {
        assert(is_digit(s[from]));
        lemma_skip_all_digits(s, from + 1, to);
    }
}

/// The recognizer reads a number of the language to its end, where no number goes
/// on behind it.
pub proof fn lemma_number_is_scanned(s: Seq<u8>, from: int, to: int)
    requires
        is_number(s, from, to),
        ends_number(s, to),
    ensures
        scan_number(s, from) == Ok::<int, SyntaxError>(to),
{
    let t = s.subrange(from, to);
    assert(forall|k: int| 0 <= k < t.len() ==> t[k] == s[from + k]);
    assert(t.first() == s[from]);
    assert(t.last() == s[to - 1]);
    lemma_skip_digits_bounds(s, from);
    let whole = skip_digits(s, from);
    if whole < to {
        // The digits stop inside the number: at its point.
        assert(t[whole - from] == s[whole]);
        assert(s[whole] == DOT);
        assert(whole + 1 < to) by {
            if whole + 1 == to {
                assert(t.last() == s[whole]);
            }
        }
        assert forall|k: int| whole + 1 <= k < to implies is_digit(#[trigger] s[k]) by {
            assert(t[k - from] == s[k]);
            assert(t[whole - from] == DOT);
        }
        lemma_skip_all_digits(s, whole + 1, to);
    } else {
        assert(whole == to) by {
            if whole > to {
                assert(is_digit(s[to]));
            }
        }
    }
}


/// The recognizer reads a level of the language to its end, where no number goes
/// on behind it.
pub proof fn lemma_level_is_scanned(s: Seq<u8>, from: int, to: int)
    requires
        is_level(s, from, to),
        ends_number(s, to),
    ensures
        scan_level(s, from) matches Ok((_, end)) && end == to,
{
    let (price_end, comma, quantity_start) = choose|price_end: int, comma: int, quantity_start: int|
     #[trigger]
        level_parts(s, from, to, price_end, comma, quantity_start);
    assert(ends_number(s, price_end)) by {
        if price_end < comma {
            assert(is_space(s[price_end]));
        }
    }
    lemma_number_is_scanned(s, from, price_end);
    lemma_skip_blank(s, price_end, comma);
    let t = s.subrange(quantity_start, to);
    assert(t.first() == s[quantity_start]);
    lemma_skip_blank(s, comma + 1, quantity_start);
    lemma_number_is_scanned(s, quantity_start, to);
}

/// A level of the language begins with a digit.
pub proof fn lemma_level_begins_with_digit(s: Seq<u8>, from: int, to: int)
    requires
        is_level(s, from, to),
    ensures
        0 <= from < to <= s.len(),
        is_digit(s[from]),
{
    let (price_end, comma, quantity_start) = choose|price_end: int, comma: int, quantity_start: int|
     #[trigger]
        level_parts(s, from, to, price_end, comma, quantity_start);
    let t = s.subrange(from, price_end);
    assert(t.first() == s[from]);
}

/// Levels of the language that follow behind a `|` each are bounded by the input,
/// and what stands at their start is whitespace, a `|`, or their end.
pub proof fn lemma_more_levels_begin(s: Seq<u8>, from: int, to: int, count: nat)
    requires
        is_more_levels(s, from, to, count),
    ensures
        0 <= from <= to <= s.len(),
        count == 0 ==> from == to,
        count > 0 ==> from < to && (is_space(s[from]) || s[from] == PIPE) && skip_spaces(s, from)
            < s.len() && s[skip_spaces(s, from)] == PIPE,
    decreases count,
{
    if count > 0 {
        let (bar, start, end) = choose|bar: int, start: int, end: int|
            #![trigger blank(s, from, bar), is_level(s, start, end)]
            {
                &&& blank(s, from, bar)
                &&& bar < s.len()
                &&& s[bar] == PIPE
                &&& blank(s, bar + 1, start)
                &&& is_level(s, start, end)
                &&& is_more_levels(s, end, to, (count - 1) as nat)
            };
        lemma_level_begins_with_digit(s, start, end);
        lemma_more_levels_begin(s, end, to, (count - 1) as nat);
        lemma_skip_blank(s, from, bar);
        if from < bar {
            assert(is_space(s[from]));
        }
    }
}

/// The recognizer reads the levels of the language that follow behind a `|` each,
/// all of them and to their end, where no level list goes on behind them.
pub proof fn lemma_more_levels_are_scanned(s: Seq<u8>, from: int, to: int, count: nat)
    requires
        is_more_levels(s, from, to, count),
        ends_list(s, to),
    ensures
        scan_more_levels(s, from) matches Ok((levels, end)) && end == to && levels.len() == count,
    decreases count,
{
    if count > 0 {
        let (bar, start, end) = choose|bar: int, start: int, end: int|
            #![trigger blank(s, from, bar), is_level(s, start, end)]
            {
                &&& blank(s, from, bar)
                &&& bar < s.len()
                &&& s[bar] == PIPE
                &&& blank(s, bar + 1, start)
                &&& is_level(s, start, end)
                &&& is_more_levels(s, end, to, (count - 1) as nat)
            };
        lemma_skip_blank(s, from, bar);
        lemma_level_begins_with_digit(s, start, end);
        lemma_skip_blank(s, bar + 1, start);
        lemma_more_levels_begin(s, end, to, (count - 1) as nat);
        assert(ends_number(s, end));
        lemma_level_is_scanned(s, start, end);
        lemma_more_levels_are_scanned(s, end, to, (count - 1) as nat);
    }
}

/// Levels that follow behind a `|` each may be entered anywhere in the whitespace
/// before their first `|`.
pub proof fn lemma_more_levels_from_bar(s: Seq<u8>, from: int, to: int, count: nat)
    requires
        is_more_levels(s, from, to, count),
        count > 0,
    ensures
        is_more_levels(s, skip_spaces(s, from), to, count),
{
    let (bar, start, end) = choose|bar: int, start: int, end: int|
        #![trigger blank(s, from, bar), is_level(s, start, end)]
        {
            &&& blank(s, from, bar)
            &&& bar < s.len()
            &&& s[bar] == PIPE
            &&& blank(s, bar + 1, start)
            &&& is_level(s, start, end)
            &&& is_more_levels(s, end, to, (count - 1) as nat)
        };
    lemma_skip_blank(s, from, bar);
    assert(blank(s, bar, bar));
}

/// The recognizer reads a level list of the language, entered behind the
/// whitespace at its start, up to its end or into the whitespace behind it, where
/// no level list goes on there.
pub proof fn lemma_level_list_is_scanned(s: Seq<u8>, from: int, to: int)
    requires
        is_level_list(s, from, to),
        ends_list(s, to),
    ensures
        scan_level_list(s, skip_spaces(s, from)) matches Ok((_, end)) && to <= end <= s.len()
            && skip_spaces(s, end) == skip_spaces(s, to),
{
    if exists|count: nat| #[trigger] is_more_levels(s, from, to, count) {
        let count = choose|count: nat| #[trigger] is_more_levels(s, from, to, count);
        lemma_more_levels_begin(s, from, to, count);
        if count > 0 {
            let at = skip_spaces(s, from);
            lemma_more_levels_from_bar(s, from, to, count);
            lemma_more_levels_are_scanned(s, at, to, count);
        } else {
            let at = skip_spaces(s, to);
            lemma_skip_spaces_bounds(s, to);
            lemma_skip_spaces_bounds(s, at);
            lemma_skip_blank(s, at, at);
        }
    } else {
        let (end, count) = choose|end: int, count: nat|
            #![trigger is_level(s, from, end), is_more_levels(s, end, to, count)]
            is_level(s, from, end) && is_more_levels(s, end, to, count);
        lemma_level_begins_with_digit(s, from, end);
        lemma_more_levels_begin(s, end, to, count);
        assert(ends_number(s, end));
        lemma_level_is_scanned(s, from, end);
        lemma_more_levels_are_scanned(s, end, to, count);
    }
}

/// The recognizer reads a side of the language up to its end or into the
/// whitespace behind it, where no level list goes on there.
pub proof fn lemma_side_is_scanned(
    s: Seq<u8>,
    from: int,
    to: int,
    word: Seq<u8>,
    expected: Expected,
)
    requires
        is_side(s, from, to, word),
        ends_list(s, to),
    ensures
        scan_side(s, from, word, expected) matches Ok((_, end)) && to <= end <= s.len()
            && skip_spaces(s, end) == skip_spaces(s, to),
{
    let (colon, start) = choose|colon: int, start: int|
        #![trigger blank(s, from + word.len(), colon), is_level_list(s, start, to)]
        {
            &&& 0 <= from
            &&& from + word.len() <= s.len()
            &&& s.subrange(from, from + word.len()) == word
            &&& blank(s, from + word.len(), colon)
            &&& colon < s.len()
            &&& s[colon] == COLON
            &&& blank(s, colon + 1, start)
            &&& is_level_list(s, start, to)
        };
    lemma_skip_blank(s, from + word.len(), colon);
    lemma_skip_over_blank(s, colon + 1, start);
    lemma_level_list_is_scanned(s, start, to);
}

/// The recognizer accepts every order book of the language.
pub proof fn lemma_language_is_accepted(s: Seq<u8>)
    requires
        is_order_book(s),
    ensures
        scan_order_book(s) is Ok,
{
    reveal(is_order_book);
    let (bids_start, bids_end, semicolon, asks_start, asks_end) = choose|
        bids_start: int,
        bids_end: int,
        semicolon: int,
        asks_start: int,
        asks_end: int,
    | #[trigger] order_book_parts(s, bids_start, bids_end, semicolon, asks_start, asks_end);
    lemma_side_begins(s, bids_start, bids_end, bids_word());
    lemma_side_begins(s, asks_start, asks_end, asks_word());
    lemma_skip_blank(s, 0, bids_start);
    lemma_skip_blank(s, bids_end, semicolon);
    assert(ends_list(s, bids_end)) by {
        if bids_end < semicolon {
            assert(is_space(s[bids_end]));
        }
    }
    lemma_side_is_scanned(s, bids_start, bids_end, bids_word(), Expected::Bids);
    lemma_skip_blank(s, semicolon + 1, asks_start);
    lemma_skip_blank(s, asks_end, s.len() as int);
    assert(ends_list(s, asks_end)) by {
        if asks_end < s.len() {
            assert(is_space(s[asks_end]));
        }
    }
    lemma_side_is_scanned(s, asks_start, asks_end, asks_word(), Expected::Asks);
}

/// A side of the language begins with the first letter of its word, which is no
/// whitespace.
pub proof fn lemma_side_begins(s: Seq<u8>, from: int, to: int, word: Seq<u8>)
    requires
        is_side(s, from, to, word),
        word == bids_word() || word == asks_word(),
    ensures
        0 <= from < s.len(),
        !is_space(s[from]),
{
    let (colon, start) = choose|colon: int, start: int|
        #![trigger blank(s, from + word.len(), colon), is_level_list(s, start, to)]
        {
            &&& 0 <= from
            &&& from + word.len() <= s.len()
            &&& s.subrange(from, from + word.len()) == word
            &&& blank(s, from + word.len(), colon)
            &&& colon < s.len()
            &&& s[colon] == COLON
            &&& blank(s, colon + 1, start)
            &&& is_level_list(s, start, to)
        };
    let t = s.subrange(from, from + word.len());
    assert(t[0] == s[from]);
    assert(word[0] == 0x42 || word[0] == 0x41);
}


/// The whitespace that the recognizer skips is a blank stretch.
pub proof fn lemma_skipped_is_blank(s: Seq<u8>, from: int)
    requires
        0 <= from <= s.len(),
    ensures
        blank(s, from, skip_spaces(s, from)),
{
    lemma_skip_spaces_bounds(s, from);
}

/// What the recognizer reads as a level is a level of the language.
pub proof fn lemma_scanned_level_is_level(s: Seq<u8>, from: int)
    ensures
        scan_level(s, from) matches Ok((_, end)) ==> is_level(s, from, end),
{
    lemma_number_is_decimal_text(s, from);
    if let Ok(price_end) = scan_number(s, from) {
        let comma = skip_spaces(s, price_end);
        lemma_skipped_is_blank(s, price_end);
        if let Ok(after_comma) = scan_byte(s, comma, COMMA, Expected::Comma) {
            let quantity_start = skip_spaces(s, after_comma);
            lemma_skipped_is_blank(s, after_comma);
            lemma_number_is_decimal_text(s, quantity_start);
            if let Ok(end) = scan_number(s, quantity_start) {
                assert(level_parts(s, from, end, price_end, comma, quantity_start));
            }
        }
    }
}

/// What the recognizer reads as levels behind a `|` each are such levels of the
/// language, as many as it has found.
pub proof fn lemma_scanned_more_levels(s: Seq<u8>, from: int)
    requires
        0 <= from <= s.len(),
    ensures
        scan_more_levels(s, from) matches Ok((levels, end)) ==> is_more_levels(
            s,
            from,
            end,
            levels.len(),
        ),
    decreases s.len() - from,
{
    let bar = skip_spaces(s, from);
    lemma_skipped_is_blank(s, from);
    if bar < s.len() && s[bar] == PIPE {
        let start = skip_spaces(s, bar + 1);
        lemma_skipped_is_blank(s, bar + 1);
        lemma_scanned_level_is_level(s, start);
        if let Ok((level, end)) = scan_level(s, start) {
            lemma_scanned_more_levels(s, end);
            if let Ok((more, last)) = scan_more_levels(s, end) {
                let levels = seq![level] + more;
                assert(levels.len() - 1 == more.len());
                assert(blank(s, from, bar) && is_level(s, start, end));
                assert(is_more_levels(s, end, last, (levels.len() - 1) as nat));
            }
        }
    }
}

/// What the recognizer reads as a level list is a level list of the language.
pub proof fn lemma_scanned_level_list(s: Seq<u8>, from: int)
    requires
        0 <= from <= s.len(),
    ensures
        scan_level_list(s, from) matches Ok((_, end)) ==> is_level_list(s, from, end),
{
    if from < s.len() && is_digit(s[from]) {
        lemma_scanned_level_is_level(s, from);
        if let Ok((level, end)) = scan_level(s, from) {
            lemma_scanned_more_levels(s, end);
            if let Ok((more, last)) = scan_more_levels(s, end) {
                assert(is_level(s, from, end) && is_more_levels(s, end, last, more.len()));
            }
        }
    } else {
        lemma_scanned_more_levels(s, from);
        if let Ok((more, last)) = scan_more_levels(s, from) {
            assert(is_more_levels(s, from, last, more.len()));
        }
    }
}

/// What the recognizer reads as a side is a side of the language.
pub proof fn lemma_scanned_side(s: Seq<u8>, from: int, word: Seq<u8>, expected: Expected)
    ensures
        scan_side(s, from, word, expected) matches Ok((_, end)) ==> is_side(s, from, end, word),
{
    if let Ok(after_word) = scan_word(s, from, word, expected) {
        let colon = skip_spaces(s, after_word);
        lemma_skipped_is_blank(s, after_word);
        if let Ok(after_colon) = scan_byte(s, colon, COLON, Expected::Colon) {
            let start = skip_spaces(s, after_colon);
            lemma_skipped_is_blank(s, after_colon);
            lemma_scanned_level_list(s, start);
            if let Ok((levels, end)) = scan_level_list(s, start) {
                assert(blank(s, from + word.len(), colon) && is_level_list(s, start, end));
            }
        }
    }
}

/// The recognizer accepts a text exactly when the text is an order book of the
/// language.
pub proof fn lemma_recognizer_accepts_the_language(s: Seq<u8>)
    ensures
        scan_order_book(s) is Ok <==> is_order_book(s),
{
    if is_order_book(s) {
        lemma_language_is_accepted(s);
    }
    if scan_order_book(s) is Ok {
        lemma_accepted_is_language(s);
    }
}

/// Every text that the recognizer accepts is an order book of the language.
pub proof fn lemma_accepted_is_language(s: Seq<u8>)
    requires
        scan_order_book(s) is Ok,
    ensures
        is_order_book(s),
{
    reveal(is_order_book);
    let bids_start = skip_spaces(s, 0);
    lemma_skipped_is_blank(s, 0);
    lemma_scanned_side(s, bids_start, bids_word(), Expected::Bids);
    if let Ok((bids, bids_end)) = scan_side(s, bids_start, bids_word(), Expected::Bids) {
        lemma_scanned_side_bounds(s, bids_start, bids_word(), Expected::Bids);
        let semicolon = skip_spaces(s, bids_end);
        lemma_skipped_is_blank(s, bids_end);
        if let Ok(after_semicolon) = scan_byte(s, semicolon, SEMICOLON, Expected::Semicolon) {
            let asks_start = skip_spaces(s, after_semicolon);
            lemma_skipped_is_blank(s, after_semicolon);
            lemma_scanned_side(s, asks_start, asks_word(), Expected::Asks);
            if let Ok((asks, asks_end)) = scan_side(s, asks_start, asks_word(), Expected::Asks) {
                lemma_scanned_side_bounds(s, asks_start, asks_word(), Expected::Asks);
                lemma_skipped_is_blank(s, asks_end);
                if skip_spaces(s, asks_end) == s.len() {
                    assert(order_book_parts(
                        s,
                        bids_start,
                        bids_end,
                        semicolon,
                        asks_start,
                        asks_end,
                    ));
                }
            }
        }
    }
}

/// A side that the recognizer reads ends inside the input.
proof fn lemma_scanned_side_bounds(s: Seq<u8>, from: int, word: Seq<u8>, expected: Expected)
    requires
        0 <= from <= s.len(),
    ensures
        scan_side(s, from, word, expected) matches Ok((_, end)) ==> from <= end <= s.len(),
{
    lemma_scanned_side(s, from, word, expected);
    if let Ok((levels, end)) = scan_side(s, from, word, expected) {
        let (colon, start) = choose|colon: int, start: int|
            #![trigger blank(s, from + word.len(), colon), is_level_list(s, start, end)]
            {
                &&& 0 <= from
                &&& from + word.len() <= s.len()
                &&& s.subrange(from, from + word.len()) == word
                &&& blank(s, from + word.len(), colon)
                &&& colon < s.len()
                &&& s[colon] == COLON
                &&& blank(s, colon + 1, start)
                &&& is_level_list(s, start, end)
            };
        lemma_level_list_bounds(s, start, end);
    }
}

/// A level list of the language lies inside the input.
proof fn lemma_level_list_bounds(s: Seq<u8>, from: int, to: int)
    requires
        is_level_list(s, from, to),
    ensures
        0 <= from <= to <= s.len(),
{
    if exists|count: nat| #[trigger] is_more_levels(s, from, to, count) {
        let count = choose|count: nat| #[trigger] is_more_levels(s, from, to, count);
        lemma_more_levels_begin(s, from, to, count);
    } else {
        let (end, count) = choose|end: int, count: nat|
            #![trigger is_level(s, from, end), is_more_levels(s, end, to, count)]
            is_level(s, from, end) && is_more_levels(s, end, to, count);
        lemma_level_begins_with_digit(s, from, end);
        lemma_more_levels_begin(s, end, to, count);
    }
}

} // verus!
