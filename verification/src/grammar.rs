//! The grammar of an order book snapshot, and its recognizer.
//!
//! ```text
//! integer     := digit+
//! number      := integer ("." integer)?
//! level       := number "," number
//! level_list  := (level)? ("|" level)*
//! bids_side   := "BIDS" ":" level_list
//! asks_side   := "ASKS" ":" level_list
//! order_book  := bids_side ";" asks_side
//! ```
//!
//! Blanks, tabs, carriage returns and line feeds may stand between any two tokens
//! and are skipped; a number is one token. The `scan_*` spec functions say, for each
//! rule and each offset, where a match ends or where and why it cannot go on. The
//! recognizer is predictive: a level list that has seen a digit or a `|` is bound to
//! read a whole level.

use vstd::prelude::*;
use vstd::string::{StringExecFns, StringSliceAdditionalSpecFns};
use crate::decimal::{is_decimal_text, is_digit, DOT};
use crate::language::{is_order_book, lemma_recognizer_accepts_the_language};

verus! {

/// A blank.
pub const SPACE: u8 = 0x20;

/// A tab.
pub const TAB: u8 = 0x09;

/// A carriage return.
pub const CARRIAGE_RETURN: u8 = 0x0D;

/// A line feed.
pub const LINE_FEED: u8 = 0x0A;

/// `,` between the price and the quantity of a level.
pub const COMMA: u8 = 0x2C;

/// `:` behind the word of a side.
pub const COLON: u8 = 0x3A;

/// `;` between the two sides.
pub const SEMICOLON: u8 = 0x3B;

/// `|` between two levels.
pub const PIPE: u8 = 0x7C;

/// The rules of the grammar.
#[allow(non_camel_case_types)]
#[derive(Clone, Copy, Debug, PartialEq, Eq, Structural)]
pub enum Rule {
    WHITESPACE,
    ASCII_DIGIT,
    integer,
    number,
    level,
    level_list,
    bids_identifier,
    asks_identifier,
    bids_side,
    asks_side,
    order_book,
}

/// What the recognizer was looking for where it stopped.
#[derive(Clone, Copy, Debug, PartialEq, Eq, Structural)]
pub enum Expected {
    Whitespace,
    Digit,
    Comma,
    Colon,
    Semicolon,
    Bids,
    Asks,
    EndOfInput,
}

/// A syntax error: the byte offset at which the input stops matching, and what
/// should have stood there.
#[derive(Clone, Copy, Debug, PartialEq, Eq, Structural)]
pub struct SyntaxError {
    pub position: usize,
    pub expected: Expected,
}

/// A stretch of the input, from byte `start` up to but not including byte `end`.
#[derive(Clone, Copy, Debug, PartialEq, Eq, Structural)]
pub struct Span {
    pub start: usize,
    pub end: usize,
}

/// One level as it stands in the input: where its price is written and where its
/// quantity.
#[derive(Clone, Copy, Debug, PartialEq, Eq, Structural)]
pub struct LevelSyntax {
    pub price: Span,
    pub quantity: Span,
}

/// The levels of both sides, in the order in which the input has them.
#[derive(Clone, Debug)]
pub struct BookSyntax {
    pub bids: Vec<LevelSyntax>,
    pub asks: Vec<LevelSyntax>,
}

/// The recognizer of the grammar.
#[derive(Clone, Copy, Debug)]
pub struct OrderBookParser;

impl Span {
    /// The bytes of `s` that the span covers.
    pub open spec fn text(self, s: Seq<u8>) -> Seq<u8> {
        s.subrange(self.start as int, self.end as int)
    }

    /// The span lies inside `s`.
    pub open spec fn within(self, s: Seq<u8>) -> bool {
        self.start <= self.end <= s.len()
    }
}

/// The byte is a blank, a tab, a carriage return or a line feed.
pub open spec fn is_space(b: u8) -> bool {
    b == SPACE || b == TAB || b == CARRIAGE_RETURN || b == LINE_FEED
}

/// The bytes of `BIDS`.
pub open spec fn bids_word() -> Seq<u8> {
    seq![0x42u8, 0x49u8, 0x44u8, 0x53u8]
}

/// The bytes of `ASKS`.
pub open spec fn asks_word() -> Seq<u8> {
    seq![0x41u8, 0x53u8, 0x4Bu8, 0x53u8]
}

/// The span between two offsets.
pub open spec fn span(start: int, end: int) -> Span {
    Span { start: start as usize, end: end as usize }
}

/// The syntax error at an offset.
pub open spec fn failure(at: int, expected: Expected) -> SyntaxError {
    SyntaxError { position: at as usize, expected }
}

/// The first offset from `i` on that holds no whitespace.
pub open spec fn skip_spaces(s: Seq<u8>, i: int) -> int
    decreases s.len() - i,
{
    if 0 <= i < s.len() && is_space(s[i]) {
        skip_spaces(s, i + 1)
    } else {
        i
    }
}

/// The first offset from `i` on that holds no digit.
pub open spec fn skip_digits(s: Seq<u8>, i: int) -> int
    decreases s.len() - i,
{
    if 0 <= i < s.len() && is_digit(s[i]) {
        skip_digits(s, i + 1)
    } else {
        i
    }
}

/// The byte `b` at offset `i`.
pub open spec fn scan_byte(s: Seq<u8>, i: int, b: u8, expected: Expected) -> Result<
    int,
    SyntaxError,
> {
    if 0 <= i < s.len() && s[i] == b {
        Ok(i + 1)
    } else {
        Err(failure(i, expected))
    }
}

/// The bytes of `word` from offset `i` on.
pub open spec fn scan_word(s: Seq<u8>, i: int, word: Seq<u8>, expected: Expected) -> Result<
    int,
    SyntaxError,
> {
    if 0 <= i && i + word.len() <= s.len() && s.subrange(i, i + word.len()) == word {
        Ok(i + word.len())
    } else {
        Err(failure(i, expected))
    }
}

/// `WHITESPACE`: one whitespace byte.
pub open spec fn scan_whitespace(s: Seq<u8>, i: int) -> Result<int, SyntaxError> {
    if 0 <= i < s.len() && is_space(s[i]) {
        Ok(i + 1)
    } else {
        Err(failure(i, Expected::Whitespace))
    }
}

/// `ASCII_DIGIT`: one digit.
pub open spec fn scan_digit(s: Seq<u8>, i: int) -> Result<int, SyntaxError> {
    if 0 <= i < s.len() && is_digit(s[i]) {
        Ok(i + 1)
    } else {
        Err(failure(i, Expected::Digit))
    }
}

/// `integer`: one digit or more, as many as there are.
pub open spec fn scan_integer(s: Seq<u8>, i: int) -> Result<int, SyntaxError> {
    if 0 <= i < s.len() && is_digit(s[i]) {
        Ok(skip_digits(s, i))
    } else {
        Err(failure(i, Expected::Digit))
    }
}

/// `number`: an integer, and a fraction where a `.` and a digit follow it.
pub open spec fn scan_number(s: Seq<u8>, i: int) -> Result<int, SyntaxError> {
    match scan_integer(s, i) {
        Err(e) => Err(e),
        Ok(j) => if j + 1 < s.len() && s[j] == DOT && is_digit(s[j + 1]) {
            Ok(skip_digits(s, j + 1))
        } else {
            Ok(j)
        },
    }
}

/// `level`: a price, a comma and a quantity.
pub open spec fn scan_level(s: Seq<u8>, i: int) -> Result<(LevelSyntax, int), SyntaxError> {
    match scan_number(s, i) {
        Err(e) => Err(e),
        Ok(price_end) => match scan_byte(s, skip_spaces(s, price_end), COMMA, Expected::Comma) {
            Err(e) => Err(e),
            Ok(after_comma) => {
                let quantity_start = skip_spaces(s, after_comma);
                match scan_number(s, quantity_start) {
                    Err(e) => Err(e),
                    Ok(quantity_end) => Ok(
                        (
                            LevelSyntax {
                                price: span(i, price_end),
                                quantity: span(quantity_start, quantity_end),
                            },
                            quantity_end,
                        ),
                    ),
                }
            },
        },
    }
}

/// Puts `levels` in front of the levels of a match.
pub open spec fn prepend(levels: Seq<LevelSyntax>, m: Result<(Seq<LevelSyntax>, int), SyntaxError>)
    -> Result<(Seq<LevelSyntax>, int), SyntaxError> {
    match m {
        Ok((more, end)) => Ok((levels + more, end)),
        Err(e) => Err(e),
    }
}

/// `("|" level)*`: the levels that follow offset `i`, each behind a `|`. The match
/// ends behind the last of them, before any whitespace that follows.
pub open spec fn scan_more_levels(s: Seq<u8>, i: int) -> Result<(Seq<LevelSyntax>, int), SyntaxError>
    decreases s.len() - i,
{
    let bar = skip_spaces(s, i);
    if 0 <= i && bar < s.len() && s[bar] == PIPE {
        match scan_level(s, skip_spaces(s, bar + 1)) {
            Err(e) => Err(e),
            Ok((level, end)) => {
                proof {
                    lemma_scan_level_bounds(s, skip_spaces(s, bar + 1));
                    lemma_skip_spaces_bounds(s, bar + 1);
                    lemma_skip_spaces_bounds(s, i);
                }
                prepend(seq![level], scan_more_levels(s, end))
            },
        }
    } else {
        Ok((Seq::empty(), i))
    }
}

/// `level_list`: a first level where a digit opens the list, then the levels that
/// follow behind a `|` each.
pub open spec fn scan_level_list(s: Seq<u8>, i: int) -> Result<(Seq<LevelSyntax>, int), SyntaxError> {
    if 0 <= i < s.len() && is_digit(s[i]) {
        match scan_level(s, i) {
            Err(e) => Err(e),
            Ok((level, end)) => prepend(seq![level], scan_more_levels(s, end)),
        }
    } else {
        scan_more_levels(s, i)
    }
}

/// `bids_side` and `asks_side`: the side's word, a colon and a level list.
pub open spec fn scan_side(s: Seq<u8>, i: int, word: Seq<u8>, expected: Expected) -> Result<
    (Seq<LevelSyntax>, int),
    SyntaxError,
> {
    match scan_word(s, i, word, expected) {
        Err(e) => Err(e),
        Ok(after_word) => match scan_byte(s, skip_spaces(s, after_word), COLON, Expected::Colon) {
            Err(e) => Err(e),
            Ok(after_colon) => scan_level_list(s, skip_spaces(s, after_colon)),
        },
    }
}

/// `order_book`: the whole of `s` is the bids, a semicolon and the asks, with
/// whitespace allowed before, between and behind them.
pub open spec fn scan_order_book(s: Seq<u8>) -> Result<
    (Seq<LevelSyntax>, Seq<LevelSyntax>),
    SyntaxError,
> {
    match scan_side(s, skip_spaces(s, 0), bids_word(), Expected::Bids) {
        Err(e) => Err(e),
        Ok((bids, bids_end)) => match scan_byte(
            s,
            skip_spaces(s, bids_end),
            SEMICOLON,
            Expected::Semicolon,
        ) {
            Err(e) => Err(e),
            Ok(after_semicolon) => match scan_side(
                s,
                skip_spaces(s, after_semicolon),
                asks_word(),
                Expected::Asks,
            ) {
                Err(e) => Err(e),
                Ok((asks, asks_end)) => if skip_spaces(s, asks_end) == s.len() {
                    Ok((bids, asks))
                } else {
                    Err(failure(skip_spaces(s, asks_end), Expected::EndOfInput))
                },
            },
        },
    }
}

/// The end of a match, without the levels.
pub open spec fn end_of(m: Result<(Seq<LevelSyntax>, int), SyntaxError>) -> Result<int, SyntaxError> {
    match m {
        Ok((_, end)) => Ok(end),
        Err(e) => Err(e),
    }
}

/// Where the match of `rule` at the start of `s` ends. Every rule but `order_book`
/// may leave input behind it.
pub open spec fn scan_rule(rule: Rule, s: Seq<u8>) -> Result<int, SyntaxError> {
    match rule {
        Rule::WHITESPACE => scan_whitespace(s, 0),
        Rule::ASCII_DIGIT => scan_digit(s, 0),
        Rule::integer => scan_integer(s, 0),
        Rule::number => scan_number(s, 0),
        Rule::level => match scan_level(s, 0) {
            Ok((_, end)) => Ok(end),
            Err(e) => Err(e),
        },
        Rule::level_list => end_of(scan_level_list(s, 0)),
        Rule::bids_identifier => scan_word(s, 0, bids_word(), Expected::Bids),
        Rule::asks_identifier => scan_word(s, 0, asks_word(), Expected::Asks),
        Rule::bids_side => end_of(scan_side(s, 0, bids_word(), Expected::Bids)),
        Rule::asks_side => end_of(scan_side(s, 0, asks_word(), Expected::Asks)),
        Rule::order_book => match scan_order_book(s) {
            Ok(_) => Ok(s.len() as int),
            Err(e) => Err(e),
        },
    }
}

/// Skipping whitespace stays inside the input, passes whitespace only, and ends
/// before what is none.
pub proof fn lemma_skip_spaces_bounds(s: Seq<u8>, i: int)
    requires
        0 <= i <= s.len(),
    ensures
        i <= skip_spaces(s, i) <= s.len(),
        skip_spaces(s, i) < s.len() ==> !is_space(s[skip_spaces(s, i)]),
        forall|k: int| i <= k < skip_spaces(s, i) ==> is_space(#[trigger] s[k]),
    decreases s.len() - i,
{
    if i < s.len() && is_space(s[i]) {
        lemma_skip_spaces_bounds(s, i + 1);
    }
}

/// Skipping digits stays inside the input, passes digits only, and ends before what
/// is none.
pub proof fn lemma_skip_digits_bounds(s: Seq<u8>, i: int)
    requires
        0 <= i <= s.len(),
    ensures
        i <= skip_digits(s, i) <= s.len(),
        skip_digits(s, i) < s.len() ==> !is_digit(s[skip_digits(s, i)]),
        forall|k: int| i <= k < skip_digits(s, i) ==> is_digit(#[trigger] s[k]),
    decreases s.len() - i,
{
    if i < s.len() && is_digit(s[i]) {
        lemma_skip_digits_bounds(s, i + 1);
    }
}

/// A number that matches is not empty and ends inside the input.
pub proof fn lemma_scan_number_bounds(s: Seq<u8>, i: int)
    ensures
        scan_number(s, i) matches Ok(end) ==> 0 <= i < end <= s.len(),
{
    if 0 <= i < s.len() && is_digit(s[i]) {
        lemma_skip_digits_bounds(s, i);
        lemma_skip_digits_bounds(s, i + 1);
        let j = skip_digits(s, i);
        if j + 1 < s.len() {
            lemma_skip_digits_bounds(s, j + 1);
        }
    }
}

/// A level that matches is not empty, ends inside the input, and its two numbers
/// lie in it in order.
pub proof fn lemma_scan_level_bounds(s: Seq<u8>, i: int)
    ensures
        scan_level(s, i) matches Ok((level, end)) ==> 0 <= i < end <= s.len(),
        s.len() <= usize::MAX ==> (scan_level(s, i) matches Ok((level, end)) ==> {
            &&& level.price.start == i
            &&& level.price.start < level.price.end < level.quantity.start < level.quantity.end
                == end
            &&& scan_number(s, level.price.start as int) == Ok::<int, SyntaxError>(
                level.price.end as int,
            )
            &&& scan_number(s, level.quantity.start as int) == Ok::<int, SyntaxError>(
                level.quantity.end as int,
            )
        }),
{
    lemma_scan_number_bounds(s, i);
    if let Ok(price_end) = scan_number(s, i) {
        lemma_skip_spaces_bounds(s, price_end);
        if let Ok(after_comma) = scan_byte(s, skip_spaces(s, price_end), COMMA, Expected::Comma) {
            lemma_skip_spaces_bounds(s, after_comma);
            lemma_scan_number_bounds(s, skip_spaces(s, after_comma));
        }
    }
}

/// Both numbers of `level` are matches of `number` in `s`.
pub open spec fn is_level_in(s: Seq<u8>, level: LevelSyntax) -> bool {
    &&& level.price.within(s)
    &&& level.quantity.within(s)
    &&& scan_number(s, level.price.start as int) == Ok::<int, SyntaxError>(level.price.end as int)
    &&& scan_number(s, level.quantity.start as int) == Ok::<int, SyntaxError>(
        level.quantity.end as int,
    )
}

/// Each of the levels is a level of the input.
pub open spec fn levels_in(s: Seq<u8>, levels: Seq<LevelSyntax>) -> bool {
    forall|k: int| 0 <= k < levels.len() ==> is_level_in(s, #[trigger] levels[k])
}

/// The levels that `("|" level)*` finds are levels of the input.
pub proof fn lemma_more_levels_in(s: Seq<u8>, i: int)
    requires
        0 <= i <= s.len() <= usize::MAX,
    ensures
        scan_more_levels(s, i) matches Ok((levels, end)) ==> levels_in(s, levels) && i <= end
            <= s.len(),
    decreases s.len() - i,
{
    lemma_skip_spaces_bounds(s, i);
    let bar = skip_spaces(s, i);
    if bar < s.len() && s[bar] == PIPE {
        lemma_skip_spaces_bounds(s, bar + 1);
        let start = skip_spaces(s, bar + 1);
        lemma_scan_level_bounds(s, start);
        if let Ok((level, end)) = scan_level(s, start) {
            lemma_more_levels_in(s, end);
            if let Ok((more, last)) = scan_more_levels(s, end) {
                let levels = seq![level] + more;
                assert forall|k: int| 0 <= k < levels.len() implies is_level_in(
                    s,
                    #[trigger] levels[k],
                ) by {
                    if k > 0 {
                        assert(levels[k] == more[k - 1]);
                    }
                }
            }
        }
    }
}

/// The levels that `level_list` finds are levels of the input.
pub proof fn lemma_level_list_in(s: Seq<u8>, i: int)
    requires
        0 <= i <= s.len() <= usize::MAX,
    ensures
        scan_level_list(s, i) matches Ok((levels, end)) ==> levels_in(s, levels) && i <= end
            <= s.len(),
{
    if i < s.len() && is_digit(s[i]) {
        lemma_scan_level_bounds(s, i);
        if let Ok((level, end)) = scan_level(s, i) {
            lemma_more_levels_in(s, end);
            if let Ok((more, last)) = scan_more_levels(s, end) {
                let levels = seq![level] + more;
                assert forall|k: int| 0 <= k < levels.len() implies is_level_in(
                    s,
                    #[trigger] levels[k],
                ) by {
                    if k > 0 {
                        assert(levels[k] == more[k - 1]);
                    }
                }
            }
        }
    } else {
        lemma_more_levels_in(s, i);
    }
}

/// The levels that a side finds are levels of the input.
pub proof fn lemma_side_in(s: Seq<u8>, i: int, word: Seq<u8>, expected: Expected)
    requires
        0 <= i <= s.len() <= usize::MAX,
    ensures
        scan_side(s, i, word, expected) matches Ok((levels, end)) ==> levels_in(s, levels) && i
            <= end <= s.len(),
{
    if let Ok(after_word) = scan_word(s, i, word, expected) {
        lemma_skip_spaces_bounds(s, after_word);
        if let Ok(after_colon) = scan_byte(
            s,
            skip_spaces(s, after_word),
            COLON,
            Expected::Colon,
        ) {
            lemma_skip_spaces_bounds(s, after_colon);
            lemma_level_list_in(s, skip_spaces(s, after_colon));
        }
    }
}

/// The levels of an order book that matches are levels of the input.
pub proof fn lemma_order_book_levels_in(s: Seq<u8>)
    requires
        s.len() <= usize::MAX,
    ensures
        scan_order_book(s) matches Ok((bids, asks)) ==> levels_in(s, bids) && levels_in(s, asks),
{
    lemma_skip_spaces_bounds(s, 0);
    lemma_side_in(s, skip_spaces(s, 0), bids_word(), Expected::Bids);
    if let Ok((bids, bids_end)) = scan_side(s, skip_spaces(s, 0), bids_word(), Expected::Bids) {
        lemma_skip_spaces_bounds(s, bids_end);
        if let Ok(after_semicolon) = scan_byte(
            s,
            skip_spaces(s, bids_end),
            SEMICOLON,
            Expected::Semicolon,
        ) {
            lemma_skip_spaces_bounds(s, after_semicolon);
            lemma_side_in(s, skip_spaces(s, after_semicolon), asks_word(), Expected::Asks);
        }
    }
}

/// What `number` matches is a decimal text.
pub proof fn lemma_number_is_decimal_text(s: Seq<u8>, i: int)
    ensures
        scan_number(s, i) matches Ok(end) ==> 0 <= i < end <= s.len() && is_decimal_text(
            s.subrange(i, end),
        ),
{
    lemma_scan_number_bounds(s, i);
    if let Ok(end) = scan_number(s, i) {
        let whole = skip_digits(s, i);
        lemma_skip_digits_bounds(s, i);
        if whole + 1 < s.len() {
            lemma_skip_digits_bounds(s, whole + 1);
        }
        let t = s.subrange(i, end);
        assert forall|k: int| 0 <= k < t.len() implies is_digit(#[trigger] t[k]) || t[k]
            == DOT by {
            assert(t[k] == s[i + k]);
        }
        assert forall|j: int, k: int|
            #![trigger t[j], t[k]]
            0 <= j < k < t.len() && t[j] == DOT implies t[k] != DOT by {
            assert(t[j] == s[i + j]);
            assert(t[k] == s[i + k]);
        }
        assert(t.first() == s[i]);
        assert(t.last() == s[end - 1]);
    }
}

/// The text of one decimal digit.
pub open spec fn digit_text(d: nat) -> Seq<char> {
    if d == 0 {
        "0"@
    } else if d == 1 {
        "1"@
    } else if d == 2 {
        "2"@
    } else if d == 3 {
        "3"@
    } else if d == 4 {
        "4"@
    } else if d == 5 {
        "5"@
    } else if d == 6 {
        "6"@
    } else if d == 7 {
        "7"@
    } else if d == 8 {
        "8"@
    } else {
        "9"@
    }
}

/// The text of `n` in base 10.
pub open spec fn number_text(n: nat) -> Seq<char>
    decreases n,
{
    if n < 10 {
        digit_text(n)
    } else {
        number_text(n / 10) + digit_text(n % 10)
    }
}

fn digit_name(d: usize) -> (r: &'static str)
    requires
        d < 10,
    ensures
        r@ == digit_text(d as nat),
{
    if d == 0 {
        "0"
    } else if d == 1 {
        "1"
    } else if d == 2 {
        "2"
    } else if d == 3 {
        "3"
    } else if d == 4 {
        "4"
    } else if d == 5 {
        "5"
    } else if d == 6 {
        "6"
    } else if d == 7 {
        "7"
    } else if d == 8 {
        "8"
    } else {
        "9"
    }
}

fn number_string(n: usize) -> (r: String)
    ensures
        r@ == number_text(n as nat),
{
    let mut text = String::from_str(digit_name(n % 10));
    let mut rest: usize = n / 10;
    while rest > 0
        invariant
            number_text(n as nat) == if rest > 0 {
                number_text(rest as nat) + text@
            } else {
                text@
            },
        decreases rest,
    {
        let ghost old_text = text@;
        let digit = String::from_str(digit_name(rest % 10));
        text = digit.concat(text.as_str());
        proof {
            let high = number_text((rest / 10) as nat);
            let low = digit_text((rest % 10) as nat);
            assert((high + low) + old_text =~= high + (low + old_text));
        }
        rest = rest / 10;
    }
    text
}

impl Expected {
    /// What was expected, in words.
    pub open spec fn text(self) -> Seq<char> {
        match self {
            Expected::Whitespace => "whitespace"@,
            Expected::Digit => "a digit"@,
            Expected::Comma => "`,`"@,
            Expected::Colon => "`:`"@,
            Expected::Semicolon => "`;`"@,
            Expected::Bids => "`BIDS`"@,
            Expected::Asks => "`ASKS`"@,
            Expected::EndOfInput => "the end of the input"@,
        }
    }

    /// What was expected, in words.
    pub fn name(self) -> (r: &'static str)
        ensures
            r@ == self.text(),
    {
        match self {
            Expected::Whitespace => "whitespace",
            Expected::Digit => "a digit",
            Expected::Comma => "`,`",
            Expected::Colon => "`:`",
            Expected::Semicolon => "`;`",
            Expected::Bids => "`BIDS`",
            Expected::Asks => "`ASKS`",
            Expected::EndOfInput => "the end of the input",
        }
    }
}

impl SyntaxError {
    /// The error in words: what was expected, and at which byte.
    pub open spec fn text(self) -> Seq<char> {
        "expected "@ + self.expected.text() + " at byte "@ + number_text(self.position as nat)
    }

    /// The error in words: what was expected, and at which byte.
    pub fn to_string(&self) -> (r: String)
        ensures
            r@ == self.text(),
    {
        let mut text = String::from_str("expected ");
        text.append(self.expected.name());
        text.append(" at byte ");
        text.append(number_string(self.position).as_str());
        text
    }
}

/// The recognizer's answer `r` is the match `m`.
pub open spec fn same_end(r: Result<usize, SyntaxError>, m: Result<int, SyntaxError>) -> bool {
    match (r, m) {
        (Ok(end), Ok(e)) => end as int == e,
        (Err(x), Err(y)) => x == y,
        _ => false,
    }
}

/// The recognizer's answer `r` is the match `m`, taken from the start of the input.
pub open spec fn same_span(r: Result<Span, SyntaxError>, m: Result<int, SyntaxError>) -> bool {
    match (r, m) {
        (Ok(matched), Ok(e)) => matched.start == 0 && matched.end as int == e,
        (Err(x), Err(y)) => x == y,
        _ => false,
    }
}

/// The recognizer's answer `r` is the level match `m`.
pub open spec fn same_level(
    r: Result<(LevelSyntax, usize), SyntaxError>,
    m: Result<(LevelSyntax, int), SyntaxError>,
) -> bool {
    match (r, m) {
        (Ok((level, end)), Ok((l, e))) => level == l && end as int == e,
        (Err(x), Err(y)) => x == y,
        _ => false,
    }
}

/// The recognizer's answer `r` is the match `m`, and it has added the levels of `m`
/// to those that it was given.
pub open spec fn same_levels(
    before: Seq<LevelSyntax>,
    after: Seq<LevelSyntax>,
    r: Result<usize, SyntaxError>,
    m: Result<(Seq<LevelSyntax>, int), SyntaxError>,
) -> bool {
    match (r, m) {
        (Ok(end), Ok((more, e))) => end as int == e && after == before + more,
        (Err(x), Err(y)) => x == y,
        _ => false,
    }
}

/// The recognizer's answer `r` is the match `m` of a whole order book.
pub open spec fn same_book(
    r: Result<BookSyntax, SyntaxError>,
    m: Result<(Seq<LevelSyntax>, Seq<LevelSyntax>), SyntaxError>,
) -> bool {
    match (r, m) {
        (Ok(book), Ok((bids, asks))) => book.bids@ == bids && book.asks@ == asks,
        (Err(x), Err(y)) => x == y,
        _ => false,
    }
}

fn is_space_byte(b: u8) -> (r: bool)
    ensures
        r == is_space(b),
{
    b == SPACE || b == TAB || b == CARRIAGE_RETURN || b == LINE_FEED
}

fn is_digit_byte(b: u8) -> (r: bool)
    ensures
        r == is_digit(b),
{
    0x30 <= b && b <= 0x39
}

fn skip_spaces_from(s: &[u8], i: usize) -> (r: usize)
    requires
        i <= s@.len(),
    ensures
        r == skip_spaces(s@, i as int),
        i <= r <= s@.len(),
{
    let mut j: usize = i;
    while j < s.len() && is_space_byte(s[j])
        invariant
            i <= j <= s@.len(),
            skip_spaces(s@, i as int) == skip_spaces(s@, j as int),
        decreases s@.len() - j,
    {
        j += 1;
    }
    j
}

fn skip_digits_from(s: &[u8], i: usize) -> (r: usize)
    requires
        i <= s@.len(),
    ensures
        r == skip_digits(s@, i as int),
        i <= r <= s@.len(),
{
    let mut j: usize = i;
    while j < s.len() && is_digit_byte(s[j])
        invariant
            i <= j <= s@.len(),
            skip_digits(s@, i as int) == skip_digits(s@, j as int),
        decreases s@.len() - j,
    {
        j += 1;
    }
    j
}

fn byte_at(s: &[u8], i: usize, b: u8, expected: Expected) -> (r: Result<usize, SyntaxError>)
    requires
        i <= s@.len(),
    ensures
        same_end(r, scan_byte(s@, i as int, b, expected)),
        r matches Ok(end) ==> end == i + 1 && end <= s@.len(),
{
    if i < s.len() && s[i] == b {
        Ok(i + 1)
    } else {
        Err(SyntaxError { position: i, expected })
    }
}

fn word_at(s: &[u8], i: usize, w0: u8, w1: u8, w2: u8, w3: u8, expected: Expected) -> (r: Result<
    usize,
    SyntaxError,
>)
    requires
        i <= s@.len(),
    ensures
        same_end(r, scan_word(s@, i as int, seq![w0, w1, w2, w3], expected)),
        r matches Ok(end) ==> end == i + 4 && end <= s@.len(),
{
    let ghost word = seq![w0, w1, w2, w3];
    if s.len() - i >= 4 && s[i] == w0 && s[i + 1] == w1 && s[i + 2] == w2 && s[i + 3] == w3 {
        assert(s@.subrange(i as int, i + 4) =~= word);
        Ok(i + 4)
    } else {
        proof {
            if i + 4 <= s@.len() {
                let t = s@.subrange(i as int, i + 4);
                assert(t[0] == s@[i as int] && t[1] == s@[i + 1] && t[2] == s@[i + 2] && t[3]
                    == s@[i + 3]);
                assert(word[0] == w0 && word[1] == w1 && word[2] == w2 && word[3] == w3);
            }
        }
        Err(SyntaxError { position: i, expected })
    }
}

fn whitespace_at(s: &[u8], i: usize) -> (r: Result<usize, SyntaxError>)
    requires
        i <= s@.len(),
    ensures
        same_end(r, scan_whitespace(s@, i as int)),
{
    if i < s.len() && is_space_byte(s[i]) {
        Ok(i + 1)
    } else {
        Err(SyntaxError { position: i, expected: Expected::Whitespace })
    }
}

fn digit_at(s: &[u8], i: usize) -> (r: Result<usize, SyntaxError>)
    requires
        i <= s@.len(),
    ensures
        same_end(r, scan_digit(s@, i as int)),
{
    if i < s.len() && is_digit_byte(s[i]) {
        Ok(i + 1)
    } else {
        Err(SyntaxError { position: i, expected: Expected::Digit })
    }
}

fn integer_at(s: &[u8], i: usize) -> (r: Result<usize, SyntaxError>)
    requires
        i <= s@.len(),
    ensures
        same_end(r, scan_integer(s@, i as int)),
        r matches Ok(end) ==> i < end <= s@.len(),
{
    if i < s.len() && is_digit_byte(s[i]) {
        proof {
            lemma_skip_digits_bounds(s@, i + 1);
        }
        Ok(skip_digits_from(s, i))
    } else {
        Err(SyntaxError { position: i, expected: Expected::Digit })
    }
}

fn number_at(s: &[u8], i: usize) -> (r: Result<usize, SyntaxError>)
    requires
        i <= s@.len(),
    ensures
        same_end(r, scan_number(s@, i as int)),
        r matches Ok(end) ==> i < end <= s@.len(),
{
    match integer_at(s, i) {
        Err(e) => Err(e),
        Ok(j) => {
            if j < s.len() && s.len() - j > 1 && s[j] == DOT && is_digit_byte(s[j + 1]) {
                Ok(skip_digits_from(s, j + 1))
            } else {
                Ok(j)
            }
        },
    }
}

fn level_at(s: &[u8], i: usize) -> (r: Result<(LevelSyntax, usize), SyntaxError>)
    requires
        i <= s@.len(),
    ensures
        same_level(r, scan_level(s@, i as int)),
        r matches Ok((_, end)) ==> i < end <= s@.len(),
{
    let price_end = match number_at(s, i) {
        Err(e) => { return Err(e); },
        Ok(end) => end,
    };
    let comma = skip_spaces_from(s, price_end);
    let after_comma = match byte_at(s, comma, COMMA, Expected::Comma) {
        Err(e) => { return Err(e); },
        Ok(end) => end,
    };
    let quantity_start = skip_spaces_from(s, after_comma);
    let quantity_end = match number_at(s, quantity_start) {
        Err(e) => { return Err(e); },
        Ok(end) => end,
    };
    Ok(
        (
            LevelSyntax {
                price: Span { start: i, end: price_end },
                quantity: Span { start: quantity_start, end: quantity_end },
            },
            quantity_end,
        ),
    )
}

fn more_levels_at(s: &[u8], i: usize, levels: &mut Vec<LevelSyntax>) -> (r: Result<
    usize,
    SyntaxError,
>)
    requires
        i <= s@.len(),
    ensures
        same_levels(old(levels)@, final(levels)@, r, scan_more_levels(s@, i as int)),
        r matches Ok(end) ==> i <= end <= s@.len(),
{
    let ghost before = levels@;
    let mut at: usize = i;
    loop
        invariant
            i <= at <= s@.len(),
            before == old(levels)@,
            before.len() <= levels@.len(),
            levels@.take(before.len() as int) == before,
            scan_more_levels(s@, i as int) == prepend(
                levels@.skip(before.len() as int),
                scan_more_levels(s@, at as int),
            ),
        decreases s@.len() - at,
    {
        let bar = skip_spaces_from(s, at);
        if bar < s.len() && s[bar] == PIPE {
            let start = skip_spaces_from(s, bar + 1);
            match level_at(s, start) {
                Err(e) => {
                    return Err(e);
                },
                Ok((level, end)) => {
                    let ghost pushed = levels@.skip(before.len() as int);
                    let ghost rest = scan_more_levels(s@, end as int);
                    levels.push(level);
                    proof {
                        assert(levels@.skip(before.len() as int) =~= pushed + seq![level]);
                        assert(levels@.take(before.len() as int) =~= before);
                        if let Ok((more, e)) = rest {
                            assert((pushed + seq![level]) + more =~= pushed + (seq![level] + more));
                        }
                    }
                    at = end;
                },
            }
        } else {
            proof {
                let pushed = levels@.skip(before.len() as int);
                assert(pushed + Seq::<LevelSyntax>::empty() =~= pushed);
                assert(levels@ =~= before + pushed);
            }
            return Ok(at);
        }
    }
}

fn level_list_at(s: &[u8], i: usize, levels: &mut Vec<LevelSyntax>) -> (r: Result<
    usize,
    SyntaxError,
>)
    requires
        i <= s@.len(),
    ensures
        same_levels(old(levels)@, final(levels)@, r, scan_level_list(s@, i as int)),
        r matches Ok(end) ==> i <= end <= s@.len(),
{
    if i < s.len() && is_digit_byte(s[i]) {
        match level_at(s, i) {
            Err(e) => Err(e),
            Ok((level, end)) => {
                let ghost before = levels@;
                levels.push(level);
                assert(levels@ =~= before + seq![level]);
                let r = more_levels_at(s, end, levels);
                proof {
                    if let Ok((more, e)) = scan_more_levels(s@, end as int) {
                        assert((before + seq![level]) + more =~= before + (seq![level] + more));
                    }
                }
                r
            },
        }
    } else {
        more_levels_at(s, i, levels)
    }
}

fn side_at(
    s: &[u8],
    i: usize,
    w0: u8,
    w1: u8,
    w2: u8,
    w3: u8,
    expected: Expected,
    levels: &mut Vec<LevelSyntax>,
) -> (r: Result<usize, SyntaxError>)
    requires
        i <= s@.len(),
    ensures
        same_levels(
            old(levels)@,
            final(levels)@,
            r,
            scan_side(s@, i as int, seq![w0, w1, w2, w3], expected),
        ),
        r matches Ok(end) ==> i <= end <= s@.len(),
{
    let after_word = match word_at(s, i, w0, w1, w2, w3, expected) {
        Err(e) => { return Err(e); },
        Ok(end) => end,
    };
    let colon = skip_spaces_from(s, after_word);
    let after_colon = match byte_at(s, colon, COLON, Expected::Colon) {
        Err(e) => { return Err(e); },
        Ok(end) => end,
    };
    let start = skip_spaces_from(s, after_colon);
    level_list_at(s, start, levels)
}

fn order_book_in(s: &[u8]) -> (r: Result<BookSyntax, SyntaxError>)
    ensures
        same_book(r, scan_order_book(s@)),
        r matches Ok(book) ==> levels_in(s@, book.bids@) && levels_in(s@, book.asks@),
{
    let mut bids: Vec<LevelSyntax> = Vec::new();
    let mut asks: Vec<LevelSyntax> = Vec::new();
    let start = skip_spaces_from(s, 0);
    let bids_end = match side_at(s, start, 0x42, 0x49, 0x44, 0x53, Expected::Bids, &mut bids) {
        Err(e) => { return Err(e); },
        Ok(end) => end,
    };
    let semicolon = skip_spaces_from(s, bids_end);
    let after_semicolon = match byte_at(s, semicolon, SEMICOLON, Expected::Semicolon) {
        Err(e) => { return Err(e); },
        Ok(end) => end,
    };
    let asks_start = skip_spaces_from(s, after_semicolon);
    let asks_end = match side_at(s, asks_start, 0x41, 0x53, 0x4B, 0x53, Expected::Asks, &mut asks) {
        Err(e) => { return Err(e); },
        Ok(end) => end,
    };
    let end = skip_spaces_from(s, asks_end);
    if end == s.len() {
        proof {
            lemma_order_book_levels_in(s@);
            assert(Seq::<LevelSyntax>::empty() + bids@ =~= bids@);
            assert(Seq::<LevelSyntax>::empty() + asks@ =~= asks@);
        }
        Ok(BookSyntax { bids, asks })
    } else {
        Err(SyntaxError { position: end, expected: Expected::EndOfInput })
    }
}

impl OrderBookParser {
    /// Matches `rule` at the start of `input`, and says where the match ends or why
    /// there is none. Only `order_book` has to take in the whole input.
    pub fn parse(rule: Rule, input: &str) -> (r: Result<Span, SyntaxError>)
        ensures
            same_span(r, scan_rule(rule, input.spec_bytes())),
    {
        let s = input.as_bytes();
        let mut levels: Vec<LevelSyntax> = Vec::new();
        let end = match rule {
            Rule::WHITESPACE => whitespace_at(s, 0),
            Rule::ASCII_DIGIT => digit_at(s, 0),
            Rule::integer => integer_at(s, 0),
            Rule::number => number_at(s, 0),
            Rule::level => match level_at(s, 0) {
                Ok((_, end)) => Ok(end),
                Err(e) => Err(e),
            },
            Rule::level_list => level_list_at(s, 0, &mut levels),
            Rule::bids_identifier => word_at(s, 0, 0x42, 0x49, 0x44, 0x53, Expected::Bids),
            Rule::asks_identifier => word_at(s, 0, 0x41, 0x53, 0x4B, 0x53, Expected::Asks),
            Rule::bids_side => side_at(s, 0, 0x42, 0x49, 0x44, 0x53, Expected::Bids, &mut levels),
            Rule::asks_side => side_at(s, 0, 0x41, 0x53, 0x4B, 0x53, Expected::Asks, &mut levels),
            Rule::order_book => match order_book_in(s) {
                Ok(_) => Ok(s.len()),
                Err(e) => Err(e),
            },
        };
        match end {
            Ok(end) => Ok(Span { start: 0, end }),
            Err(e) => Err(e),
        }
    }

    /// Reads a whole order book and tells where each level's numbers stand.
    pub fn parse_book(input: &str) -> (r: Result<BookSyntax, SyntaxError>)
        ensures
            same_book(r, scan_order_book(input.spec_bytes())),
            r is Ok <==> is_order_book(input.spec_bytes()),
            r matches Ok(book) ==> levels_in(input.spec_bytes(), book.bids@) && levels_in(
                input.spec_bytes(),
                book.asks@,
            ),
    {
        proof {
            lemma_recognizer_accepts_the_language(input.spec_bytes());
        }
        order_book_in(input.as_bytes())
    }
}

} // verus!
