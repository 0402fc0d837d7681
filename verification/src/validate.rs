//! The checks that a book passes before it is handed out: the order of each side,
//! the top of the book, and the rules of the instrument.

use crate::book::{levels_wf, InstrumentConfig, Level, OrderBook};
use crate::decimal::{checked_rem, Decimal};
use crate::error::{rejects, written, OrderBookError};
use vstd::prelude::*;
use vstd::string::StringExecFns;

verus! {

/// `next` may stand behind `prev` on a side: strictly below it among the bids
/// (`descending`), strictly above it among the asks.
pub open spec fn follows(descending: bool, prev: Decimal, next: Decimal) -> bool {
    if descending {
        next.value_lt(prev)
    } else {
        prev.value_lt(next)
    }
}

/// Each level's price follows that of the level before it.
pub open spec fn ordered(descending: bool, levels: Seq<Level>) -> bool {
    forall|k: int|
        0 < k < levels.len() ==> follows(descending, levels[k - 1].price, #[trigger] levels[k].price)
}

/// The first index from `from` on whose level does not follow the level before it.
pub open spec fn first_fault(descending: bool, levels: Seq<Level>, from: int) -> Option<int>
    decreases levels.len() - from,
{
    if from < 1 || from >= levels.len() {
        None
    } else if !follows(descending, levels[from - 1].price, levels[from].price) {
        Some(from)
    } else {
        first_fault(descending, levels, from + 1)
    }
}

/// What is wrong with `next` standing behind `prev`: equal prices are a duplicate,
/// named by the first; any other pair is out of order, named by the second.
pub open spec fn fault_between(descending: bool, prev: Level, next: Level) -> OrderBookError {
    if prev.price.value_eq(next.price) {
        OrderBookError::DuplicatePrice(prev.price)
    } else if descending {
        OrderBookError::BidsUnsorted(next.price)
    } else {
        OrderBookError::AsksUnsorted(next.price)
    }
}

/// The first fault in the order of a side, if it has one.
pub open spec fn side_error(descending: bool, levels: Seq<Level>) -> Option<OrderBookError> {
    match first_fault(descending, levels, 1) {
        Some(k) => Some(fault_between(descending, levels[k - 1], levels[k])),
        None => None,
    }
}

/// Both sides have a level and the best bid is not below the best ask.
pub open spec fn crossed(bids: Seq<Level>, asks: Seq<Level>) -> bool {
    bids.len() > 0 && asks.len() > 0 && asks[0].price.value_le(bids[0].price)
}

/// The first fault of a book's structure: the order of the bids, then that of the
/// asks, then the top of the book. Levels below the top are not held against the
/// other side.
pub open spec fn structural_error(bids: Seq<Level>, asks: Seq<Level>) -> Option<OrderBookError> {
    if side_error(true, bids) is Some {
        side_error(true, bids)
    } else if side_error(false, asks) is Some {
        side_error(false, asks)
    } else if crossed(bids, asks) {
        Some(OrderBookError::CrossedBook(bids[0].price, asks[0].price))
    } else {
        None
    }
}

/// `value` keeps to the step: `rust_decimal` finds a remainder of `value` by `step`,
/// and it is zero. A step of zero sets no rule, and every value keeps to it.
pub open spec fn is_multiple_of(value: Decimal, step: Decimal) -> bool {
    step.mantissa == 0 || (value.spec_rem(step) matches Some(rest) && rest.mantissa == 0)
}

/// The level keeps every rule of the instrument.
pub open spec fn conforms(level: Level, config: InstrumentConfig) -> bool {
    &&& is_multiple_of(level.price, config.tick_size)
    &&& config.min_lot.value_le(level.quantity)
    &&& is_multiple_of(level.quantity, config.lot_step)
}

/// The first rule that the level breaks: tick size, then minimum lot, then lot step.
pub open spec fn level_error(level: Level, config: InstrumentConfig) -> Option<OrderBookError> {
    if !is_multiple_of(level.price, config.tick_size) {
        Some(OrderBookError::InvalidTickSize(level.price, config.tick_size))
    } else if level.quantity.value_lt(config.min_lot) {
        Some(OrderBookError::InvalidMinLot(level.quantity, config.min_lot))
    } else if !is_multiple_of(level.quantity, config.lot_step) {
        Some(OrderBookError::InvalidLotStep(level.quantity, config.lot_step))
    } else {
        None
    }
}

/// The error of the first level from `from` on that breaks a rule.
pub open spec fn levels_error(levels: Seq<Level>, config: InstrumentConfig, from: int) -> Option<
    OrderBookError,
>
    decreases levels.len() - from,
{
    if from < 0 || from >= levels.len() {
        None
    } else if level_error(levels[from], config) is Some {
        level_error(levels[from], config)
    } else {
        levels_error(levels, config, from + 1)
    }
}

/// The error of the first level that breaks a rule of the instrument, the bids
/// taken before the asks.
pub open spec fn instrument_error(bids: Seq<Level>, asks: Seq<Level>, config: InstrumentConfig)
    -> Option<OrderBookError> {
    if levels_error(bids, config, 0) is Some {
        levels_error(bids, config, 0)
    } else {
        levels_error(asks, config, 0)
    }
}

/// The book has no fault of structure.
pub open spec fn validated(bids: Seq<Level>, asks: Seq<Level>) -> bool {
    ordered(true, bids) && ordered(false, asks) && !crossed(bids, asks)
}

/// What `first_fault` finds from `from` on is the first fault there, and it finds
/// none only where there is none.
pub proof fn lemma_first_fault_from(descending: bool, levels: Seq<Level>, from: int)
    requires
        1 <= from,
    ensures
        match first_fault(descending, levels, from) {
            None => forall|k: int|
                from <= k < levels.len() ==> follows(
                    descending,
                    levels[k - 1].price,
                    #[trigger] levels[k].price,
                ),
            Some(at) => {
                &&& from <= at < levels.len()
                &&& !follows(descending, levels[at - 1].price, levels[at].price)
                &&& forall|k: int|
                    from <= k < at ==> follows(
                        descending,
                        levels[k - 1].price,
                        #[trigger] levels[k].price,
                    )
            },
        },
    decreases levels.len() - from,
{
    if from < levels.len() && follows(descending, levels[from - 1].price, levels[from].price) {
        lemma_first_fault_from(descending, levels, from + 1);
    }
}

/// A side has no fault exactly when it is ordered.
pub proof fn lemma_no_fault_iff_ordered(descending: bool, levels: Seq<Level>)
    ensures
        side_error(descending, levels) is None <==> ordered(descending, levels),
{
    lemma_first_fault_from(descending, levels, 1);
}

/// The fault of a side is that of the first pair of neighbours out of order: where
/// the levels before index `at` are ordered and the level at `at` does not follow
/// the one before it, the side's error is the fault between those two.
pub proof fn lemma_fault_at(descending: bool, levels: Seq<Level>, at: int)
    requires
        0 < at < levels.len(),
        ordered(descending, levels.take(at)),
        !follows(descending, levels[at - 1].price, levels[at].price),
    ensures
        side_error(descending, levels) == Some(
            fault_between(descending, levels[at - 1], levels[at]),
        ),
{
    lemma_first_fault_from(descending, levels, 1);
    let found = first_fault(descending, levels, 1);
    assert(found is Some);
    let k = found.unwrap();
    if k < at {
        let head = levels.take(at);
        assert(head[k] == levels[k] && head[k - 1] == levels[k - 1]);
        assert(follows(descending, head[k - 1].price, head[k].price));
    }
}

/// A book has no fault of structure exactly when it is validated.
pub proof fn lemma_structural_error_iff(bids: Seq<Level>, asks: Seq<Level>)
    ensures
        structural_error(bids, asks) is None <==> validated(bids, asks),
{
    lemma_no_fault_iff_ordered(true, bids);
    lemma_no_fault_iff_ordered(false, asks);
}

/// A level breaks no rule exactly when it conforms.
pub proof fn lemma_level_error_iff(level: Level, config: InstrumentConfig)
    ensures
        level_error(level, config) is None <==> conforms(level, config),
{
}

/// What `levels_error` finds from `from` on is the error of the first level there
/// that does not conform, and it finds none only where every level conforms.
pub proof fn lemma_levels_error_from(levels: Seq<Level>, config: InstrumentConfig, from: int)
    requires
        0 <= from,
    ensures
        match levels_error(levels, config, from) {
            None => forall|k: int|
                from <= k < levels.len() ==> conforms(#[trigger] levels[k], config),
            Some(e) => exists|at: int|
                {
                    &&& from <= at < levels.len()
                    &&& level_error(#[trigger] levels[at], config) == Some(e)
                    &&& forall|k: int| from <= k < at ==> conforms(#[trigger] levels[k], config)
                },
        },
    decreases levels.len() - from,
{
    if from < levels.len() {
        if level_error(levels[from], config) is Some {
            assert(forall|k: int| from <= k < from ==> conforms(#[trigger] levels[k], config));
        } else {
            lemma_levels_error_from(levels, config, from + 1);
            if let Some(e) = levels_error(levels, config, from + 1) {
                let at = choose|at: int|
                    {
                        &&& from + 1 <= at < levels.len()
                        &&& level_error(#[trigger] levels[at], config) == Some(e)
                        &&& forall|k: int|
                            from + 1 <= k < at ==> conforms(#[trigger] levels[k], config)
                    };
                assert(from <= at < levels.len() && level_error(levels[at], config) == Some(e));
                assert forall|k: int| from <= k < at implies conforms(
                    #[trigger] levels[k],
                    config,
                ) by {}
            }
        }
    }
}

/// Where the levels before index `at` conform and the level at `at` does not, the
/// error of the levels is that of the level at `at`.
pub proof fn lemma_breach_at(levels: Seq<Level>, config: InstrumentConfig, at: int)
    requires
        0 <= at < levels.len(),
        forall|k: int| 0 <= k < at ==> conforms(#[trigger] levels[k], config),
        !conforms(levels[at], config),
    ensures
        levels_error(levels, config, 0) == level_error(levels[at], config),
        level_error(levels[at], config) is Some,
{
    lemma_breach_from(levels, config, 0, at);
}

proof fn lemma_breach_from(levels: Seq<Level>, config: InstrumentConfig, from: int, at: int)
    requires
        0 <= from <= at < levels.len(),
        forall|k: int| from <= k < at ==> conforms(#[trigger] levels[k], config),
        !conforms(levels[at], config),
    ensures
        levels_error(levels, config, from) == level_error(levels[at], config),
        level_error(levels[at], config) is Some,
    decreases at - from,
{
    if from < at {
        assert(conforms(levels[from], config));
        lemma_breach_from(levels, config, from + 1, at);
    }
}

/// The error of the bids and the asks is that of the two sides taken as one run of
/// levels, the bids first.
pub proof fn lemma_instrument_error_of_both(
    bids: Seq<Level>,
    asks: Seq<Level>,
    config: InstrumentConfig,
)
    ensures
        instrument_error(bids, asks, config) == levels_error(bids + asks, config, 0),
{
    lemma_error_of_both_from(bids, asks, config, 0);
    lemma_error_of_tail(bids, asks, config, 0);
}

proof fn lemma_error_of_both_from(
    bids: Seq<Level>,
    asks: Seq<Level>,
    config: InstrumentConfig,
    from: int,
)
    requires
        0 <= from <= bids.len(),
    ensures
        levels_error(bids + asks, config, from) == if levels_error(bids, config, from) is Some {
            levels_error(bids, config, from)
        } else {
            levels_error(bids + asks, config, bids.len() as int)
        },
    decreases bids.len() - from,
{
    if from < bids.len() {
        assert((bids + asks)[from] == bids[from]);
        lemma_error_of_both_from(bids, asks, config, from + 1);
    }
}

proof fn lemma_error_of_tail(
    bids: Seq<Level>,
    asks: Seq<Level>,
    config: InstrumentConfig,
    from: int,
)
    requires
        0 <= from <= asks.len(),
    ensures
        levels_error(bids + asks, config, bids.len() + from) == levels_error(asks, config, from),
    decreases asks.len() - from,
{
    if from < asks.len() {
        assert((bids + asks)[bids.len() + from] == asks[from]);
        lemma_error_of_tail(bids, asks, config, from + 1);
    }
}

fn check_order(descending: bool, levels: &Vec<Level>) -> (r: Result<(), OrderBookError>)
    requires
        levels_wf(levels@),
    ensures
        rejects(r, side_error(descending, levels@)),
        r matches Err(e) ==> e.wf() && e.is_fault(),
{
    let mut k: usize = 1;
    while k < levels.len()
        invariant
            1 <= k,
            levels_wf(levels@),
            first_fault(descending, levels@, 1) == first_fault(descending, levels@, k as int),
        decreases levels.len() - k,
    {
        let prev = levels[k - 1];
        let next = levels[k];
        if prev.price.eq_value(next.price) {
            return Err(OrderBookError::DuplicatePrice(prev.price));
        }
        if descending {
            if prev.price.lt(next.price) {
                return Err(OrderBookError::BidsUnsorted(next.price));
            }
        } else {
            if next.price.lt(prev.price) {
                return Err(OrderBookError::AsksUnsorted(next.price));
            }
        }
        k += 1;
    }
    Ok(())
}

/// Checks the order of both sides and the top of the book.
pub fn validate_book_logic(book: &OrderBook) -> (r: Result<(), OrderBookError>)
    requires
        book.wf(),
    ensures
        rejects(r, structural_error(book.bids@, book.asks@)),
        r matches Err(e) ==> e.wf() && e.is_fault(),
{
    match check_order(true, &book.bids) {
        Err(e) => { return Err(e); },
        Ok(_) => {},
    }
    match check_order(false, &book.asks) {
        Err(e) => { return Err(e); },
        Ok(_) => {},
    }
    if book.bids.len() > 0 && book.asks.len() > 0 {
        let bid = book.bids[0];
        let ask = book.asks[0];
        if ask.price.le(bid.price) {
            return Err(OrderBookError::CrossedBook(bid.price, ask.price));
        }
    }
    Ok(())
}

fn is_multiple(value: Decimal, step: Decimal) -> (r: bool)
    requires
        value.wf(),
        step.wf(),
    ensures
        r == is_multiple_of(value, step),
{
    if step.mantissa == 0 {
        return true;
    }
    match checked_rem(value, step) {
        Some(rest) => rest.mantissa == 0,
        None => false,
    }
}

fn check_level(level: Level, config: &InstrumentConfig) -> (r: Result<(), OrderBookError>)
    requires
        level.wf(),
        config.wf(),
    ensures
        rejects(r, level_error(level, *config)),
        r matches Err(e) ==> e.wf() && e.is_fault(),
{
    if !is_multiple(level.price, config.tick_size) {
        Err(OrderBookError::InvalidTickSize(level.price, config.tick_size))
    } else if level.quantity.lt(config.min_lot) {
        Err(OrderBookError::InvalidMinLot(level.quantity, config.min_lot))
    } else if !is_multiple(level.quantity, config.lot_step) {
        Err(OrderBookError::InvalidLotStep(level.quantity, config.lot_step))
    } else {
        Ok(())
    }
}

fn check_levels(levels: &Vec<Level>, config: &InstrumentConfig) -> (r: Result<(), OrderBookError>)
    requires
        levels_wf(levels@),
        config.wf(),
    ensures
        rejects(r, levels_error(levels@, *config, 0)),
        r matches Err(e) ==> e.wf() && e.is_fault(),
{
    let mut k: usize = 0;
    while k < levels.len()
        invariant
            levels_wf(levels@),
            config.wf(),
            levels_error(levels@, *config, 0) == levels_error(levels@, *config, k as int),
        decreases levels.len() - k,
    {
        match check_level(levels[k], config) {
            Err(e) => { return Err(e); },
            Ok(_) => {},
        }
        k += 1;
    }
    Ok(())
}

/// Holds every level against the rules of the instrument, the bids before the asks.
pub fn validate_instrument_rules(book: &OrderBook, config: &InstrumentConfig) -> (r: Result<
    (),
    OrderBookError,
>)
    requires
        book.wf(),
        config.wf(),
    ensures
        rejects(r, instrument_error(book.bids@, book.asks@, *config)),
        r matches Err(e) ==> e.wf() && e.is_fault(),
{
    match check_levels(&book.bids, config) {
        Err(e) => Err(e),
        Ok(_) => check_levels(&book.asks, config),
    }
}

/// Why the quantity of an order is refused.
#[derive(Clone, Copy, Debug)]
pub enum OrderParamsError {
    /// The quantity, given first, is below the minimum lot.
    BelowMinLot(Decimal, Decimal),
    /// The quantity, given first, is not a multiple of the lot step.
    OffLotStep(Decimal, Decimal),
}

/// The first rule of the instrument that an order for `quantity` breaks: minimum
/// lot, then lot step.
pub open spec fn order_params_error(quantity: Decimal, config: InstrumentConfig) -> Option<
    OrderParamsError,
> {
    if quantity.value_lt(config.min_lot) {
        Some(OrderParamsError::BelowMinLot(quantity, config.min_lot))
    } else if !is_multiple_of(quantity, config.lot_step) {
        Some(OrderParamsError::OffLotStep(quantity, config.lot_step))
    } else {
        None
    }
}

/// The answer `r` of the check is the verdict `fault`.
pub open spec fn refuses(r: Result<(), OrderParamsError>, fault: Option<OrderParamsError>) -> bool {
    match (r, fault) {
        (Ok(_), None) => true,
        (Err(e), Some(f)) => e == f,
        _ => false,
    }
}

/// Holds the quantity of an order against the lot rules of the instrument.
pub fn validate_order_params(quantity: Decimal, config: &InstrumentConfig) -> (r: Result<
    (),
    OrderParamsError,
>)
    requires
        quantity.wf(),
        config.wf(),
    ensures
        refuses(r, order_params_error(quantity, *config)),
        r matches Err(e) ==> e.wf(),
{
    if quantity.lt(config.min_lot) {
        Err(OrderParamsError::BelowMinLot(quantity, config.min_lot))
    } else if !is_multiple(quantity, config.lot_step) {
        Err(OrderParamsError::OffLotStep(quantity, config.lot_step))
    } else {
        Ok(())
    }
}

impl OrderParamsError {
    /// The decimals that the refusal carries are in range.
    pub open spec fn wf(self) -> bool {
        match self {
            OrderParamsError::BelowMinLot(quantity, lot) => quantity.wf() && lot.wf(),
            OrderParamsError::OffLotStep(quantity, step) => quantity.wf() && step.wf(),
        }
    }

    /// The refusal in words.
    pub open spec fn text(self) -> Seq<char> {
        match self {
            OrderParamsError::BelowMinLot(quantity, lot) => "Order amount "@ + written(quantity)
                + " is less than minimum lot "@ + written(lot),
            OrderParamsError::OffLotStep(quantity, step) => "Order amount "@ + written(quantity)
                + " must be a multiple of lot step "@ + written(step),
        }
    }

    /// The refusal in words.
    pub fn to_string(&self) -> (r: String)
        requires
            self.wf(),
        ensures
            r@ == self.text(),
    {
        match self {
            OrderParamsError::BelowMinLot(quantity, lot) => {
                let mut text = String::from_str("Order amount ");
                text.append(quantity.to_string().as_str());
                text.append(" is less than minimum lot ");
                text.append(lot.to_string().as_str());
                text
            },
            OrderParamsError::OffLotStep(quantity, step) => {
                let mut text = String::from_str("Order amount ");
                text.append(quantity.to_string().as_str());
                text.append(" must be a multiple of lot step ");
                text.append(step.to_string().as_str());
                text
            },
        }
    }
}

} // verus!
