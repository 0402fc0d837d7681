//! Market orders: an order walks the other side of the book from its best level,
//! takes each level whole while the level is no larger than what is still asked
//! for, and takes a part of the level at which it ends. What it cannot fill is
//! dropped.
//!
//! The sums, products and the quotient are those of `rust_decimal`. Where one of
//! them does not exist the order has no outcome: `execute_market_order` leaves such
//! orders out, and `try_execute_market_order` finds them.

use crate::book::{levels_wf, Level, OrderBook, Position, Side};
use crate::decimal::{checked_add, checked_div, checked_mul, checked_sub, Decimal};
use crate::error::OrderBookError;
use crate::validate::{follows, ordered, validated};
use vstd::prelude::*;

verus! {

/// What a walk over one side has filled so far.
#[derive(Clone, Copy, Debug)]
pub struct Totals {
    /// What is still asked for.
    pub remaining: Decimal,
    /// The sum of price times quantity over what was taken.
    pub cost: Decimal,
    /// The sum of the quantities taken.
    pub filled: Decimal,
}

/// The outcome of a walk: the totals and the levels that it leaves on the side.
pub struct Fill {
    pub cost: Decimal,
    pub filled: Decimal,
    pub left: Seq<Level>,
}

impl Totals {
    /// The three decimals of the totals are in range.
    pub open spec fn wf(self) -> bool {
        self.remaining.wf() && self.cost.wf() && self.filled.wf()
    }

    /// The totals of an order for `quantity` that has taken nothing yet.
    pub open spec fn start(quantity: Decimal) -> Totals {
        Totals { remaining: quantity, cost: Decimal::spec_zero(), filled: Decimal::spec_zero() }
    }

    /// The totals with `quantity` of `level` added to what was filled and its price
    /// times `quantity` to the cost, if both can be computed.
    pub open spec fn with_fill(self, level: Level, quantity: Decimal) -> Option<Totals> {
        match level.price.spec_mul(quantity) {
            None => None,
            Some(value) => match (self.cost.spec_add(value), self.filled.spec_add(quantity)) {
                (Some(cost), Some(filled)) => Some(
                    Totals { remaining: self.remaining, cost, filled },
                ),
                _ => None,
            },
        }
    }

    /// The totals after the whole of `level` was taken: its quantity is added to
    /// what was filled and taken from what remains.
    pub open spec fn take(self, level: Level) -> Option<Totals> {
        match (self.with_fill(level, level.quantity), self.remaining.spec_sub(level.quantity)) {
            (Some(added), Some(remaining)) => Some(
                Totals { remaining, cost: added.cost, filled: added.filled },
            ),
            _ => None,
        }
    }
}

/// Walks `levels` from the front with the totals so far. A level that is no larger
/// than what remains is taken whole and leaves the side; a larger one gives what
/// remains, keeps the rest, and ends the walk. `None` where a sum, a difference or
/// a product on the way does not exist.
pub open spec fn fill_from(levels: Seq<Level>, totals: Totals) -> Option<Fill>
    decreases levels.len(),
{
    if levels.len() == 0 || totals.remaining.units() <= 0 {
        Some(Fill { cost: totals.cost, filled: totals.filled, left: levels })
    } else if levels.first().quantity.value_le(totals.remaining) {
        match totals.take(levels.first()) {
            None => None,
            Some(next) => fill_from(levels.drop_first(), next),
        }
    } else {
        match (
            totals.with_fill(levels.first(), totals.remaining),
            levels.first().quantity.spec_sub(totals.remaining),
        ) {
            (Some(next), Some(rest)) => Some(
                Fill {
                    cost: next.cost,
                    filled: next.filled,
                    left: seq![Level { price: levels.first().price, quantity: rest }]
                        + levels.drop_first(),
                },
            ),
            _ => None,
        }
    }
}

/// The walk of an order for `quantity` over `levels`.
pub open spec fn market_fill(levels: Seq<Level>, quantity: Decimal) -> Option<Fill> {
    fill_from(levels, Totals::start(quantity))
}

/// The side that an order of `side` takes from: a buy takes asks, a sell takes bids.
pub open spec fn opposite(book: OrderBook, side: Side) -> Seq<Level> {
    match side {
        Side::Buy => book.asks@,
        Side::Sell => book.bids@,
    }
}

/// The side that an order of `side` leaves alone.
pub open spec fn own(book: OrderBook, side: Side) -> Seq<Level> {
    match side {
        Side::Buy => book.bids@,
        Side::Sell => book.asks@,
    }
}

/// The error of an order that fills nothing.
pub open spec fn nothing_filled(quantity: Decimal) -> OrderBookError {
    OrderBookError::NotEnoughLiquidity(quantity, Decimal::spec_zero())
}

/// An order for `quantity` over `levels` has an outcome: it asks for nothing, or
/// its walk exists and, where it fills anything, so does the average price.
pub open spec fn fill_exists(levels: Seq<Level>, quantity: Decimal) -> bool {
    quantity.units() > 0 ==> (market_fill(levels, quantity) matches Some(fill) && (fill.filled.units()
        != 0 ==> fill.cost.spec_div(fill.filled) is Some))
}

/// `after` and `r` are what an order of `side` for `quantity` makes of `before`.
///
/// An order for nothing or less, and one that fills nothing, fail and leave the
/// book as it was. Any other order succeeds, with the quantity that it filled and
/// the cost of the fill divided by that quantity as its entry price, and leaves on
/// the other side what its walk has left.
pub open spec fn executed(
    before: OrderBook,
    after: OrderBook,
    side: Side,
    quantity: Decimal,
    r: Result<Position, OrderBookError>,
) -> bool
    recommends
        fill_exists(opposite(before, side), quantity),
{
    let fill = market_fill(opposite(before, side), quantity);
    if quantity.units() <= 0 || fill.unwrap().filled.units() == 0 {
        &&& r matches Err(e)
        &&& e == nothing_filled(quantity)
        &&& after.bids@ == before.bids@
        &&& after.asks@ == before.asks@
    } else {
        &&& r matches Ok(position)
        &&& position.side == side
        &&& position.quantity == fill.unwrap().filled
        &&& Some(position.entry_price) == fill.unwrap().cost.spec_div(fill.unwrap().filled)
        &&& opposite(after, side) == fill.unwrap().left
        &&& own(after, side) == own(before, side)
    }
}

/// `rust_decimal` has a sum of `a` and `b`, and it is their sum exactly.
pub open spec fn exact_sum(a: Decimal, b: Decimal) -> bool {
    a.spec_add(b) matches Some(c) && c.units() == a.units() + b.units()
}

/// `rust_decimal` has a difference of `a` and `b`, and it is their difference exactly.
pub open spec fn exact_difference(a: Decimal, b: Decimal) -> bool {
    a.spec_sub(b) matches Some(c) && c.units() == a.units() - b.units()
}

/// Each quantity that the walk adds to what is filled, and each that it takes from
/// what remains, is added and taken exactly.
pub open spec fn walk_is_exact(levels: Seq<Level>, totals: Totals) -> bool
    decreases levels.len(),
{
    if levels.len() == 0 || totals.remaining.units() <= 0 {
        true
    } else if levels.first().quantity.value_le(totals.remaining) {
        &&& exact_sum(totals.filled, levels.first().quantity)
        &&& exact_difference(totals.remaining, levels.first().quantity)
        &&& totals.take(levels.first()) matches Some(next) ==> walk_is_exact(
            levels.drop_first(),
            next,
        )
    } else {
        exact_sum(totals.filled, totals.remaining)
    }
}

/// `left` is `levels` from index `from` on, but for the quantity of its first level.
pub open spec fn is_tail_of(left: Seq<Level>, levels: Seq<Level>, from: int) -> bool {
    &&& 0 <= from <= levels.len()
    &&& left.len() == levels.len() - from
    &&& forall|j: int| 0 <= j < left.len() ==> (#[trigger] left[j]).price == levels[from + j].price
    &&& forall|j: int| 0 < j < left.len() ==> #[trigger] left[j] == levels[from + j]
}

/// `left` is a tail of `levels`, but for the quantity of its first level.
pub open spec fn is_tail(left: Seq<Level>, levels: Seq<Level>) -> bool {
    exists|from: int| #[trigger] is_tail_of(left, levels, from)
}

/// A walk takes levels from the front only: what it leaves is a tail of the side,
/// with every price as it was and every quantity but the first as it was.
pub proof fn lemma_fill_leaves_tail(levels: Seq<Level>, totals: Totals)
    ensures
        fill_from(levels, totals) matches Some(fill) ==> is_tail(fill.left, levels),
    decreases levels.len(),
{
    if levels.len() == 0 || totals.remaining.units() <= 0 {
        assert(is_tail_of(levels, levels, 0));
    } else if levels.first().quantity.value_le(totals.remaining) {
        if let Some(next) = totals.take(levels.first()) {
            let rest = levels.drop_first();
            lemma_fill_leaves_tail(rest, next);
            if let Some(fill) = fill_from(rest, next) {
                let from = choose|from: int| #[trigger] is_tail_of(fill.left, rest, from);
                assert forall|j: int| 0 <= j < fill.left.len() implies (#[trigger] fill.left[j]).price
                    == levels[from + 1 + j].price by {
                    assert(rest[from + j] == levels[from + 1 + j]);
                }
                assert forall|j: int| 0 < j < fill.left.len() implies #[trigger] fill.left[j]
                    == levels[from + 1 + j] by {
                    assert(rest[from + j] == levels[from + 1 + j]);
                }
                assert(is_tail_of(fill.left, levels, from + 1));
            }
        }
    } else {
        if let Some(fill) = fill_from(levels, totals) {
            let rest = levels.drop_first();
            assert forall|j: int| 0 < j < fill.left.len() implies #[trigger] fill.left[j]
                == levels[0 + j] by {
                assert(fill.left[j] == rest[j - 1]);
            }
            assert(fill.left[0].price == levels[0].price);
            assert(is_tail_of(fill.left, levels, 0));
        }
    }
}

/// In an ordered side no level is better than the first: no bid above it, no ask
/// below it.
pub proof fn lemma_first_is_best(descending: bool, levels: Seq<Level>, k: int)
    requires
        ordered(descending, levels),
        0 <= k < levels.len(),
    ensures
        if descending {
            levels[k].price.value_le(levels[0].price)
        } else {
            levels[0].price.value_le(levels[k].price)
        },
    decreases k,
{
    if k > 0 {
        lemma_first_is_best(descending, levels, k - 1);
        assert(follows(descending, levels[k - 1].price, levels[k].price));
    }
}

/// A tail of an ordered side is ordered.
pub proof fn lemma_tail_is_ordered(
    descending: bool,
    left: Seq<Level>,
    levels: Seq<Level>,
    from: int,
)
    requires
        ordered(descending, levels),
        is_tail_of(left, levels, from),
    ensures
        ordered(descending, left),
{
    assert forall|k: int| 0 < k < left.len() implies follows(
        descending,
        left[k - 1].price,
        #[trigger] left[k].price,
    ) by {
        assert(follows(descending, levels[from + k - 1].price, levels[from + k].price));
    }
}

/// A market order leaves a validated book validated: it takes from the front of
/// one side, and changes no price.
pub proof fn lemma_order_keeps_book_validated(
    before: OrderBook,
    after: OrderBook,
    side: Side,
    quantity: Decimal,
    r: Result<Position, OrderBookError>,
)
    requires
        validated(before.bids@, before.asks@),
        fill_exists(opposite(before, side), quantity),
        executed(before, after, side, quantity, r),
    ensures
        validated(after.bids@, after.asks@),
{
    if r is Ok {
        let levels = opposite(before, side);
        let left = opposite(after, side);
        lemma_fill_leaves_tail(levels, Totals::start(quantity));
        let from = choose|from: int| #[trigger] is_tail_of(left, levels, from);
        match side {
            Side::Buy => {
                lemma_tail_is_ordered(false, left, levels, from);
                if left.len() > 0 && before.bids@.len() > 0 {
                    lemma_first_is_best(false, levels, from);
                    assert(left[0].price == levels[from + 0].price);
                }
            },
            Side::Sell => {
                lemma_tail_is_ordered(true, left, levels, from);
                if left.len() > 0 && before.asks@.len() > 0 {
                    lemma_first_is_best(true, levels, from);
                    assert(left[0].price == levels[from + 0].price);
                }
            },
        }
    }
}

/// Where the walk adds and subtracts exactly, what it fills is no more than what
/// was filled before it plus what remained to be filled.
pub proof fn lemma_fill_within_remaining(levels: Seq<Level>, totals: Totals)
    requires
        totals.remaining.units() >= 0,
        walk_is_exact(levels, totals),
    ensures
        fill_from(levels, totals) matches Some(fill) ==> fill.filled.units()
            <= totals.filled.units() + totals.remaining.units(),
    decreases levels.len(),
{
    if levels.len() == 0 || totals.remaining.units() <= 0 {
    } else if levels.first().quantity.value_le(totals.remaining) {
        if let Some(next) = totals.take(levels.first()) {
            lemma_fill_within_remaining(levels.drop_first(), next);
        }
    } else {
    }
}

/// An order fills no more than it asks for, where the walk adds and subtracts
/// exactly. Where a sum has more digits than a decimal can hold, `rust_decimal`
/// rounds it, and the rounded sums of a walk can exceed what was asked for.
pub proof fn lemma_filled_at_most_requested(levels: Seq<Level>, quantity: Decimal)
    requires
        quantity.units() > 0,
        walk_is_exact(levels, Totals::start(quantity)),
    ensures
        market_fill(levels, quantity) matches Some(fill) ==> fill.filled.value_le(quantity),
{
    lemma_fill_within_remaining(levels, Totals::start(quantity));
    Decimal::spec_zero().lemma_units_sign();
}

/// A walk as the matching engine holds it: how many levels it took whole, what it
/// left of the level behind them, and the totals.
struct Plan {
    taken: usize,
    rest: Option<Decimal>,
    cost: Decimal,
    filled: Decimal,
}

impl Plan {
    /// The levels that the plan leaves of `levels`.
    spec fn left(self, levels: Seq<Level>) -> Seq<Level> {
        match self.rest {
            Some(rest) => seq![Level { price: levels[self.taken as int].price, quantity: rest }]
                + levels.skip(self.taken + 1),
            None => levels.skip(self.taken as int),
        }
    }

    spec fn wf(self, levels: Seq<Level>) -> bool {
        &&& self.taken <= levels.len()
        &&& self.rest matches Some(rest) ==> self.taken < levels.len() && rest.wf()
        &&& self.cost.wf()
        &&& self.filled.wf()
    }

    /// The plan is the walk `fill` over `levels`.
    spec fn is_fill(self, levels: Seq<Level>, fill: Fill) -> bool {
        &&& self.wf(levels)
        &&& self.cost == fill.cost
        &&& self.filled == fill.filled
        &&& self.left(levels) == fill.left
    }
}

/// The answer `r` of the planner is the walk `fill`.
spec fn same_fill(r: Option<Plan>, levels: Seq<Level>, fill: Option<Fill>) -> bool {
    match (r, fill) {
        (Some(plan), Some(f)) => plan.is_fill(levels, f),
        (None, None) => true,
        _ => false,
    }
}

fn with_fill(totals: Totals, level: Level, quantity: Decimal) -> (r: Option<Totals>)
    requires
        totals.wf(),
        level.wf(),
        quantity.wf(),
    ensures
        r == totals.with_fill(level, quantity),
        r matches Some(next) ==> next.wf(),
{
    let value = match checked_mul(level.price, quantity) {
        None => { return None; },
        Some(value) => value,
    };
    let cost = checked_add(totals.cost, value);
    let filled = checked_add(totals.filled, quantity);
    match (cost, filled) {
        (Some(cost), Some(filled)) => Some(Totals { remaining: totals.remaining, cost, filled }),
        _ => None,
    }
}

fn take(totals: Totals, level: Level) -> (r: Option<Totals>)
    requires
        totals.wf(),
        level.wf(),
    ensures
        r == totals.take(level),
        r matches Some(next) ==> next.wf(),
{
    let added = with_fill(totals, level, level.quantity);
    let remaining = checked_sub(totals.remaining, level.quantity);
    match (added, remaining) {
        (Some(added), Some(remaining)) => Some(
            Totals { remaining, cost: added.cost, filled: added.filled },
        ),
        _ => None,
    }
}

fn plan_fill(levels: &Vec<Level>, quantity: Decimal) -> (r: Option<Plan>)
    requires
        levels_wf(levels@),
        quantity.wf(),
    ensures
        same_fill(r, levels@, market_fill(levels@, quantity)),
{
    let mut totals = Totals { remaining: quantity, cost: Decimal::zero(), filled: Decimal::zero() };
    let mut i: usize = 0;
    assert(levels@.skip(0) =~= levels@);
    while i < levels.len() && totals.remaining.is_positive()
        invariant
            i <= levels.len(),
            levels_wf(levels@),
            totals.wf(),
            market_fill(levels@, quantity) == fill_from(levels@.skip(i as int), totals),
        decreases levels.len() - i,
    {
        let level = levels[i];
        proof {
            assert(levels@.skip(i as int).first() == level);
            assert(levels@.skip(i as int).drop_first() =~= levels@.skip(i + 1));
        }
        if level.quantity.le(totals.remaining) {
            match take(totals, level) {
                None => {
                    return None;
                },
                Some(next) => {
                    totals = next;
                    i += 1;
                },
            }
        } else {
            let next = with_fill(totals, level, totals.remaining);
            let rest = checked_sub(level.quantity, totals.remaining);
            match (next, rest) {
                (Some(next), Some(rest)) => {
                    return Some(
                        Plan { taken: i, rest: Some(rest), cost: next.cost, filled: next.filled },
                    );
                },
                _ => {
                    return None;
                },
            }
        }
    }
    Some(Plan { taken: i, rest: None, cost: totals.cost, filled: totals.filled })
}

/// The levels that a plan leaves, as a new side.
fn levels_left(levels: &Vec<Level>, plan: &Plan) -> (r: Vec<Level>)
    requires
        levels_wf(levels@),
        plan.wf(levels@),
    ensures
        r@ == plan.left(levels@),
        levels_wf(r@),
{
    let mut left: Vec<Level> = Vec::new();
    let count = levels.len();
    let mut i: usize = plan.taken;
    match plan.rest {
        Some(rest) => {
            left.push(Level { price: levels[i].price, quantity: rest });
            i += 1;
        },
        None => {},
    }
    let ghost head = left@;
    let start: usize = i;
    while i < count
        invariant
            count == levels.len(),
            start <= i <= count,
            levels_wf(levels@),
            levels_wf(left@),
            left@ == head + levels@.subrange(start as int, i as int),
        decreases count - i,
    {
        left.push(levels[i]);
        proof {
            assert(left@ =~= head + levels@.subrange(start as int, i + 1));
        }
        i += 1;
    }
    proof {
        assert(levels@.subrange(start as int, levels@.len() as int) =~= levels@.skip(start as int));
        assert(Seq::<Level>::empty() + levels@.skip(start as int) =~= levels@.skip(start as int));
    }
    left
}

impl OrderBook {
    /// Whether an order of `side` for `quantity` has an outcome on this book.
    pub fn can_execute(&self, side: Side, quantity: Decimal) -> (r: bool)
        requires
            self.wf(),
            quantity.wf(),
        ensures
            r == fill_exists(opposite(*self, side), quantity),
    {
        if !quantity.is_positive() {
            return true;
        }
        let plan = match side {
            Side::Buy => plan_fill(&self.asks, quantity),
            Side::Sell => plan_fill(&self.bids, quantity),
        };
        match plan {
            None => false,
            Some(plan) => plan.filled.is_zero() || checked_div(plan.cost, plan.filled).is_some(),
        }
    }

    /// Executes a market order of `side` for `quantity` and takes what it fills out
    /// of the book. An order that is filled in part succeeds with that part.
    pub fn execute_market_order(&mut self, side: Side, quantity: Decimal) -> (r: Result<
        Position,
        OrderBookError,
    >)
        requires
            old(self).wf(),
            quantity.wf(),
            fill_exists(opposite(*old(self), side), quantity),
        ensures
            executed(*old(self), *final(self), side, quantity, r),
            r is Err ==> final(self).bids@ == old(self).bids@ && final(self).asks@ == old(
                self,
            ).asks@,
            r matches Ok(position) ==> position.wf(),
            final(self).wf(),
    {
        if !quantity.is_positive() {
            return Err(OrderBookError::NotEnoughLiquidity(quantity, Decimal::zero()));
        }
        let plan = match side {
            Side::Buy => plan_fill(&self.asks, quantity),
            Side::Sell => plan_fill(&self.bids, quantity),
        };
        let plan = plan.unwrap();
        if plan.filled.is_zero() {
            return Err(OrderBookError::NotEnoughLiquidity(quantity, Decimal::zero()));
        }
        let entry_price = checked_div(plan.cost, plan.filled).unwrap();
        match side {
            Side::Buy => {
                let left = levels_left(&self.asks, &plan);
                self.asks = left;
            },
            Side::Sell => {
                let left = levels_left(&self.bids, &plan);
                self.bids = left;
            },
        }
        Ok(Position { side, quantity: plan.filled, entry_price })
    }

    /// Executes the order where it has an outcome, and says `None` and leaves the
    /// book as it was where it has none.
    pub fn try_execute_market_order(&mut self, side: Side, quantity: Decimal) -> (r: Option<
        Result<Position, OrderBookError>,
    >)
        requires
            old(self).wf(),
            quantity.wf(),
        ensures
            r is Some <==> fill_exists(opposite(*old(self), side), quantity),
            r matches Some(outcome) ==> executed(*old(self), *final(self), side, quantity, outcome),
            r matches Some(Ok(position)) ==> position.wf(),
            !(r matches Some(Ok(_))) ==> final(self).bids@ == old(self).bids@ && final(self).asks@
                == old(self).asks@,
            final(self).wf(),
    {
        if self.can_execute(side, quantity) {
            Some(self.execute_market_order(side, quantity))
        } else {
            None
        }
    }
}

} // verus!
