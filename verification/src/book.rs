//! The order book and what is traded on it.

use crate::decimal::Decimal;
use vstd::prelude::*;

verus! {

/// The direction of a trade.
#[derive(Clone, Copy, Debug, PartialEq, Eq, Structural)]
pub enum Side {
    Buy,
    Sell,
}

/// One price level: a price and the quantity on offer at it.
#[derive(Clone, Copy, Debug)]
pub struct Level {
    pub price: Decimal,
    pub quantity: Decimal,
}

/// Both sides of a book, each with its best level first.
#[derive(Clone, Debug)]
pub struct OrderBook {
    pub bids: Vec<Level>,
    pub asks: Vec<Level>,
}

/// The rules of an instrument for the prices and quantities of its levels.
#[derive(Clone, Copy, Debug)]
pub struct InstrumentConfig {
    /// The smallest step between two prices.
    pub tick_size: Decimal,
    /// The smallest quantity of a level.
    pub min_lot: Decimal,
    /// The smallest step between two quantities.
    pub lot_step: Decimal,
}

/// What a filled order leaves its owner with.
#[derive(Clone, Copy, Debug)]
pub struct Position {
    pub side: Side,
    pub quantity: Decimal,
    /// The volume-weighted average price of the fill.
    pub entry_price: Decimal,
}

impl Level {
    /// Both decimals of the level are in range.
    pub open spec fn wf(self) -> bool {
        self.price.wf() && self.quantity.wf()
    }
}

/// Every level holds decimals in range.
pub open spec fn levels_wf(levels: Seq<Level>) -> bool {
    forall|i: int| 0 <= i < levels.len() ==> (#[trigger] levels[i]).wf()
}

impl OrderBook {
    /// Every level of both sides holds decimals in range.
    pub open spec fn wf(self) -> bool {
        levels_wf(self.bids@) && levels_wf(self.asks@)
    }
}

/// How many levels of each side a summary of the book shows.
pub const SUMMARY_DEPTH: usize = 3;

/// The first `count` levels, or all of them where there are fewer.
pub open spec fn first_levels(levels: Seq<Level>, count: int) -> Seq<Level> {
    if levels.len() <= count {
        levels
    } else {
        levels.take(count)
    }
}

fn copy_first(levels: &Vec<Level>, count: usize) -> (r: Vec<Level>)
    ensures
        r@ == first_levels(levels@, count as int),
{
    let mut found: Vec<Level> = Vec::new();
    let mut k: usize = 0;
    while k < levels.len() && k < count
        invariant
            k <= levels.len(),
            k <= count,
            found@ == levels@.take(k as int),
        decreases levels.len() - k,
    {
        found.push(levels[k]);
        proof {
            assert(found@ =~= levels@.take(k + 1));
        }
        k += 1;
    }
    proof {
        assert(levels@.take(levels@.len() as int) =~= levels@);
    }
    found
}

impl OrderBook {
    /// The best bids, best first: what a summary of the book shows of them.
    pub fn top_bids(&self) -> (r: Vec<Level>)
        ensures
            r@ == first_levels(self.bids@, SUMMARY_DEPTH as int),
    {
        copy_first(&self.bids, SUMMARY_DEPTH)
    }

    /// The best asks, best first: what a summary of the book shows of them.
    pub fn top_asks(&self) -> (r: Vec<Level>)
        ensures
            r@ == first_levels(self.asks@, SUMMARY_DEPTH as int),
    {
        copy_first(&self.asks, SUMMARY_DEPTH)
    }
}

impl Default for OrderBook {
    fn default() -> (r: OrderBook)
        ensures
            r.bids@.len() == 0,
            r.asks@.len() == 0,
    {
        OrderBook { bids: Vec::new(), asks: Vec::new() }
    }
}

impl InstrumentConfig {
    /// The three decimals of the rules are in range.
    pub open spec fn wf(self) -> bool {
        self.tick_size.wf() && self.min_lot.wf() && self.lot_step.wf()
    }

    /// The rules with the given tick size, minimum lot and lot step.
    pub fn new(tick_size: Decimal, min_lot: Decimal, lot_step: Decimal) -> (r: InstrumentConfig)
        ensures
            r == (InstrumentConfig { tick_size, min_lot, lot_step }),
    {
        InstrumentConfig { tick_size, min_lot, lot_step }
    }
}

impl Position {
    /// Both decimals of the position are in range.
    pub open spec fn wf(self) -> bool {
        self.quantity.wf() && self.entry_price.wf()
    }
}

} // verus!
