//! The profit or loss of a position, marked against the book: a long position
//! would be closed at the best bid, a short one at the best ask.
//!
//! The difference and the product are those of `rust_decimal`. Where one of them
//! does not exist the profit has no value: `calculate_pnl` leaves such positions
//! out, and `try_calculate_pnl` finds them.

use crate::book::{OrderBook, Position, Side};
use crate::decimal::{checked_mul, checked_sub, Decimal};
use vstd::prelude::*;

verus! {

/// The price at which a position of `side` would be closed, if the book has one.
pub open spec fn exit_price(side: Side, book: OrderBook) -> Option<Decimal> {
    match side {
        Side::Buy => if book.bids@.len() > 0 {
            Some(book.bids@[0].price)
        } else {
            None
        },
        Side::Sell => if book.asks@.len() > 0 {
            Some(book.asks@[0].price)
        } else {
            None
        },
    }
}

impl Position {
    /// The profit of closing at `exit`: for a long position the exit price less the
    /// entry price, for a short one the entry price less the exit price, times the
    /// quantity.
    pub open spec fn pnl_at(self, exit: Decimal) -> Option<Decimal> {
        let gain = match self.side {
            Side::Buy => exit.spec_sub(self.entry_price),
            Side::Sell => self.entry_price.spec_sub(exit),
        };
        match gain {
            Some(gain) => gain.spec_mul(self.quantity),
            None => None,
        }
    }

    /// The profit against `book`; `None` where the book has no price to close at.
    pub open spec fn pnl(self, book: OrderBook) -> Option<Decimal> {
        match exit_price(self.side, book) {
            Some(exit) => self.pnl_at(exit),
            None => None,
        }
    }

    /// Where the book has a price to close at, the profit has a value.
    pub open spec fn pnl_exists(self, book: OrderBook) -> bool {
        exit_price(self.side, book) matches Some(exit) ==> self.pnl_at(exit) is Some
    }

    fn pnl_against(&self, exit: Decimal) -> (r: Option<Decimal>)
        requires
            self.wf(),
            exit.wf(),
        ensures
            r == self.pnl_at(exit),
            r matches Some(d) ==> d.wf(),
    {
        let gain = match self.side {
            Side::Buy => checked_sub(exit, self.entry_price),
            Side::Sell => checked_sub(self.entry_price, exit),
        };
        match gain {
            Some(gain) => checked_mul(gain, self.quantity),
            None => None,
        }
    }

    /// The unrealized profit or loss of the position against `book`, or `None`
    /// where the side to close on is empty.
    pub fn calculate_pnl(&self, book: &OrderBook) -> (r: Option<Decimal>)
        requires
            self.wf(),
            book.wf(),
            self.pnl_exists(*book),
        ensures
            r == self.pnl(*book),
            r is Some <==> exit_price(self.side, *book) is Some,
            r matches Some(d) ==> d.wf(),
    {
        match best_price(self.side, book) {
            Some(exit) => self.pnl_against(exit),
            None => None,
        }
    }

    /// The profit or loss where it has a value; the outer `None` where the book has
    /// a price to close at and the profit cannot be computed.
    pub fn try_calculate_pnl(&self, book: &OrderBook) -> (r: Option<Option<Decimal>>)
        requires
            self.wf(),
            book.wf(),
        ensures
            r is Some <==> self.pnl_exists(*book),
            r matches Some(pnl) ==> pnl == self.pnl(*book) && (pnl is Some <==> exit_price(
                self.side,
                *book,
            ) is Some),
    {
        let computable = match best_price(self.side, book) {
            Some(exit) => self.pnl_against(exit).is_some(),
            None => true,
        };
        if computable {
            Some(self.calculate_pnl(book))
        } else {
            None
        }
    }
}

fn best_price(side: Side, book: &OrderBook) -> (r: Option<Decimal>)
    requires
        book.wf(),
    ensures
        r == exit_price(side, *book),
        r matches Some(price) ==> price.wf(),
{
    match side {
        Side::Buy => if book.bids.len() > 0 {
            Some(book.bids[0].price)
        } else {
            None
        },
        Side::Sell => if book.asks.len() > 0 {
            Some(book.asks[0].price)
        } else {
            None
        },
    }
}

} // verus!
