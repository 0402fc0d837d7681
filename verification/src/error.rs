//! The ways in which reading, checking or trading on an order book can fail.

use crate::decimal::{decimal_text, Decimal};
use crate::grammar::SyntaxError;
use vstd::prelude::*;
use vstd::string::StringExecFns;

verus! {

/// Why an order book was rejected, or an order not filled.
#[derive(Debug)]
pub enum OrderBookError {
    /// The input does not match the grammar.
    ParseError(SyntaxError),
    /// A number of the input cannot be held as a decimal.
    DecimalError(rust_decimal::Error),
    /// A part that the grammar promises is absent.
    MissingSection(String),
    /// A bid is not below the bid before it; the price is that of the later bid.
    BidsUnsorted(Decimal),
    /// An ask is not above the ask before it; the price is that of the later ask.
    AsksUnsorted(Decimal),
    /// Two neighbouring levels have the same price; the price is that of the first.
    DuplicatePrice(Decimal),
    /// The best bid, given first, is not below the best ask.
    CrossedBook(Decimal, Decimal),
    /// A price, given first, is not a multiple of the tick size.
    InvalidTickSize(Decimal, Decimal),
    /// A quantity, given first, is below the minimum lot.
    InvalidMinLot(Decimal, Decimal),
    /// A quantity, given first, is not a multiple of the lot step.
    InvalidLotStep(Decimal, Decimal),
    /// Nothing could be filled of the quantity asked for, given first.
    NotEnoughLiquidity(Decimal, Decimal),
}

/// The answer `r` of a check is the verdict `fault`.
pub open spec fn rejects(r: Result<(), OrderBookError>, fault: Option<OrderBookError>) -> bool {
    match (r, fault) {
        (Ok(_), None) => true,
        (Err(e), Some(f)) => e == f,
        _ => false,
    }
}

/// The text of a decimal.
pub open spec fn written(d: Decimal) -> Seq<char> {
    decimal_text(d.mantissa, d.scale)
}

impl OrderBookError {
    /// The error is a fault of a book that was read: of its structure, or against
    /// the rules of an instrument.
    pub open spec fn is_fault(self) -> bool {
        match self {
            OrderBookError::BidsUnsorted(_) => true,
            OrderBookError::AsksUnsorted(_) => true,
            OrderBookError::DuplicatePrice(_) => true,
            OrderBookError::CrossedBook(_, _) => true,
            OrderBookError::InvalidTickSize(_, _) => true,
            OrderBookError::InvalidMinLot(_, _) => true,
            OrderBookError::InvalidLotStep(_, _) => true,
            _ => false,
        }
    }

    /// The decimals that the error carries are in range.
    pub open spec fn wf(self) -> bool {
        match self {
            OrderBookError::ParseError(_) => true,
            OrderBookError::DecimalError(_) => true,
            OrderBookError::MissingSection(_) => true,
            OrderBookError::BidsUnsorted(price) => price.wf(),
            OrderBookError::AsksUnsorted(price) => price.wf(),
            OrderBookError::DuplicatePrice(price) => price.wf(),
            OrderBookError::CrossedBook(bid, ask) => bid.wf() && ask.wf(),
            OrderBookError::InvalidTickSize(price, tick) => price.wf() && tick.wf(),
            OrderBookError::InvalidMinLot(quantity, lot) => quantity.wf() && lot.wf(),
            OrderBookError::InvalidLotStep(quantity, step) => quantity.wf() && step.wf(),
            OrderBookError::NotEnoughLiquidity(asked, found) => asked.wf() && found.wf(),
        }
    }

    /// `text` says what the error is. For a number that cannot be held, only how
    /// the text begins is fixed: the rest is the wording of `rust_decimal`.
    pub open spec fn described_by(self, text: Seq<char>) -> bool {
        match self {
            OrderBookError::ParseError(e) => text == "Failed to parse the input string: "@
                + e.text(),
            OrderBookError::DecimalError(_) => {
                let start = "Failed to parse number: "@;
                start.len() <= text.len() && text.take(start.len() as int) == start
            },
            OrderBookError::MissingSection(what) => text == "Missing required section: "@ + what@,
            OrderBookError::BidsUnsorted(price) => text
                == "Bids must be sorted descending (highest first). Found issue at price "@
                + written(price),
            OrderBookError::AsksUnsorted(price) => text
                == "Asks must be sorted ascending (lowest first). Found issue at price "@
                + written(price),
            OrderBookError::DuplicatePrice(price) => text == "Duplicate price level found: "@
                + written(price),
            OrderBookError::CrossedBook(bid, ask) => text
                == "Crossed book detected: Best Bid ("@ + written(bid) + ") is >= Best Ask ("@
                + written(ask) + ")"@,
            OrderBookError::InvalidTickSize(price, tick) => text == "Price "@ + written(price)
                + " is not a multiple of tick size "@ + written(tick),
            OrderBookError::InvalidMinLot(quantity, lot) => text == "Quantity "@ + written(
                quantity,
            ) + " is less than minimum lot size "@ + written(lot),
            OrderBookError::InvalidLotStep(quantity, step) => text == "Quantity "@ + written(
                quantity,
            ) + " is not a multiple of lot step "@ + written(step),
            OrderBookError::NotEnoughLiquidity(asked, found) => text
                == "Not enough liquidity to fill order. Requested: "@ + written(asked)
                + ", Available: "@ + written(found),
        }
    }

    /// The error in words.
    pub fn to_string(&self) -> (r: String)
        requires
            self.wf(),
        ensures
            self.described_by(r@),
    {
        match self {
            OrderBookError::ParseError(e) => {
                String::from_str("Failed to parse the input string: ").concat(
                    e.to_string().as_str(),
                )
            },
            OrderBookError::DecimalError(e) => {
                let start = String::from_str("Failed to parse number: ");
                let text = start.clone().concat(e.to_string().as_str());
                proof {
                    assert(text@.take(start@.len() as int) =~= start@);
                }
                text
            },
            OrderBookError::MissingSection(what) => {
                String::from_str("Missing required section: ").concat(what.as_str())
            },
            OrderBookError::BidsUnsorted(price) => {
                String::from_str(
                    "Bids must be sorted descending (highest first). Found issue at price ",
                ).concat(price.to_string().as_str())
            },
            OrderBookError::AsksUnsorted(price) => {
                String::from_str(
                    "Asks must be sorted ascending (lowest first). Found issue at price ",
                ).concat(price.to_string().as_str())
            },
            OrderBookError::DuplicatePrice(price) => {
                String::from_str("Duplicate price level found: ").concat(
                    price.to_string().as_str(),
                )
            },
            OrderBookError::CrossedBook(bid, ask) => {
                let mut text = String::from_str("Crossed book detected: Best Bid (");
                text.append(bid.to_string().as_str());
                text.append(") is >= Best Ask (");
                text.append(ask.to_string().as_str());
                text.append(")");
                text
            },
            OrderBookError::InvalidTickSize(price, tick) => {
                let mut text = String::from_str("Price ");
                text.append(price.to_string().as_str());
                text.append(" is not a multiple of tick size ");
                text.append(tick.to_string().as_str());
                text
            },
            OrderBookError::InvalidMinLot(quantity, lot) => {
                let mut text = String::from_str("Quantity ");
                text.append(quantity.to_string().as_str());
                text.append(" is less than minimum lot size ");
                text.append(lot.to_string().as_str());
                text
            },
            OrderBookError::InvalidLotStep(quantity, step) => {
                let mut text = String::from_str("Quantity ");
                text.append(quantity.to_string().as_str());
                text.append(" is not a multiple of lot step ");
                text.append(step.to_string().as_str());
                text
            },
            OrderBookError::NotEnoughLiquidity(asked, found) => {
                let mut text = String::from_str("Not enough liquidity to fill order. Requested: ");
                text.append(asked.to_string().as_str());
                text.append(", Available: ");
                text.append(found.to_string().as_str());
                text
            },
        }
    }
}

} // verus!
