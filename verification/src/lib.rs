//! Order book snapshots: a grammar for their text, exact decimal levels, the
//! checks that a book has to pass, and market orders against a checked book.

pub mod book;
pub mod decimal;
pub mod error;
pub mod grammar;
pub mod language;
pub mod matching;
pub mod parser;
pub mod pnl;
pub mod validate;

pub use book::{InstrumentConfig, Level, OrderBook, Position, Side};
pub use decimal::{Comparison, Decimal};
pub use error::OrderBookError;
pub use grammar::{BookSyntax, Expected, LevelSyntax, OrderBookParser, Rule, Span, SyntaxError};
pub use parser::parse_order_book;
