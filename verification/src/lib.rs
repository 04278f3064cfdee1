//! A small verified library grown around a scatter-gather search aggregator:
//! a coordinator fans one query out to independent workers, collects whatever
//! replies arrive before a deadline, and returns the partial aggregation.
//! Alongside it live the other verified exercises of the same codebase: an
//! arithmetic tokenizer with its visitors, a stock market with user
//! accounts, an event-rate statistic, a club-card aggregate, a catalogue
//! service's domain, and a graph reader.

pub mod account;
pub mod assoc;
pub mod calc_visitor;
pub mod card;
pub mod catalogue;
pub mod clock;
pub mod coordinator;
pub mod events_statistics;
pub mod graph;
pub mod graph_impls;
pub mod market;
pub mod parser_visitor;
pub mod print_visitor;
pub mod token;
pub mod tokenizer;
pub mod utils;

pub use token::Operator;
pub use token::Paren;
pub use token::Token;
