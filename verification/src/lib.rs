//! A plain-text ledger: journals of double-entry bookkeeping are taken apart
//! into tokens, read as transactions and balanced with exact fractions.
//!
//! - [`tokenizer`] turns the lines of a journal into tokens;
//! - [`parser`] reads the tokens as transactions whose postings are as
//!   written;
//! - [`balancer`] gives the one posting without an amount its commodity and
//!   amount, and [`double_entry`] states what balancing guarantees;
//! - [`amount`], [`decimal`] and [`format`] hold the exact fractions, their
//!   reading from decimal literals and their text;
//! - [`journal`] runs the three stages on a text;
//! - [`print`] and [`cli`] render a journal and read a command line.

pub mod amount;
pub mod balancer;
pub mod cli;
pub mod decimal;
pub mod double_entry;
pub mod format;
pub mod journal;
pub mod model;
pub mod parser;
pub mod print;
pub mod text;
pub mod tokenizer;
