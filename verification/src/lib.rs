//! Command-language front end of a line-oriented text editor: a tokenizer
//! with quoted literals, a parser from token lists to editing actions, and a
//! dispatcher that runs those actions against an in-memory text surface.

pub mod action;
pub mod parser;
pub mod strutil;
pub mod executor;
pub mod surface;
