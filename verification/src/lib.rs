//! Token consumption and event-log construction for a hand-written,
//! layout-sensitive recursive-descent parser.
//!
//! Grammar code drives a [`parser::Parser`]: it looks ahead in the token
//! stream, consumes tokens, polls the offside rule through a stack of layout
//! contexts, and records the shape of the syntax tree as a flat log of
//! [`parser::Event`]s. Every function carries a contract over the
//! mathematical state in [`parser::ParserView`].

pub mod position;
pub mod syntax;
pub mod layout;
pub mod input;
pub mod event;
pub mod nesting;
pub mod bomb;
pub mod parser;
pub mod session;
