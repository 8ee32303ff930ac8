//! Expression parser of a small language: a recursive-descent parser with
//! precedence climbing over a stream of tokens, producing a tree of
//! expressions in which every node carries its byte range in the source.

pub mod ast;
pub mod error;
pub mod expression;
pub mod grammar;
pub mod progress;
pub mod theorems;
pub mod token;
