//! The front end of a small expression language: a lexer from source text
//! to tokens, a recursive-descent parser from tokens to an expression tree,
//! and an evaluator that reduces the tree to a literal. Each stage is stated
//! as a function on mathematical values and proved against it.
use vstd::prelude::*;

pub mod token;
pub mod scan;
pub mod lexer;
pub mod parser;
pub mod evaluator;

pub use evaluator::Evaluator;
pub use lexer::Lexer;
pub use parser::{Expression, Parser};
pub use scan::{LexError, LexErrorKind};
pub use token::{Keyword, Number, Token, TokenKind};

verus! {

} // verus!
