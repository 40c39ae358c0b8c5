use vstd::prelude::*;

pub mod lexer;
pub mod operator;
pub mod parser;
pub mod render;
pub mod token;

pub use lexer::{lex, LexError};
pub use operator::{BindingPower, OperatorType, UnknownOperatorTypeError};
pub use parser::{parse, Expression, ExpressionParseError, Operator};
pub use token::Token;

verus! {

} // verus!
