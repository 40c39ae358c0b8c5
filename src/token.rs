use vstd::prelude::*;

verus! {

/// A lexical unit of an arithmetic expression.
#[derive(Debug, Clone, Copy, PartialEq, Eq, Structural)]
pub enum Token {
    /// A non-negative integer literal.
    Number(i64),
    /// A single operator symbol.
    Operator(char),
}

/// The operator symbols that the lexer accepts.
pub open spec fn is_lexed_operator(c: char) -> bool {
    c == '+' || c == '-' || c == '*' || c == '/'
}

/// Whether `c` is one of the symbols that the lexer turns into an operator token.
pub fn is_operator_symbol(c: char) -> (r: bool)
    ensures
        r == is_lexed_operator(c),
{
    c == '+' || c == '-' || c == '*' || c == '/'
}

} // verus!
