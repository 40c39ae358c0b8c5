use vstd::prelude::*;

use crate::operator::{
    kind_of, power_of, symbol_of, BindingPower, OperatorType, UnknownOperatorTypeError,
};
use crate::token::Token;

verus! {

/// An expression tree: a literal, or an operator applied to two subtrees.
#[derive(Debug, PartialEq, Eq)]
pub enum Expression {
    Number(i64),
    Op(Box<Operator>),
}

/// An interior node of an expression tree.
#[derive(Debug, PartialEq, Eq)]
pub struct Operator {
    pub typ: OperatorType,
    pub lhs: Expression,
    pub rhs: Expression,
}

/// Why a token sequence is no expression.
#[derive(Debug, PartialEq, Eq)]
pub enum ExpressionParseError {
    /// A token of the wrong kind at the current position.
    UnexpectedToken(Token),
    /// The tokens ran out where a token of the named kind was needed.
    EndOfInput(String),
    /// An operator token whose symbol names no operator kind.
    UnknownOperator(UnknownOperatorTypeError),
    /// An operator whose precedence is not defined.
    UndefinedPrecedence(OperatorType),
}

/// What an [`ExpressionParseError`] says, with its text as a sequence of characters.
pub enum ParseFailure {
    UnexpectedToken(Token),
    EndOfInput(Seq<char>),
    UnknownOperator(char),
    UndefinedPrecedence(OperatorType),
}

impl View for ExpressionParseError {
    type V = ParseFailure;

    open spec fn view(&self) -> ParseFailure {
        match self {
            ExpressionParseError::UnexpectedToken(t) => ParseFailure::UnexpectedToken(*t),
            ExpressionParseError::EndOfInput(s) => ParseFailure::EndOfInput(s@),
            ExpressionParseError::UnknownOperator(e) => ParseFailure::UnknownOperator(e.op),
            ExpressionParseError::UndefinedPrecedence(t) => ParseFailure::UndefinedPrecedence(*t),
        }
    }
}

/// The node that applies `t` to `l` and `r`.
pub open spec fn node(t: OperatorType, l: Expression, r: Expression) -> Expression {
    Expression::Op(Box::new(Operator { typ: t, lhs: l, rhs: r }))
}

/// The token at `pos` if it is of the expected kind (an operator where `expecting_op`,
/// else a number).
pub open spec fn expect_token(ts: Seq<Token>, pos: int, expecting_op: bool) -> Result<
    Token,
    ParseFailure,
> {
    if pos >= ts.len() {
        Err(
            ParseFailure::EndOfInput(
                if expecting_op {
                    "Operator"@
                } else {
                    "Number"@
                },
            ),
        )
    } else if (ts[pos] is Operator) == expecting_op {
        Ok(ts[pos])
    } else {
        Err(ParseFailure::UnexpectedToken(ts[pos]))
    }
}

/// Parses the expression that starts at `pos`, taking operators only while their right
/// binding power reaches `min`; gives the tree and the position after it.
pub open spec fn parse_from(ts: Seq<Token>, pos: int, min: int) -> Result<
    (Expression, int),
    ParseFailure,
>
    decreases ts.len() - pos, 1int,
{
    if pos < 0 || pos >= ts.len() {
        Err(ParseFailure::EndOfInput("Number"@))
    } else {
        match ts[pos] {
            Token::Operator(_) => Err(ParseFailure::UnexpectedToken(ts[pos])),
            Token::Number(n) => climb(ts, pos + 1, min, Expression::Number(n)),
        }
    }
}

/// Extends `left`, the tree that ends before `pos`, with the operators that follow it
/// while their right binding power reaches `min`.
pub open spec fn climb(ts: Seq<Token>, pos: int, min: int, left: Expression) -> Result<
    (Expression, int),
    ParseFailure,
>
    decreases ts.len() - pos, 0int,
{
    if pos < 0 || pos >= ts.len() {
        Ok((left, pos))
    } else {
        match ts[pos] {
            Token::Number(_) => Err(ParseFailure::UnexpectedToken(ts[pos])),
            Token::Operator(c) => match kind_of(c) {
                None => Err(ParseFailure::UnknownOperator(c)),
                Some(t) => match power_of(t) {
                    None => Err(ParseFailure::UndefinedPrecedence(t)),
                    Some(bp) => if (bp.1 as int) < min {
                        Ok((left, pos))
                    } else {
                        match parse_from(ts, pos + 1, bp.0 as int) {
                            Err(e) => Err(e),
                            Ok((right, next)) => if pos < next <= ts.len() {
                                climb(ts, next, min, node(t, left, right))
                            } else {
                                Ok((node(t, left, right), next))
                            },
                        }
                    },
                },
            },
        }
    }
}

/// The expression that a whole token sequence denotes.
pub open spec fn parse_spec(ts: Seq<Token>) -> Result<Expression, ParseFailure> {
    match parse_from(ts, 0, 0) {
        Ok((e, _)) => Ok(e),
        Err(f) => Err(f),
    }
}

/// Takes the token at `pos`, which must be an operator where `expecting_op` and a number
/// otherwise.
pub fn parse_token(src: &[Token], pos: usize, expecting_op: bool) -> (r: Result<
    Token,
    ExpressionParseError,
>)
    ensures
        match r {
            Ok(t) => expect_token(src@, pos as int, expecting_op) == Ok::<Token, ParseFailure>(t),
            Err(e) => expect_token(src@, pos as int, expecting_op) == Err::<Token, ParseFailure>(
                e@,
            ),
        },
{
    if pos >= src.len() {
        if expecting_op {
            Err(ExpressionParseError::EndOfInput(String::from_str("Operator")))
        } else {
            Err(ExpressionParseError::EndOfInput(String::from_str("Number")))
        }
    } else {
        let t = src[pos];
        let is_op = match t {
            Token::Operator(_) => true,
            Token::Number(_) => false,
        };
        if is_op == expecting_op {
            Ok(t)
        } else {
            Err(ExpressionParseError::UnexpectedToken(t))
        }
    }
}

/// Parses the expression at `pos` by precedence climbing.
fn parse_expr(src: &[Token], pos: usize, min: u32) -> (r: Result<
    (Expression, usize),
    ExpressionParseError,
>)
    requires
        pos <= src@.len(),
    ensures
        match r {
            Ok((e, p)) => {
                &&& parse_from(src@, pos as int, min as int) == Ok::<
                    (Expression, int),
                    ParseFailure,
                >((e, p as int))
                &&& pos < p <= src@.len()
            },
            Err(x) => parse_from(src@, pos as int, min as int) == Err::<
                (Expression, int),
                ParseFailure,
            >(x@),
        },
    decreases src@.len() - pos,
{
    let first = parse_token(src, pos, false);
    let n = match first {
        Err(e) => return Err(e),
        Ok(Token::Number(n)) => n,
        Ok(Token::Operator(c)) => return Err(ExpressionParseError::UnexpectedToken(Token::Operator(c))),
    };
    let len: usize = src.len();
    assert(pos < len);
    let ghost target = parse_from(src@, pos as int, min as int);
    let mut left = Expression::Number(n);
    let mut p: usize = pos + 1;
    while p < src.len()
        invariant
            pos < p <= src@.len(),
            target == parse_from(src@, pos as int, min as int),
            target == climb(src@, p as int, min as int, left),
        decreases src@.len() - p,
    {
        let c = match parse_token(src, p, true) {
            Err(e) => return Err(e),
            Ok(Token::Operator(c)) => c,
            Ok(Token::Number(m)) => return Err(ExpressionParseError::UnexpectedToken(Token::Number(m))),
        };
        let t = match OperatorType::try_from(c) {
            Ok(t) => t,
            Err(e) => return Err(ExpressionParseError::UnknownOperator(e)),
        };
        let bp = match BindingPower::of(t) {
            Some(b) => b,
            None => return Err(ExpressionParseError::UndefinedPrecedence(t)),
        };
        if bp.right() < min {
            return Ok((left, p));
        }
        match parse_expr(src, p + 1, bp.left()) {
            Err(e) => return Err(e),
            Ok((right, next)) => {
                left = Expression::Op(Box::new(Operator { typ: t, lhs: left, rhs: right }));
                p = next;
            },
        }
    }
    Ok((left, p))
}

/// Builds the expression tree of a token sequence, honouring each operator's precedence
/// and associativity.
pub fn parse(src: &[Token]) -> (r: Result<Expression, ExpressionParseError>)
    ensures
        match r {
            Ok(e) => parse_spec(src@) == Ok::<Expression, ParseFailure>(e),
            Err(x) => parse_spec(src@) == Err::<Expression, ParseFailure>(x@),
        },
{
    match parse_expr(src, 0, 0) {
        Ok((e, _)) => Ok(e),
        Err(x) => Err(x),
    }
}

/// A single literal parses as itself.
pub proof fn lemma_parse_literal(a: i64)
    ensures
        parse_spec(seq![Token::Number(a)]) == Ok::<Expression, ParseFailure>(
            Expression::Number(a),
        ),
{
    let ts = seq![Token::Number(a)];
    assert(climb(ts, 1, 0, Expression::Number(a)) == Ok::<(Expression, int), ParseFailure>(
        (Expression::Number(a), 1),
    ));
}

/// Multiplication binds tighter than addition: `a + b * c` groups as `a + (b * c)`.
pub proof fn lemma_mul_binds_tighter(a: i64, b: i64, c: i64)
    ensures
        parse_spec(
            seq![
                Token::Number(a),
                Token::Operator('+'),
                Token::Number(b),
                Token::Operator('*'),
                Token::Number(c),
            ],
        ) == Ok::<Expression, ParseFailure>(
            node(
                OperatorType::Add,
                Expression::Number(a),
                node(OperatorType::Mul, Expression::Number(b), Expression::Number(c)),
            ),
        ),
{
    let ts = seq![
        Token::Number(a),
        Token::Operator('+'),
        Token::Number(b),
        Token::Operator('*'),
        Token::Number(c),
    ];
    let bc = node(OperatorType::Mul, Expression::Number(b), Expression::Number(c));
    let all = node(OperatorType::Add, Expression::Number(a), bc);
    assert(climb(ts, 5, 21, Expression::Number(c)) == Ok::<(Expression, int), ParseFailure>(
        (Expression::Number(c), 5),
    ));
    assert(parse_from(ts, 4, 21) == Ok::<(Expression, int), ParseFailure>(
        (Expression::Number(c), 5),
    ));
    assert(climb(ts, 5, 11, bc) == Ok::<(Expression, int), ParseFailure>((bc, 5)));
    assert(climb(ts, 3, 11, Expression::Number(b)) == Ok::<(Expression, int), ParseFailure>(
        (bc, 5),
    ));
    assert(parse_from(ts, 2, 11) == Ok::<(Expression, int), ParseFailure>((bc, 5)));
    assert(climb(ts, 5, 0, all) == Ok::<(Expression, int), ParseFailure>((all, 5)));
    assert(climb(ts, 1, 0, Expression::Number(a)) == Ok::<(Expression, int), ParseFailure>(
        (all, 5),
    ));
}

/// Addition groups to the left: `a + b + c` groups as `(a + b) + c`.
pub proof fn lemma_add_groups_left(a: i64, b: i64, c: i64)
    ensures
        parse_spec(
            seq![
                Token::Number(a),
                Token::Operator('+'),
                Token::Number(b),
                Token::Operator('+'),
                Token::Number(c),
            ],
        ) == Ok::<Expression, ParseFailure>(
            node(
                OperatorType::Add,
                node(OperatorType::Add, Expression::Number(a), Expression::Number(b)),
                Expression::Number(c),
            ),
        ),
{
    let ts = seq![
        Token::Number(a),
        Token::Operator('+'),
        Token::Number(b),
        Token::Operator('+'),
        Token::Number(c),
    ];
    let ab = node(OperatorType::Add, Expression::Number(a), Expression::Number(b));
    let all = node(OperatorType::Add, ab, Expression::Number(c));
    assert(climb(ts, 5, 11, Expression::Number(c)) == Ok::<(Expression, int), ParseFailure>(
        (Expression::Number(c), 5),
    ));
    assert(parse_from(ts, 4, 11) == Ok::<(Expression, int), ParseFailure>(
        (Expression::Number(c), 5),
    ));
    assert(climb(ts, 3, 11, Expression::Number(b)) == Ok::<(Expression, int), ParseFailure>(
        (Expression::Number(b), 3),
    ));
    assert(parse_from(ts, 2, 11) == Ok::<(Expression, int), ParseFailure>(
        (Expression::Number(b), 3),
    ));
    assert(climb(ts, 5, 0, all) == Ok::<(Expression, int), ParseFailure>((all, 5)));
    assert(climb(ts, 3, 0, ab) == Ok::<(Expression, int), ParseFailure>((all, 5)));
    assert(climb(ts, 1, 0, Expression::Number(a)) == Ok::<(Expression, int), ParseFailure>(
        (all, 5),
    ));
}

/// Division groups to the right: `a / b / c` groups as `a / (b / c)`.
pub proof fn lemma_div_groups_right(a: i64, b: i64, c: i64)
    ensures
        parse_spec(
            seq![
                Token::Number(a),
                Token::Operator('/'),
                Token::Number(b),
                Token::Operator('/'),
                Token::Number(c),
            ],
        ) == Ok::<Expression, ParseFailure>(
            node(
                OperatorType::Div,
                Expression::Number(a),
                node(OperatorType::Div, Expression::Number(b), Expression::Number(c)),
            ),
        ),
{
    let ts = seq![
        Token::Number(a),
        Token::Operator('/'),
        Token::Number(b),
        Token::Operator('/'),
        Token::Number(c),
    ];
    let bc = node(OperatorType::Div, Expression::Number(b), Expression::Number(c));
    let all = node(OperatorType::Div, Expression::Number(a), bc);
    assert(climb(ts, 5, 20, Expression::Number(c)) == Ok::<(Expression, int), ParseFailure>(
        (Expression::Number(c), 5),
    ));
    assert(parse_from(ts, 4, 20) == Ok::<(Expression, int), ParseFailure>(
        (Expression::Number(c), 5),
    ));
    assert(climb(ts, 5, 20, bc) == Ok::<(Expression, int), ParseFailure>((bc, 5)));
    assert(climb(ts, 3, 20, Expression::Number(b)) == Ok::<(Expression, int), ParseFailure>(
        (bc, 5),
    ));
    assert(parse_from(ts, 2, 20) == Ok::<(Expression, int), ParseFailure>((bc, 5)));
    assert(climb(ts, 5, 0, all) == Ok::<(Expression, int), ParseFailure>((all, 5)));
    assert(climb(ts, 1, 0, Expression::Number(a)) == Ok::<(Expression, int), ParseFailure>(
        (all, 5),
    ));
}

/// A sequence that starts with an operator fails on that operator, and one that ends
/// after an operator fails for want of a number.
pub proof fn lemma_parse_failures(a: i64, c: char)
    ensures
        parse_spec(seq![Token::Operator(c), Token::Number(a)]) == Err::<Expression, ParseFailure>(
            ParseFailure::UnexpectedToken(Token::Operator(c)),
        ),
        parse_spec(Seq::empty()) == Err::<Expression, ParseFailure>(
            ParseFailure::EndOfInput("Number"@),
        ),
        (c == '+' || c == '-' || c == '*' || c == '/') ==> parse_spec(
            seq![Token::Number(a), Token::Operator(c)],
        ) == Err::<Expression, ParseFailure>(ParseFailure::EndOfInput("Number"@)),
{
    let ts = seq![Token::Number(a), Token::Operator(c)];
    assert(parse_from(ts, 2, 0) == Err::<(Expression, int), ParseFailure>(
        ParseFailure::EndOfInput("Number"@),
    ));
    assert(parse_from(ts, 2, 11) == Err::<(Expression, int), ParseFailure>(
        ParseFailure::EndOfInput("Number"@),
    ));
    assert(parse_from(ts, 2, 21) == Err::<(Expression, int), ParseFailure>(
        ParseFailure::EndOfInput("Number"@),
    ));
    assert(parse_from(ts, 2, 20) == Err::<(Expression, int), ParseFailure>(
        ParseFailure::EndOfInput("Number"@),
    ));
}

/// The tokens of `e` read from left to right.
pub open spec fn tokens_of(e: Expression) -> Seq<Token>
    decreases e,
{
    match e {
        Expression::Number(n) => seq![Token::Number(n)],
        Expression::Op(op) => tokens_of(op.lhs) + seq![Token::Operator(symbol_of(op.typ))]
            + tokens_of(op.rhs),
    }
}

proof fn lemma_parse_from_reads(ts: Seq<Token>, pos: int, min: int)
    requires
        0 <= pos,
    ensures
        parse_from(ts, pos, min) matches Ok((e, p)) ==> pos < p <= ts.len() && tokens_of(e)
            == ts.subrange(pos, p),
    decreases ts.len() - pos, 1int,
{
    if 0 <= pos < ts.len() {
        if let Token::Number(n) = ts[pos] {
            assert(seq![Token::Number(n)] =~= ts.subrange(pos, pos + 1));
            lemma_climb_reads(ts, pos + 1, min, Expression::Number(n), pos);
        }
    }
}

proof fn lemma_climb_reads(ts: Seq<Token>, pos: int, min: int, left: Expression, q: int)
    requires
        0 <= q < pos <= ts.len(),
        tokens_of(left) == ts.subrange(q, pos),
    ensures
        climb(ts, pos, min, left) matches Ok((e, p)) ==> pos <= p <= ts.len() && tokens_of(e)
            == ts.subrange(q, p),
        min == 0 ==> (climb(ts, pos, min, left) matches Ok((e, p)) ==> p == ts.len()),
    decreases ts.len() - pos, 0int,
{
    if pos < ts.len() {
        if let Token::Operator(c) = ts[pos] {
            if let Some(t) = kind_of(c) {
                if let Some(bp) = power_of(t) {
                    if (bp.1 as int) >= min {
                        lemma_parse_from_reads(ts, pos + 1, bp.0 as int);
                        if let Ok((right, next)) = parse_from(ts, pos + 1, bp.0 as int) {
                            let n = node(t, left, right);
                            assert(symbol_of(t) == c);
                            assert(tokens_of(n) =~= ts.subrange(q, next));
                            lemma_climb_reads(ts, next, min, n, q);
                        }
                    }
                }
            }
        }
    }
}

/// A successful parse reads every token, and the tree holds them in their order: read
/// from left to right, its leaves and operators give back the token sequence.
pub proof fn lemma_parse_reads_all(ts: Seq<Token>)
    ensures
        parse_from(ts, 0, 0) matches Ok((_, p)) ==> p == ts.len(),
        parse_spec(ts) matches Ok(e) ==> tokens_of(e) == ts,
{
    if 0 < ts.len() {
        if let Token::Number(n) = ts[0] {
            assert(seq![Token::Number(n)] =~= ts.subrange(0, 1));
            lemma_climb_reads(ts, 1, 0, Expression::Number(n), 0);
            assert(ts.subrange(0, ts.len() as int) =~= ts);
        }
    }
}

} // verus!
