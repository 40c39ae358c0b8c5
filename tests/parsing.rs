use calc::parser::{parse, Expression, ExpressionParseError, Operator};
use calc::{lex, OperatorType, Token, UnknownOperatorTypeError};

fn num(n: i64) -> Expression {
    Expression::Number(n)
}

fn op(typ: OperatorType, lhs: Expression, rhs: Expression) -> Expression {
    Expression::Op(Box::new(Operator { typ, lhs, rhs }))
}

fn parse_line(line: &str) -> Result<Expression, ExpressionParseError> {
    parse(&lex(line).unwrap())
}

#[test]
fn single_literal() {
    assert_eq!(parse_line("5"), Ok(num(5)));
}

#[test]
fn one_addition() {
    assert_eq!(parse_line("1 + 2"), Ok(op(OperatorType::Add, num(1), num(2))));
}

#[test]
fn multiplication_binds_tighter() {
    assert_eq!(
        parse_line("1 + 2 * 3"),
        Ok(op(OperatorType::Add, num(1), op(OperatorType::Mul, num(2), num(3))))
    );
    assert_eq!(
        parse_line("2 * 3 + 1"),
        Ok(op(OperatorType::Add, op(OperatorType::Mul, num(2), num(3)), num(1)))
    );
}

#[test]
fn addition_groups_left() {
    assert_eq!(
        parse_line("8 + 2 + 2"),
        Ok(op(OperatorType::Add, op(OperatorType::Add, num(8), num(2)), num(2)))
    );
    assert_eq!(
        parse_line("8 - 2 + 2"),
        Ok(op(OperatorType::Add, op(OperatorType::Sub, num(8), num(2)), num(2)))
    );
}

#[test]
fn multiplication_groups_left() {
    assert_eq!(
        parse_line("2 * 3 * 4"),
        Ok(op(OperatorType::Mul, op(OperatorType::Mul, num(2), num(3)), num(4)))
    );
}

#[test]
fn division_groups_right() {
    assert_eq!(
        parse_line("8 / 4 / 2"),
        Ok(op(OperatorType::Div, num(8), op(OperatorType::Div, num(4), num(2))))
    );
}

#[test]
fn operator_first_is_unexpected() {
    assert_eq!(
        parse_line("+ 1"),
        Err(ExpressionParseError::UnexpectedToken(Token::Operator('+')))
    );
}

#[test]
fn empty_input_wants_a_number() {
    assert_eq!(
        parse_line(""),
        Err(ExpressionParseError::EndOfInput("Number".to_string()))
    );
}

#[test]
fn missing_right_operand_wants_a_number() {
    assert_eq!(
        parse_line("1 +"),
        Err(ExpressionParseError::EndOfInput("Number".to_string()))
    );
}

#[test]
fn adjacent_literals_are_unexpected() {
    assert_eq!(
        parse_line("1 2"),
        Err(ExpressionParseError::UnexpectedToken(Token::Number(2)))
    );
    assert_eq!(
        parse_line("1 + 2 3"),
        Err(ExpressionParseError::UnexpectedToken(Token::Number(3)))
    );
}

#[test]
fn undefined_precedence_fails() {
    let tokens = vec![Token::Number(2), Token::Operator('^'), Token::Number(3)];
    assert_eq!(
        parse(&tokens),
        Err(ExpressionParseError::UndefinedPrecedence(OperatorType::Pow))
    );
    let tokens = vec![Token::Number(2), Token::Operator('%'), Token::Number(3)];
    assert_eq!(
        parse(&tokens),
        Err(ExpressionParseError::UndefinedPrecedence(OperatorType::Mod))
    );
}

#[test]
fn unknown_operator_symbol_fails() {
    let tokens = vec![Token::Number(2), Token::Operator('&'), Token::Number(3)];
    assert_eq!(
        parse(&tokens),
        Err(ExpressionParseError::UnknownOperator(UnknownOperatorTypeError::from('&')))
    );
}
