use calc::parser::{Expression, Operator};
use calc::render::render;
use calc::{lex, parse, OperatorType};

#[test]
fn literal_alone() {
    assert_eq!(render(&Expression::Number(5)), "5\n");
    assert_eq!(render(&Expression::Number(-42)), "-42\n");
    assert_eq!(render(&Expression::Number(i64::MIN)), "-9223372036854775808\n");
    assert_eq!(render(&Expression::Number(1234567890)), "1234567890\n");
}

#[test]
fn one_node() {
    let e = Expression::Op(Box::new(Operator {
        typ: OperatorType::Add,
        lhs: Expression::Number(1),
        rhs: Expression::Number(2),
    }));
    assert_eq!(render(&e), "OpAdd ──┬─▶ 1\n        └─▶ 2\n");
}

#[test]
fn nested_right_subtree() {
    let e = parse(&lex("1 + 2 * 3").unwrap()).unwrap();
    assert_eq!(
        render(&e),
        "OpAdd ──┬─▶ 1\n        └─▶ OpMul ──┬─▶ 2\n                    └─▶ 3\n"
    );
}

#[test]
fn nested_left_subtree() {
    let e = parse(&lex("8 + 2 - 3").unwrap()).unwrap();
    assert_eq!(
        render(&e),
        "OpSub ──┬─▶ OpAdd ──┬─▶ 8\n        │           └─▶ 2\n        └─▶ 3\n"
    );
}
