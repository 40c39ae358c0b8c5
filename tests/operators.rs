use calc::{BindingPower, OperatorType, UnknownOperatorTypeError};

const KINDS: [(char, OperatorType); 6] = [
    ('+', OperatorType::Add),
    ('-', OperatorType::Sub),
    ('*', OperatorType::Mul),
    ('/', OperatorType::Div),
    ('^', OperatorType::Pow),
    ('%', OperatorType::Mod),
];

#[test]
fn classify_all_six_symbols() {
    for (c, t) in KINDS {
        assert_eq!(OperatorType::try_from(c), Ok(t));
        assert_eq!(t.symbol(), c);
    }
}

#[test]
fn classify_is_injective() {
    for (i, (a, _)) in KINDS.iter().enumerate() {
        for (j, (b, _)) in KINDS.iter().enumerate() {
            let same = OperatorType::try_from(*a) == OperatorType::try_from(*b);
            assert_eq!(same, i == j);
        }
    }
}

#[test]
fn classify_rejects_other_characters() {
    for c in ['x', '1', ' ', '(', '&'] {
        assert_eq!(OperatorType::try_from(c), Err(UnknownOperatorTypeError::from(c)));
        assert_eq!(UnknownOperatorTypeError::from(c).op, c);
    }
}

#[test]
fn binding_powers() {
    let add = BindingPower::of(OperatorType::Add).unwrap();
    assert_eq!((add.left(), add.right()), (11, 10));
    let sub = BindingPower::of(OperatorType::Sub).unwrap();
    assert_eq!((sub.left(), sub.right()), (11, 10));
    let mul = BindingPower::of(OperatorType::Mul).unwrap();
    assert_eq!((mul.left(), mul.right()), (21, 20));
    let div = BindingPower::of(OperatorType::Div).unwrap();
    assert_eq!((div.left(), div.right()), (20, 21));
    assert_eq!(BindingPower::of(OperatorType::Pow), None);
    assert_eq!(BindingPower::of(OperatorType::Mod), None);
}

#[test]
fn display_names() {
    assert_eq!(OperatorType::Add.name(), "OpAdd");
    assert_eq!(OperatorType::Sub.name(), "OpSub");
    assert_eq!(OperatorType::Mul.name(), "OpMul");
    assert_eq!(OperatorType::Div.name(), "OpDiv");
    assert_eq!(OperatorType::Pow.name(), "OpPow");
    assert_eq!(OperatorType::Mod.name(), "OpMod");
}
