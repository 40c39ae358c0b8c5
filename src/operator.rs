use vstd::prelude::*;

verus! {

/// The kinds of binary operator that an expression may hold.
#[derive(Debug, Clone, Copy, PartialEq, Eq, Structural)]
pub enum OperatorType {
    Add,
    Sub,
    Mul,
    Div,
    Pow,
    Mod,
}

/// A character that names no operator kind.
#[derive(Debug, Clone, Copy, PartialEq, Eq, Structural)]
pub struct UnknownOperatorTypeError {
    pub op: char,
}

impl UnknownOperatorTypeError {
    /// The error for the character `c`.
    pub fn from(c: char) -> (r: Self)
        ensures
            r.op == c,
    {
        UnknownOperatorTypeError { op: c }
    }
}

/// The operator kind that `c` names, if any.
pub open spec fn kind_of(c: char) -> Option<OperatorType> {
    if c == '+' {
        Some(OperatorType::Add)
    } else if c == '-' {
        Some(OperatorType::Sub)
    } else if c == '*' {
        Some(OperatorType::Mul)
    } else if c == '/' {
        Some(OperatorType::Div)
    } else if c == '^' {
        Some(OperatorType::Pow)
    } else if c == '%' {
        Some(OperatorType::Mod)
    } else {
        None
    }
}

/// The symbol that writes `t`.
pub open spec fn symbol_of(t: OperatorType) -> char {
    match t {
        OperatorType::Add => '+',
        OperatorType::Sub => '-',
        OperatorType::Mul => '*',
        OperatorType::Div => '/',
        OperatorType::Pow => '^',
        OperatorType::Mod => '%',
    }
}

/// The display name of `t`.
pub open spec fn name_of(t: OperatorType) -> Seq<char> {
    match t {
        OperatorType::Add => "OpAdd"@,
        OperatorType::Sub => "OpSub"@,
        OperatorType::Mul => "OpMul"@,
        OperatorType::Div => "OpDiv"@,
        OperatorType::Pow => "OpPow"@,
        OperatorType::Mod => "OpMod"@,
    }
}

impl OperatorType {
    /// Classifies an operator symbol; any character but the six symbols fails.
    pub fn try_from(value: char) -> (r: Result<OperatorType, UnknownOperatorTypeError>)
        ensures
            match kind_of(value) {
                Some(t) => r == Ok::<OperatorType, UnknownOperatorTypeError>(t),
                None => r == Err::<OperatorType, UnknownOperatorTypeError>(
                    UnknownOperatorTypeError { op: value },
                ),
            },
    {
        if value == '+' {
            Ok(OperatorType::Add)
        } else if value == '-' {
            Ok(OperatorType::Sub)
        } else if value == '*' {
            Ok(OperatorType::Mul)
        } else if value == '/' {
            Ok(OperatorType::Div)
        } else if value == '^' {
            Ok(OperatorType::Pow)
        } else if value == '%' {
            Ok(OperatorType::Mod)
        } else {
            Err(UnknownOperatorTypeError::from(value))
        }
    }

    /// The symbol that writes this operator.
    pub fn symbol(&self) -> (r: char)
        ensures
            r == symbol_of(*self),
    {
        match self {
            OperatorType::Add => '+',
            OperatorType::Sub => '-',
            OperatorType::Mul => '*',
            OperatorType::Div => '/',
            OperatorType::Pow => '^',
            OperatorType::Mod => '%',
        }
    }

    /// The name under which this operator is shown.
    pub fn name(&self) -> (r: &'static str)
        ensures
            r@ == name_of(*self),
    {
        match self {
            OperatorType::Add => "OpAdd",
            OperatorType::Sub => "OpSub",
            OperatorType::Mul => "OpMul",
            OperatorType::Div => "OpDiv",
            OperatorType::Pow => "OpPow",
            OperatorType::Mod => "OpMod",
        }
    }
}

/// Classification is injective: distinct symbols that both name a kind name distinct kinds.
pub proof fn lemma_kind_of_injective(a: char, b: char)
    requires
        kind_of(a) is Some,
        kind_of(b) is Some,
        a != b,
    ensures
        kind_of(a) != kind_of(b),
{
}

/// Classification is total on the six operator symbols and undone by `symbol_of`;
/// every other character names no kind.
pub proof fn lemma_kind_of_total(c: char)
    ensures
        kind_of(c) is Some <==> (c == '+' || c == '-' || c == '*' || c == '/' || c == '^'
            || c == '%'),
        kind_of(c) matches Some(t) ==> symbol_of(t) == c,
{
}

/// Every kind is named by its own symbol.
pub proof fn lemma_symbol_round_trip(t: OperatorType)
    ensures
        kind_of(symbol_of(t)) == Some(t),
{
}

/// How tightly an operator binds, in tenths.
///
/// `left` is the threshold that the operator sets for its right operand: an operator
/// further right takes that operand only if its `right` is at least this threshold.
/// Among operators of one kind, `left` above `right` thus groups to the left, and
/// `right` above `left` to the right.
#[derive(Debug, Clone, Copy, PartialEq, Eq, Structural)]
pub struct BindingPower {
    lhs: u32,
    rhs: u32,
}

/// The binding power of `t` as (left, right), where one is defined.
pub open spec fn power_of(t: OperatorType) -> Option<(u32, u32)> {
    match t {
        OperatorType::Add => Some((11, 10)),
        OperatorType::Sub => Some((11, 10)),
        OperatorType::Mul => Some((21, 20)),
        OperatorType::Div => Some((20, 21)),
        _ => None,
    }
}

impl BindingPower {
    pub closed spec fn spec_left(&self) -> u32 {
        self.lhs
    }

    pub closed spec fn spec_right(&self) -> u32 {
        self.rhs
    }

    /// The binding power of `op`; `None` for the operators whose precedence is undefined.
    pub fn of(op: OperatorType) -> (r: Option<BindingPower>)
        ensures
            match power_of(op) {
                Some(p) => r matches Some(b) && b.spec_left() == p.0 && b.spec_right() == p.1,
                None => r is None,
            },
    {
        match op {
            OperatorType::Add => Some(BindingPower { lhs: 11, rhs: 10 }),
            OperatorType::Sub => Some(BindingPower { lhs: 11, rhs: 10 }),
            OperatorType::Mul => Some(BindingPower { lhs: 21, rhs: 20 }),
            OperatorType::Div => Some(BindingPower { lhs: 20, rhs: 21 }),
            _ => None,
        }
    }

    pub fn left(&self) -> (r: u32)
        ensures
            r == self.spec_left(),
    {
        self.lhs
    }

    pub fn right(&self) -> (r: u32)
        ensures
            r == self.spec_right(),
    {
        self.rhs
    }
}

} // verus!
