use vstd::prelude::*;

use crate::operator::name_of;
use crate::parser::Expression;

verus! {

/// The character of the decimal digit `d`.
pub open spec fn digit_char(d: nat) -> char {
    if d == 0 {
        '0'
    } else if d == 1 {
        '1'
    } else if d == 2 {
        '2'
    } else if d == 3 {
        '3'
    } else if d == 4 {
        '4'
    } else if d == 5 {
        '5'
    } else if d == 6 {
        '6'
    } else if d == 7 {
        '7'
    } else if d == 8 {
        '8'
    } else {
        '9'
    }
}

/// The decimal digits of `n`, most significant first, with no leading zero.
pub open spec fn digits_of(n: nat) -> Seq<char>
    decreases n,
{
    if n < 10 {
        seq![digit_char(n)]
    } else {
        digits_of(n / 10).push(digit_char(n % 10))
    }
}

/// `n` written in decimal, with a leading `-` where it is negative.
pub open spec fn decimal(n: int) -> Seq<char> {
    if n < 0 {
        seq!['-'] + digits_of((-n) as nat)
    } else {
        digits_of(n as nat)
    }
}

/// The columns drawn before a right subtree at `depth`: one guide per enclosing level,
/// blank where the subtree hangs off the bottom branch, and an arrow for the last.
pub open spec fn indent(depth: nat, bottom: bool) -> Seq<char>
    decreases depth,
{
    if depth == 0 {
        Seq::empty()
    } else if depth == 1 {
        "        └─▶ "@
    } else {
        (if bottom {
            "            "@
        } else {
            "        │   "@
        }) + indent((depth - 1) as nat, bottom)
    }
}

/// The number of levels of `e`.
pub open spec fn height(e: Expression) -> nat
    decreases e,
{
    match e {
        Expression::Number(_) => 1,
        Expression::Op(op) => {
            let l = height(op.lhs);
            let r = height(op.rhs);
            1 + if l > r {
                l
            } else {
                r
            }
        },
    }
}

/// The drawing of `e`: a literal as its value; a node as its operator's name and a branch
/// to its left subtree on the same line, then its right subtree on the next line,
/// indented to its depth.
#[verifier::opaque]
pub open spec fn drawing(e: Expression, new_line: bool, depth: nat, bottom: bool) -> Seq<char>
    decreases e,
{
    (if new_line {
        indent(depth, bottom)
    } else {
        Seq::empty()
    }) + match e {
        Expression::Number(n) => decimal(n as int),
        Expression::Op(op) => name_of(op.typ) + " ──┬─▶ "@ + drawing(
            op.lhs,
            false,
            depth + 1,
            false,
        ) + "\n"@ + drawing(
            op.rhs,
            true,
            depth + 1,
            if depth == 0 {
                true
            } else {
                bottom
            },
        ),
    }
}

fn digit_str(d: u64) -> (r: &'static str)
    requires
        d < 10,
    ensures
        r@ == seq![digit_char(d as nat)],
{
    proof {
        reveal_strlit("0");
        reveal_strlit("1");
        reveal_strlit("2");
        reveal_strlit("3");
        reveal_strlit("4");
        reveal_strlit("5");
        reveal_strlit("6");
        reveal_strlit("7");
        reveal_strlit("8");
        reveal_strlit("9");
    }
    if d == 0 {
        "0"
    } else if d == 1 {
        "1"
    } else if d == 2 {
        "2"
    } else if d == 3 {
        "3"
    } else if d == 4 {
        "4"
    } else if d == 5 {
        "5"
    } else if d == 6 {
        "6"
    } else if d == 7 {
        "7"
    } else if d == 8 {
        "8"
    } else {
        "9"
    }
}

fn push_digits(n: u64, out: &mut String)
    ensures
        final(out)@ == old(out)@ + digits_of(n as nat),
    decreases n,
{
    if n >= 10 {
        push_digits(n / 10, out);
    }
    out.append(digit_str(n % 10));
    assert(n < 10 ==> seq![digit_char(n as nat)] == digits_of(n as nat));
}

fn push_decimal(n: i64, out: &mut String)
    ensures
        final(out)@ == old(out)@ + decimal(n as int),
{
    if n < 0 {
        proof {
            reveal_strlit("-");
        }
        out.append("-");
        let m: u64 = if n == i64::MIN {
            9223372036854775808u64
        } else {
            (-n) as u64
        };
        push_digits(m, out);
    } else {
        push_digits(n as u64, out);
    }
}

fn push_indent(depth: usize, bottom: bool, out: &mut String)
    ensures
        final(out)@ == old(out)@ + indent(depth as nat, bottom),
{
    let mut i: usize = depth;
    while i > 1
        invariant
            i <= depth,
            depth > 1 ==> i >= 1,
            depth <= 1 ==> i == depth,
            old(out)@ + indent(depth as nat, bottom) == out@ + indent(i as nat, bottom),
        decreases i,
    {
        if bottom {
            out.append("            ");
        } else {
            out.append("        │   ");
        }
        i = i - 1;
    }
    if i == 1 {
        out.append("        └─▶ ");
    }
}

fn push_drawing(e: &Expression, new_line: bool, depth: usize, bottom: bool, out: &mut String)
    requires
        depth + height(*e) <= usize::MAX,
    ensures
        final(out)@ == old(out)@ + drawing(*e, new_line, depth as nat, bottom),
    decreases *e,
{
    let ghost start = out@;
    if new_line {
        push_indent(depth, bottom, out);
    }
    let ghost head = if new_line {
        indent(depth as nat, bottom)
    } else {
        Seq::<char>::empty()
    };
    assert(out@ =~= start + head);
    match e {
        Expression::Number(n) => {
            push_decimal(*n, out);
            assert(out@ =~= start + (head + decimal(*n as int)));
            assert(drawing(*e, new_line, depth as nat, bottom) == head + decimal(*n as int)) by {
                reveal(drawing);
            }
        },
        Expression::Op(op) => {
            assert(height(op.lhs) < height(*e) && height(op.rhs) < height(*e));
            out.append(op.typ.name());
            out.append(" ──┬─▶ ");
            let ghost a = out@;
            push_drawing(&op.lhs, false, depth + 1, false, out);
            let ghost dl = drawing(op.lhs, false, (depth + 1) as nat, false);
            assert(out@ == a + dl);
            out.append("\n");
            let b = if depth == 0 {
                true
            } else {
                bottom
            };
            let ghost c = out@;
            push_drawing(&op.rhs, true, depth + 1, b, out);
            let ghost dr = drawing(op.rhs, true, (depth + 1) as nat, b);
            assert(out@ == c + dr);
            let ghost body = name_of(op.typ) + " ──┬─▶ "@ + dl + "\n"@ + dr;
            assert(drawing(*e, new_line, depth as nat, bottom) == head + body) by {
                reveal(drawing);
            }
            assert(out@ =~= start + (head + body));
        },
    }
}

/// Draws the operator tree of `expr`, followed by a line break.
pub fn render(expr: &Expression) -> (r: String)
    requires
        height(*expr) <= usize::MAX,
    ensures
        r@ == drawing(*expr, false, 0, false) + "\n"@,
{
    let mut out = String::new();
    push_drawing(expr, false, 0, false, &mut out);
    out.append("\n");
    out
}

} // verus!
