//! The diagnostic text renderings, at the specification level.
//!
//! The executable renderers on measures and propositions promise to produce
//! exactly these character sequences: decimal digits built here from first
//! principles, zero offsets elided by node identity, and `min`/`max`
//! selections recognized by the identity of their operands.

use vstd::prelude::*;

verus! {

use crate::layout::context::LayoutContext;
use crate::layout::measure::{Measure, MeasureVariant};
use crate::layout::prop::{Prop, PropVariant};
use vstd::string::StringExecFns;

/// The character of one decimal digit.
pub open spec fn digit_char(d: int) -> char {
    if d == 0 {
        '0'
    } else if d == 1 {
        '1'
    } else if d == 2 {
        '2'
    } else if d == 3 {
        '3'
    } else if d == 4 {
        '4'
    } else if d == 5 {
        '5'
    } else if d == 6 {
        '6'
    } else if d == 7 {
        '7'
    } else if d == 8 {
        '8'
    } else {
        '9'
    }
}

/// The decimal digits of a natural number, most significant first.
pub open spec fn decimal_nat(n: nat) -> Seq<char>
    decreases n,
{
    if n < 10 {
        seq![digit_char(n as int)]
    } else {
        decimal_nat(n / 10).push(digit_char((n % 10) as int))
    }
}

/// The decimal rendering of an integer, with a leading minus when negative.
pub open spec fn decimal_int(n: int) -> Seq<char> {
    if n < 0 {
        seq!['-'] + decimal_nat((-n) as nat)
    } else {
        decimal_nat(n as nat)
    }
}

/// One decimal digit as text.
fn digit_str(d: u64) -> (r: &'static str)
    requires
        d < 10,
    ensures
        r@ == seq![digit_char(d as int)],
{
    proof {
        reveal_strlit("0");
        reveal_strlit("1");
        reveal_strlit("2");
        reveal_strlit("3");
        reveal_strlit("4");
        reveal_strlit("5");
        reveal_strlit("6");
        reveal_strlit("7");
        reveal_strlit("8");
        reveal_strlit("9");
    }
    if d == 0 {
        "0"
    } else if d == 1 {
        "1"
    } else if d == 2 {
        "2"
    } else if d == 3 {
        "3"
    } else if d == 4 {
        "4"
    } else if d == 5 {
        "5"
    } else if d == 6 {
        "6"
    } else if d == 7 {
        "7"
    } else if d == 8 {
        "8"
    } else {
        "9"
    }
}

/// Renders a natural number in decimal.
pub(crate) fn digits_u64(n: u64) -> (r: String)
    ensures
        r@ == decimal_nat(n as nat),
    decreases n,
{
    if n < 10 {
        <String as StringExecFns>::from_str(digit_str(n))
    } else {
        let mut r = digits_u64(n / 10);
        r.append(digit_str(n % 10));
        proof {
            assert(r@ =~= decimal_nat(n as nat));
        }
        r
    }
}

/// Renders a signed integer in decimal.
pub(crate) fn digits_i64(n: i64) -> (r: String)
    ensures
        r@ == decimal_int(n as int),
{
    if n < 0 {
        let magnitude: u64 = (-(n as i128)) as u64;
        let mut r = <String as StringExecFns>::from_str("-");
        r.append(digits_u64(magnitude).as_str());
        proof {
            reveal_strlit("-");
            assert(r@ =~= decimal_int(n as int));
        }
        r
    } else {
        digits_u64(n as u64)
    }
}

/// Renders an index in decimal.
pub(crate) fn digits_usize(n: usize) -> (r: String)
    ensures
        r@ == decimal_nat(n as nat),
{
    digits_u64(n as u64)
}

/// The diagnostic rendering of a measure.  A node whose children do not sit
/// strictly below it renders as nothing; a well-formed arena holds none.
pub open spec fn measure_text(ctx: LayoutContext, m: Measure) -> Seq<char>
    decreases m.idx, 0int,
{
    if !m.wf(ctx) {
        Seq::empty()
    } else {
        match m.node(ctx) {
            MeasureVariant::Unbound => seq!['<'] + decimal_nat(m.idx as nat) + seq!['>'],
            MeasureVariant::Const(num, den) => if den == 1 {
                decimal_int(num as int)
            } else {
                decimal_int(num as int) + seq!['/'] + decimal_int(den as int)
            },
            MeasureVariant::Add(a, b) => if a.idx < m.idx && b.idx < m.idx {
                if b.idx == 0 {
                    measure_text(ctx, a)
                } else {
                    seq!['('] + measure_text(ctx, a) + seq![' ', '+', ' '] + measure_text(ctx, b)
                        + seq![')']
                }
            } else {
                Seq::empty()
            },
            MeasureVariant::Sub(a, b) => if a.idx < m.idx && b.idx < m.idx {
                if b.idx == 0 {
                    measure_text(ctx, a)
                } else {
                    seq!['('] + measure_text(ctx, a) + seq![' ', '-', ' '] + measure_text(ctx, b)
                        + seq![')']
                }
            } else {
                Seq::empty()
            },
            MeasureVariant::Mul(a, b) => if a.idx < m.idx && b.idx < m.idx {
                seq!['('] + measure_text(ctx, a) + seq![' ', '*', ' '] + measure_text(ctx, b)
                    + seq![')']
            } else {
                Seq::empty()
            },
            MeasureVariant::Div(a, b) => if a.idx < m.idx && b.idx < m.idx {
                seq!['('] + measure_text(ctx, a) + seq![' ', '/', ' '] + measure_text(ctx, b)
                    + seq![')']
            } else {
                Seq::empty()
            },
            MeasureVariant::Select(c, a, b) => if c.idx < m.idx && a.idx < m.idx && b.idx < m.idx {
                if c.wf(ctx) && c.node(ctx) is Lt && (c.node(ctx)->Lt_0).idx == a.idx && (c.node(
                    ctx,
                )->Lt_1).idx == b.idx {
                    seq!['(', 'm', 'i', 'n', ' '] + measure_text(ctx, a) + seq![' ']
                        + measure_text(ctx, b) + seq![')']
                } else if c.wf(ctx) && c.node(ctx) is Gt && (c.node(ctx)->Gt_0).idx == a.idx && (
                c.node(ctx)->Gt_1).idx == b.idx {
                    seq!['(', 'm', 'a', 'x', ' '] + measure_text(ctx, a) + seq![' ']
                        + measure_text(ctx, b) + seq![')']
                } else {
                    seq!['(', 's', 'e', 'l', 'e', 'c', 't', ' ', '('] + prop_text(ctx, c) + seq![
                        ')',
                        ' ',
                    ] + measure_text(ctx, a) + seq![' '] + measure_text(ctx, b) + seq![')']
                }
            } else {
                Seq::empty()
            },
        }
    }
}

/// The diagnostic rendering of a proposition: comparisons infix, and
/// connectives spelled out with their operands parenthesized.
pub open spec fn prop_text(ctx: LayoutContext, p: Prop) -> Seq<char>
    decreases p.idx, 0int,
{
    if !p.wf(ctx) {
        Seq::empty()
    } else {
        match p.node(ctx) {
            PropVariant::Eq(a, b) => if a.idx < p.idx && b.idx < p.idx {
                measure_text(ctx, a) + seq![' ', '=', '=', ' '] + measure_text(ctx, b)
            } else {
                Seq::empty()
            },
            PropVariant::Lt(a, b) => if a.idx < p.idx && b.idx < p.idx {
                measure_text(ctx, a) + seq![' ', '<', ' '] + measure_text(ctx, b)
            } else {
                Seq::empty()
            },
            PropVariant::Le(a, b) => if a.idx < p.idx && b.idx < p.idx {
                measure_text(ctx, a) + seq![' ', '<', '=', ' '] + measure_text(ctx, b)
            } else {
                Seq::empty()
            },
            PropVariant::Gt(a, b) => if a.idx < p.idx && b.idx < p.idx {
                measure_text(ctx, a) + seq![' ', '>', ' '] + measure_text(ctx, b)
            } else {
                Seq::empty()
            },
            PropVariant::Ge(a, b) => if a.idx < p.idx && b.idx < p.idx {
                measure_text(ctx, a) + seq![' ', '>', '=', ' '] + measure_text(ctx, b)
            } else {
                Seq::empty()
            },
            PropVariant::Or(x, y) => if x.idx < p.idx && y.idx < p.idx {
                seq!['('] + prop_text(ctx, x) + seq![')', ' ', 'o', 'r', ' ', '('] + prop_text(
                    ctx,
                    y,
                ) + seq![')']
            } else {
                Seq::empty()
            },
            PropVariant::And(x, y) => if x.idx < p.idx && y.idx < p.idx {
                seq!['('] + prop_text(ctx, x) + seq![')', ' ', 'a', 'n', 'd', ' ', '('] + prop_text(
                    ctx,
                    y,
                ) + seq![')']
            } else {
                Seq::empty()
            },
            PropVariant::Not(x) => if x.idx < p.idx {
                seq!['n', 'o', 't', ' ', '('] + prop_text(ctx, x) + seq![')']
            } else {
                Seq::empty()
            },
        }
    }
}

} // verus!
