//! The boundary to the external optimizing solver.
//!
//! The engine consumes a minimal surface: build real and boolean expressions,
//! assert them softly with a weight, check satisfiability, and evaluate
//! expressions against a model.  Each item below is a thin trusted wrapper
//! around one call into the `z3` crate; everything the engine proves rests on
//! the contracts stated here.

use vstd::prelude::*;
use z3::ast::Ast;

verus! {

/// What a satisfiability check can answer.
#[derive(Clone, Copy, Debug, PartialEq, Eq, Structural)]
pub enum SatOutcome {
    Sat,
    Unsat,
    Unknown,
}

#[verifier::external_type_specification]
#[verifier::external_body]
pub struct ExReal(z3::ast::Real);

#[verifier::external_type_specification]
#[verifier::external_body]
pub struct ExBool(z3::ast::Bool);

#[verifier::external_type_specification]
#[verifier::external_body]
pub struct ExOptimize(z3::Optimize);

#[verifier::external_type_specification]
#[verifier::external_body]
pub struct ExModel(z3::Model);

/// Relies on z3's `Real::fresh_const`: a fresh solver variable over the
/// reals, deterministic only in creation order, not in name.
#[verifier::external_body]
pub(crate) fn fresh_real() -> z3::ast::Real {
    z3::ast::Real::fresh_const("measure_")
}

/// Relies on z3's `Real::from_rational_str` and `Real::unary_minus`: the
/// exact rational `num / den` as a solver constant, built from its decimal
/// digits and negated afterwards when the numerator is negative.  The solver
/// has no numeral with a non-positive denominator, so those inputs are
/// excluded.
#[verifier::external_body]
pub(crate) fn real_from_rational(num: i64, den: i64) -> z3::ast::Real
    requires
        den > 0,
{
    let magnitude: u64 = num.unsigned_abs();
    let num_digits = format!("{}", magnitude);
    let den_digits = format!("{}", den);
    let positive = z3::ast::Real::from_rational_str(&num_digits, &den_digits)
        .expect("solver rejected a rational constant");
    if num < 0 {
        positive.unary_minus()
    } else {
        positive
    }
}

/// Relies on z3's `Real::add`.
#[verifier::external_body]
pub(crate) fn real_add(a: &z3::ast::Real, b: &z3::ast::Real) -> z3::ast::Real {
    z3::ast::Real::add(&[a, b])
}

/// Relies on z3's `Real::sub`.
#[verifier::external_body]
pub(crate) fn real_sub(a: &z3::ast::Real, b: &z3::ast::Real) -> z3::ast::Real {
    z3::ast::Real::sub(&[a, b])
}

/// Relies on z3's `Real::mul`.
#[verifier::external_body]
pub(crate) fn real_mul(a: &z3::ast::Real, b: &z3::ast::Real) -> z3::ast::Real {
    z3::ast::Real::mul(&[a, b])
}

/// Relies on z3's `Real::div`.
#[verifier::external_body]
pub(crate) fn real_div(a: &z3::ast::Real, b: &z3::ast::Real) -> z3::ast::Real {
    a.div(b)
}

/// Relies on z3's `Ast::_eq`: the boolean solver expression `a == b`.
#[verifier::external_body]
pub(crate) fn real_eq(a: &z3::ast::Real, b: &z3::ast::Real) -> z3::ast::Bool {
    a._eq(b)
}

/// Relies on z3's `Real::lt`.
#[verifier::external_body]
pub(crate) fn real_lt(a: &z3::ast::Real, b: &z3::ast::Real) -> z3::ast::Bool {
    a.lt(b)
}

/// Relies on z3's `Real::le`.
#[verifier::external_body]
pub(crate) fn real_le(a: &z3::ast::Real, b: &z3::ast::Real) -> z3::ast::Bool {
    a.le(b)
}

/// Relies on z3's `Real::gt`.
#[verifier::external_body]
pub(crate) fn real_gt(a: &z3::ast::Real, b: &z3::ast::Real) -> z3::ast::Bool {
    a.gt(b)
}

/// Relies on z3's `Real::ge`.
#[verifier::external_body]
pub(crate) fn real_ge(a: &z3::ast::Real, b: &z3::ast::Real) -> z3::ast::Bool {
    a.ge(b)
}

/// Relies on z3's `Bool::ite`: the real-valued if-then-else expression.
#[verifier::external_body]
pub(crate) fn real_ite(
    cond: &z3::ast::Bool,
    then_expr: &z3::ast::Real,
    else_expr: &z3::ast::Real,
) -> z3::ast::Real {
    cond.ite(then_expr, else_expr)
}

/// Relies on z3's `Bool::or`.
#[verifier::external_body]
pub(crate) fn bool_or(a: &z3::ast::Bool, b: &z3::ast::Bool) -> z3::ast::Bool {
    z3::ast::Bool::or(&[a, b])
}

/// Relies on z3's `Bool::and`.
#[verifier::external_body]
pub(crate) fn bool_and(a: &z3::ast::Bool, b: &z3::ast::Bool) -> z3::ast::Bool {
    z3::ast::Bool::and(&[a, b])
}

/// Relies on z3's `Bool::not`.
#[verifier::external_body]
pub(crate) fn bool_not(a: &z3::ast::Bool) -> z3::ast::Bool {
    a.not()
}

/// Relies on the `Clone` impl of z3's `Real`: the clone wraps the same
/// underlying solver node, so it is the same expression.
#[verifier::external_body]
pub(crate) fn real_clone(r: &z3::ast::Real) -> (c: z3::ast::Real)
    ensures
        c == *r,
{
    r.clone()
}

/// Relies on the `Clone` impl of z3's `Bool`: the clone wraps the same
/// underlying solver node, so it is the same expression.
#[verifier::external_body]
pub(crate) fn bool_clone(b: &z3::ast::Bool) -> (c: z3::ast::Bool)
    ensures
        c == *b,
{
    b.clone()
}

/// Relies on z3's `Optimize::new`: a fresh optimizing solver session.
#[verifier::external_body]
pub(crate) fn optimize_new() -> z3::Optimize {
    z3::Optimize::new()
}

/// Relies on z3's `Optimize::assert_soft`: asserts the expression softly,
/// to be violated only at the given cost while the solver maximizes the
/// total satisfied weight.
#[verifier::external_body]
pub(crate) fn optimize_assert_soft(opt: &z3::Optimize, cond: &z3::ast::Bool, weight: u32) {
    opt.assert_soft(cond, weight, None);
}

/// Relies on z3's `Optimize::check`: nothing is promised of the outcome;
/// callers must handle all three answers.
#[verifier::external_body]
pub(crate) fn optimize_check(opt: &z3::Optimize) -> SatOutcome {
    match opt.check(&[]) {
        z3::SatResult::Sat => SatOutcome::Sat,
        z3::SatResult::Unsat => SatOutcome::Unsat,
        z3::SatResult::Unknown => SatOutcome::Unknown,
    }
}

/// Relies on z3's `Optimize::get_model`, called only after a `Sat` answer.
/// A missing model then breaks the solver contract; that is an unrecoverable
/// internal-invariant failure, and this call does not return on it.
#[verifier::external_body]
pub(crate) fn optimize_model_after_sat(opt: &z3::Optimize) -> z3::Model {
    opt.get_model().expect("check answered sat but no model is available")
}

/// Relies on z3's `Model::eval` (with completion) and `Real::as_rational`:
/// the value of the expression under the model, as an exact rational pair.
/// A real expression the model cannot value, or a value outside the 64-bit
/// rational range, breaks the solver contract; that is an unrecoverable
/// internal-invariant failure, and this call does not return on it.
#[verifier::external_body]
pub(crate) fn model_rational_of(model: &z3::Model, expr: &z3::ast::Real) -> (i64, i64) {
    let value = model.eval(expr, true).expect("model has no value for a measure");
    value.as_rational().expect("evaluated measure is not a small rational")
}

/// Relies on z3's `Model::eval` (with completion) and `Bool::as_bool`: the
/// truth of the expression under the model.  A boolean the model cannot
/// decide breaks the solver contract; that is an unrecoverable
/// internal-invariant failure, and this call does not return on it.
#[verifier::external_body]
pub(crate) fn model_bool_of(model: &z3::Model, expr: &z3::ast::Bool) -> bool {
    let value = model.eval(expr, true).expect("model has no value for a proposition");
    value.as_bool().expect("evaluated proposition has no truth value")
}

} // verus!
