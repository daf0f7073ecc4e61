//! The measure algebra: scalar real-valued expressions over the arena.
//!
//! A `Measure` is a handle to an immutable expression node.  Arithmetic and
//! comparison operations allocate new nodes; nothing is ever rewritten, so
//! identity (the arena index) is stable and two independently built but
//! structurally equal expressions stay distinct.

use vstd::prelude::*;

verus! {

use crate::layout::context::{
    LayoutContext,
    Node,
    SMALL_CONST_POOL,
    Z3BuildContext,
    lemma_filled_fill,
    lemma_filled_le_len,
    node_wf,
};
use crate::layout::prop::{DEFAULT_WEIGHT, Prop, PropVariant};
use crate::layout::rational::{norm_den, norm_num, lemma_norm_value, normalize};
use crate::layout::solver::{
    fresh_real,
    real_add,
    real_clone,
    real_div,
    real_from_rational,
    real_ite,
    real_mul,
    real_sub,
};
use vstd::pervasive::unreached;
use crate::layout::text::{digits_i64, digits_usize, measure_text};
use vstd::string::StringExecFns;

/// A real-number measurement of a property of an object: a handle into the
/// session arena.
#[derive(Clone, Copy, Debug, PartialEq, Eq, Structural)]
pub struct Measure {
    pub idx: usize,
}

/// Failure to turn a caller-supplied value into an exact constant.
#[derive(Clone, Copy, Debug, PartialEq, Eq, Structural)]
pub enum MeasureError {
    BadConst,
}

/// The forms a measure node can take.  Constants are exact rationals
/// (signed numerator, positive denominator), never floating-point values.
#[derive(Clone, Copy, Debug, PartialEq, Eq, Structural)]
pub enum MeasureVariant {
    Unbound,
    Const(i64, i64),
    Add(Measure, Measure),
    Sub(Measure, Measure),
    Mul(Measure, Measure),
    Div(Measure, Measure),
    Select(Prop, Measure, Measure),
}

impl Measure {
    /// The handle points into the arena at a measure node.
    pub open spec fn wf(self, ctx: LayoutContext) -> bool {
        self.idx < ctx.nodes@.len() && ctx.nodes@[self.idx as int] is Measure
    }

    /// The node this handle denotes.
    pub open spec fn node(self, ctx: LayoutContext) -> MeasureVariant {
        ctx.nodes@[self.idx as int]->Measure_0
    }

    /// The measure that is constantly zero, shared by identity from the
    /// small-constant pool.
    pub fn zero(ctx: &LayoutContext) -> (r: Measure)
        requires
            ctx.wf(),
        ensures
            r.wf(*ctx),
            r.idx == 0,
            r.node(*ctx) == MeasureVariant::Const(0i64, 1i64),
    {
        Measure { idx: 0 }
    }

    /// An exact rational constant with value `num / den`.
    ///
    /// The pair is normalized: the denominator's sign is folded into the
    /// numerator and both are divided by their greatest common divisor, so
    /// the stored constant is always in least terms with a positive
    /// denominator.  Small whole constants 0 through 15 are answered from the
    /// shared pool by identity, without allocating.  A zero denominator, or a
    /// normalized component too large for the constant representation, fails
    /// with `BadConst`.
    pub fn new_const(ctx: &mut LayoutContext, num: i64, den: i64) -> (r: Result<
        Measure,
        MeasureError,
    >)
        requires
            old(ctx).wf(),
        ensures
            final(ctx).wf(),
            old(ctx).nodes@.is_prefix_of(final(ctx).nodes@),
            r is Err <==> (den == 0 || norm_num(num as int, den as int) > i64::MAX
                || norm_num(num as int, den as int) < i64::MIN || norm_den(
                num as int,
                den as int,
            ) > i64::MAX),
            r matches Err(e) ==> e == MeasureError::BadConst && *final(ctx) == *old(ctx),
            r matches Ok(m) ==> {
                &&& m.wf(*final(ctx))
                &&& m.node(*final(ctx)) == MeasureVariant::Const(
                    norm_num(num as int, den as int) as i64,
                    norm_den(num as int, den as int) as i64,
                )
                &&& (norm_den(num as int, den as int) == 1 && 0 <= norm_num(num as int, den as int)
                    < SMALL_CONST_POOL ==> (*final(ctx) == *old(ctx) && m.idx == norm_num(
                    num as int,
                    den as int,
                )))
                &&& (!(norm_den(num as int, den as int) == 1 && 0 <= norm_num(
                    num as int,
                    den as int,
                ) < SMALL_CONST_POOL) ==> (final(ctx).nodes@ == old(ctx).nodes@.push(
                    Node::Measure(
                        MeasureVariant::Const(
                            norm_num(num as int, den as int) as i64,
                            norm_den(num as int, den as int) as i64,
                        ),
                    ),
                ) && m.idx == old(ctx).nodes@.len()))
            },
    {
        if den == 0 {
            return Err(MeasureError::BadConst);
        }
        let normalized = normalize(num, den);
        match normalized {
            None => Err(MeasureError::BadConst),
            Some((n, d)) => {
                proof {
                    lemma_norm_value(num as int, den as int);
                }
                if d == 1 && 0 <= n && n < SMALL_CONST_POOL as i64 {
                    let idx = n as usize;
                    Ok(Measure { idx })
                } else {
                    Ok(ctx.alloc_measure(MeasureVariant::Const(n, d)))
                }
            },
        }
    }

    /// A fresh unconstrained real variable.
    pub fn new_unbound(ctx: &mut LayoutContext) -> (r: Measure)
        requires
            old(ctx).wf(),
        ensures
            final(ctx).wf(),
            final(ctx).nodes@ == old(ctx).nodes@.push(Node::Measure(MeasureVariant::Unbound)),
            r.idx == old(ctx).nodes@.len(),
            r.wf(*final(ctx)),
            r.node(*final(ctx)) == MeasureVariant::Unbound,
    {
        ctx.alloc_measure(MeasureVariant::Unbound)
    }

    /// Whether this handle denotes an unconstrained variable.
    pub fn is_unbound(&self, ctx: &LayoutContext) -> (r: bool)
        requires
            self.wf(*ctx),
        ensures
            r == (self.node(*ctx) is Unbound),
    {
        match &ctx.nodes[self.idx] {
            Node::Measure(MeasureVariant::Unbound) => true,
            _ => false,
        }
    }

    /// The sum of two measures, as a fresh node.
    pub fn add(self, ctx: &mut LayoutContext, that: Measure) -> (r: Measure)
        requires
            old(ctx).wf(),
            self.wf(*old(ctx)),
            that.wf(*old(ctx)),
        ensures
            final(ctx).wf(),
            final(ctx).nodes@ == old(ctx).nodes@.push(
                Node::Measure(MeasureVariant::Add(self, that)),
            ),
            r.idx == old(ctx).nodes@.len(),
            r.wf(*final(ctx)),
            r.node(*final(ctx)) == MeasureVariant::Add(self, that),
    {
        ctx.alloc_measure(MeasureVariant::Add(self, that))
    }

    /// The difference of two measures, as a fresh node.
    pub fn sub(self, ctx: &mut LayoutContext, that: Measure) -> (r: Measure)
        requires
            old(ctx).wf(),
            self.wf(*old(ctx)),
            that.wf(*old(ctx)),
        ensures
            final(ctx).wf(),
            final(ctx).nodes@ == old(ctx).nodes@.push(
                Node::Measure(MeasureVariant::Sub(self, that)),
            ),
            r.idx == old(ctx).nodes@.len(),
            r.wf(*final(ctx)),
            r.node(*final(ctx)) == MeasureVariant::Sub(self, that),
    {
        ctx.alloc_measure(MeasureVariant::Sub(self, that))
    }

    /// The product of two measures, as a fresh node.
    pub fn mul(self, ctx: &mut LayoutContext, that: Measure) -> (r: Measure)
        requires
            old(ctx).wf(),
            self.wf(*old(ctx)),
            that.wf(*old(ctx)),
        ensures
            final(ctx).wf(),
            final(ctx).nodes@ == old(ctx).nodes@.push(
                Node::Measure(MeasureVariant::Mul(self, that)),
            ),
            r.idx == old(ctx).nodes@.len(),
            r.wf(*final(ctx)),
            r.node(*final(ctx)) == MeasureVariant::Mul(self, that),
    {
        ctx.alloc_measure(MeasureVariant::Mul(self, that))
    }

    /// The quotient of two measures, as a fresh node.
    pub fn div(self, ctx: &mut LayoutContext, that: Measure) -> (r: Measure)
        requires
            old(ctx).wf(),
            self.wf(*old(ctx)),
            that.wf(*old(ctx)),
        ensures
            final(ctx).wf(),
            final(ctx).nodes@ == old(ctx).nodes@.push(
                Node::Measure(MeasureVariant::Div(self, that)),
            ),
            r.idx == old(ctx).nodes@.len(),
            r.wf(*final(ctx)),
            r.node(*final(ctx)) == MeasureVariant::Div(self, that),
    {
        ctx.alloc_measure(MeasureVariant::Div(self, that))
    }

    /// The proposition `self == that`, with the default weight.
    pub fn prop_eq(self, ctx: &mut LayoutContext, that: Measure) -> (r: Prop)
        requires
            old(ctx).wf(),
            self.wf(*old(ctx)),
            that.wf(*old(ctx)),
        ensures
            final(ctx).wf(),
            final(ctx).nodes@ == old(ctx).nodes@.push(Node::Prop(PropVariant::Eq(self, that))),
            r.idx == old(ctx).nodes@.len(),
            r.weight == DEFAULT_WEIGHT,
            r.wf(*final(ctx)),
            r.node(*final(ctx)) == PropVariant::Eq(self, that),
    {
        ctx.alloc_prop(PropVariant::Eq(self, that), DEFAULT_WEIGHT)
    }

    /// The proposition `self < that`, with the default weight.
    pub fn prop_lt(self, ctx: &mut LayoutContext, that: Measure) -> (r: Prop)
        requires
            old(ctx).wf(),
            self.wf(*old(ctx)),
            that.wf(*old(ctx)),
        ensures
            final(ctx).wf(),
            final(ctx).nodes@ == old(ctx).nodes@.push(Node::Prop(PropVariant::Lt(self, that))),
            r.idx == old(ctx).nodes@.len(),
            r.weight == DEFAULT_WEIGHT,
            r.wf(*final(ctx)),
            r.node(*final(ctx)) == PropVariant::Lt(self, that),
    {
        ctx.alloc_prop(PropVariant::Lt(self, that), DEFAULT_WEIGHT)
    }

    /// The proposition `self <= that`, with the default weight.
    pub fn prop_le(self, ctx: &mut LayoutContext, that: Measure) -> (r: Prop)
        requires
            old(ctx).wf(),
            self.wf(*old(ctx)),
            that.wf(*old(ctx)),
        ensures
            final(ctx).wf(),
            final(ctx).nodes@ == old(ctx).nodes@.push(Node::Prop(PropVariant::Le(self, that))),
            r.idx == old(ctx).nodes@.len(),
            r.weight == DEFAULT_WEIGHT,
            r.wf(*final(ctx)),
            r.node(*final(ctx)) == PropVariant::Le(self, that),
    {
        ctx.alloc_prop(PropVariant::Le(self, that), DEFAULT_WEIGHT)
    }

    /// The proposition `self > that`, with the default weight.
    pub fn prop_gt(self, ctx: &mut LayoutContext, that: Measure) -> (r: Prop)
        requires
            old(ctx).wf(),
            self.wf(*old(ctx)),
            that.wf(*old(ctx)),
        ensures
            final(ctx).wf(),
            final(ctx).nodes@ == old(ctx).nodes@.push(Node::Prop(PropVariant::Gt(self, that))),
            r.idx == old(ctx).nodes@.len(),
            r.weight == DEFAULT_WEIGHT,
            r.wf(*final(ctx)),
            r.node(*final(ctx)) == PropVariant::Gt(self, that),
    {
        ctx.alloc_prop(PropVariant::Gt(self, that), DEFAULT_WEIGHT)
    }

    /// The proposition `self >= that`, with the default weight.
    pub fn prop_ge(self, ctx: &mut LayoutContext, that: Measure) -> (r: Prop)
        requires
            old(ctx).wf(),
            self.wf(*old(ctx)),
            that.wf(*old(ctx)),
        ensures
            final(ctx).wf(),
            final(ctx).nodes@ == old(ctx).nodes@.push(Node::Prop(PropVariant::Ge(self, that))),
            r.idx == old(ctx).nodes@.len(),
            r.weight == DEFAULT_WEIGHT,
            r.wf(*final(ctx)),
            r.node(*final(ctx)) == PropVariant::Ge(self, that),
    {
        ctx.alloc_prop(PropVariant::Ge(self, that), DEFAULT_WEIGHT)
    }

    /// Translates this measure into the solver's native real expression,
    /// memoized by node identity.
    ///
    /// Each distinct node is translated exactly once per build: when this
    /// node is already cached the call changes nothing at all — in
    /// particular, the count of solver expressions created does not grow —
    /// and the cached expression is answered.  Entries already cached are
    /// never replaced.
    pub fn build_z3(self, ctx: &LayoutContext, bc: &mut Z3BuildContext) -> (r: z3::ast::Real)
        requires
            ctx.wf(),
            self.wf(*ctx),
            old(bc).wf(*ctx),
        ensures
            final(bc).wf(*ctx),
            final(bc).measure_cache@[self.idx as int] == Some(r),
            forall|j: int|
                0 <= j < old(bc).measure_cache@.len() && old(bc).measure_cache@[j] is Some ==> final(bc).measure_cache@[j] == old(bc).measure_cache@[j],
            forall|j: int|
                0 <= j < old(bc).prop_cache@.len() && old(bc).prop_cache@[j] is Some ==> final(bc).prop_cache@[j] == old(bc).prop_cache@[j],
            forall|j: int|
                self.idx < j < old(bc).measure_cache@.len() ==> final(bc).measure_cache@[j] == old(bc).measure_cache@[j],
            forall|j: int|
                self.idx <= j < old(bc).prop_cache@.len() ==> final(bc).prop_cache@[j] == old(bc).prop_cache@[j],
            old(bc).measure_cache@[self.idx as int] is Some ==> *final(bc) == *old(bc),
        decreases self.idx, 1int,
    {
        let idx = self.idx;
        if let Some(x) = &bc.measure_cache[idx] {
            return real_clone(x);
        }
        let res = self.do_build_z3(ctx, bc);
        proof {
            lemma_filled_fill(bc.measure_cache@, idx as int, res);
            lemma_filled_le_len(bc.measure_cache@);
            lemma_filled_le_len(bc.prop_cache@);
            assert(bc.measure_cache@.len() == vstd::std_specs::vec::spec_vec_len(
                &bc.measure_cache,
            ));
            assert(bc.prop_cache@.len() == vstd::std_specs::vec::spec_vec_len(&bc.prop_cache));
        }
        let entry = real_clone(&res);
        bc.measure_cache[idx] = Some(entry);
        bc.expr_count = bc.expr_count + 1;
        res
    }

    /// Translates this node's own operation, assuming it is not cached yet.
    /// Children go through the memoized entry point.
    fn do_build_z3(self, ctx: &LayoutContext, bc: &mut Z3BuildContext) -> (r: z3::ast::Real)
        requires
            ctx.wf(),
            self.wf(*ctx),
            old(bc).wf(*ctx),
            old(bc).measure_cache@[self.idx as int] is None,
        ensures
            final(bc).wf(*ctx),
            forall|j: int|
                0 <= j < old(bc).measure_cache@.len() && old(bc).measure_cache@[j] is Some ==> final(bc).measure_cache@[j] == old(bc).measure_cache@[j],
            forall|j: int|
                0 <= j < old(bc).prop_cache@.len() && old(bc).prop_cache@[j] is Some ==> final(bc).prop_cache@[j] == old(bc).prop_cache@[j],
            forall|j: int|
                self.idx <= j < old(bc).measure_cache@.len() ==> final(bc).measure_cache@[j] == old(bc).measure_cache@[j],
            forall|j: int|
                self.idx <= j < old(bc).prop_cache@.len() ==> final(bc).prop_cache@[j] == old(bc).prop_cache@[j],
        decreases self.idx, 0int,
    {
        proof {
            assert(node_wf(ctx.nodes@, self.idx as int));
        }
        let node = ctx.nodes[self.idx];
        match node {
            Node::Measure(MeasureVariant::Unbound) => fresh_real(),
            Node::Measure(MeasureVariant::Const(num, den)) => real_from_rational(num, den),
            Node::Measure(MeasureVariant::Add(a, b)) => {
                let ra = a.build_z3(ctx, bc);
                let rb = b.build_z3(ctx, bc);
                real_add(&ra, &rb)
            },
            Node::Measure(MeasureVariant::Sub(a, b)) => {
                let ra = a.build_z3(ctx, bc);
                let rb = b.build_z3(ctx, bc);
                real_sub(&ra, &rb)
            },
            Node::Measure(MeasureVariant::Mul(a, b)) => {
                let ra = a.build_z3(ctx, bc);
                let rb = b.build_z3(ctx, bc);
                real_mul(&ra, &rb)
            },
            Node::Measure(MeasureVariant::Div(a, b)) => {
                let ra = a.build_z3(ctx, bc);
                let rb = b.build_z3(ctx, bc);
                real_div(&ra, &rb)
            },
            Node::Measure(MeasureVariant::Select(c, a, b)) => {
                let rc = c.build_z3(ctx, bc);
                let ra = a.build_z3(ctx, bc);
                let rb = b.build_z3(ctx, bc);
                real_ite(&rc, &ra, &rb)
            },
            Node::Prop(_) => unreached(),
        }
    }

    /// Renders this measure as diagnostic text: constants as exact
    /// rationals, unbound variables by their identity, additions and
    /// subtractions of the pooled zero elided by identity, and selections
    /// that compare exactly their own branches shown as `min`/`max`.
    pub fn to_text(&self, ctx: &LayoutContext) -> (r: String)
        requires
            ctx.wf(),
            self.wf(*ctx),
        ensures
            r@ == measure_text(*ctx, *self),
        decreases self.idx, 0int,
    {
        proof {
            assert(node_wf(ctx.nodes@, self.idx as int));
        }
        let node = ctx.nodes[self.idx];
        match node {
            Node::Measure(MeasureVariant::Unbound) => {
                let mut s = <String as StringExecFns>::from_str("<");
                s.append(digits_usize(self.idx).as_str());
                s.append(">");
                proof {
                    reveal_strlit("<");
                    reveal_strlit(">");
                    assert(s@ =~= measure_text(*ctx, *self));
                }
                s
            },
            Node::Measure(MeasureVariant::Const(num, den)) => {
                if den == 1 {
                    digits_i64(num)
                } else {
                    let mut s = digits_i64(num);
                    s.append("/");
                    s.append(digits_i64(den).as_str());
                    proof {
                        reveal_strlit("/");
                        assert(s@ =~= measure_text(*ctx, *self));
                    }
                    s
                }
            },
            Node::Measure(MeasureVariant::Add(a, b)) => {
                if b.idx == 0 {
                    a.to_text(ctx)
                } else {
                    let mut s = <String as StringExecFns>::from_str("(");
                    s.append(a.to_text(ctx).as_str());
                    s.append(" + ");
                    s.append(b.to_text(ctx).as_str());
                    s.append(")");
                    proof {
                        reveal_strlit("(");
                        reveal_strlit(" + ");
                        reveal_strlit(")");
                        assert(s@ =~= measure_text(*ctx, *self));
                    }
                    s
                }
            },
            Node::Measure(MeasureVariant::Sub(a, b)) => {
                if b.idx == 0 {
                    a.to_text(ctx)
                } else {
                    let mut s = <String as StringExecFns>::from_str("(");
                    s.append(a.to_text(ctx).as_str());
                    s.append(" - ");
                    s.append(b.to_text(ctx).as_str());
                    s.append(")");
                    proof {
                        reveal_strlit("(");
                        reveal_strlit(" - ");
                        reveal_strlit(")");
                        assert(s@ =~= measure_text(*ctx, *self));
                    }
                    s
                }
            },
            Node::Measure(MeasureVariant::Mul(a, b)) => {
                let mut s = <String as StringExecFns>::from_str("(");
                s.append(a.to_text(ctx).as_str());
                s.append(" * ");
                s.append(b.to_text(ctx).as_str());
                s.append(")");
                proof {
                    reveal_strlit("(");
                    reveal_strlit(" * ");
                    reveal_strlit(")");
                    assert(s@ =~= measure_text(*ctx, *self));
                }
                s
            },
            Node::Measure(MeasureVariant::Div(a, b)) => {
                let mut s = <String as StringExecFns>::from_str("(");
                s.append(a.to_text(ctx).as_str());
                s.append(" / ");
                s.append(b.to_text(ctx).as_str());
                s.append(")");
                proof {
                    reveal_strlit("(");
                    reveal_strlit(" / ");
                    reveal_strlit(")");
                    assert(s@ =~= measure_text(*ctx, *self));
                }
                s
            },
            Node::Measure(MeasureVariant::Select(c, a, b)) => {
                let cnode = ctx.nodes[c.idx];
                let (is_min, is_max) = match cnode {
                    Node::Prop(PropVariant::Lt(x, y)) => (
                        x.idx == a.idx && y.idx == b.idx,
                        false,
                    ),
                    Node::Prop(PropVariant::Gt(x, y)) => (
                        false,
                        x.idx == a.idx && y.idx == b.idx,
                    ),
                    _ => (false, false),
                };
                if is_min {
                    let mut s = <String as StringExecFns>::from_str("(min ");
                    s.append(a.to_text(ctx).as_str());
                    s.append(" ");
                    s.append(b.to_text(ctx).as_str());
                    s.append(")");
                    proof {
                        reveal_strlit("(min ");
                        reveal_strlit(" ");
                        reveal_strlit(")");
                        assert(s@ =~= measure_text(*ctx, *self));
                    }
                    s
                } else if is_max {
                    let mut s = <String as StringExecFns>::from_str("(max ");
                    s.append(a.to_text(ctx).as_str());
                    s.append(" ");
                    s.append(b.to_text(ctx).as_str());
                    s.append(")");
                    proof {
                        reveal_strlit("(max ");
                        reveal_strlit(" ");
                        reveal_strlit(")");
                        assert(s@ =~= measure_text(*ctx, *self));
                    }
                    s
                } else {
                    let mut s = <String as StringExecFns>::from_str("(select (");
                    s.append(c.to_text(ctx).as_str());
                    s.append(") ");
                    s.append(a.to_text(ctx).as_str());
                    s.append(" ");
                    s.append(b.to_text(ctx).as_str());
                    s.append(")");
                    proof {
                        reveal_strlit("(select (");
                        reveal_strlit(") ");
                        reveal_strlit(" ");
                        reveal_strlit(")");
                        assert(s@ =~= measure_text(*ctx, *self));
                    }
                    s
                }
            },
            Node::Prop(_) => unreached(),
        }
    }

    /// The smaller of two measures, derived as `select` over a strict
    /// comparison: allocates the proposition `self < that` and then the
    /// selection node choosing `self` when it holds and `that` otherwise.
    pub fn min(self, ctx: &mut LayoutContext, that: Measure) -> (r: Measure)
        requires
            old(ctx).wf(),
            self.wf(*old(ctx)),
            that.wf(*old(ctx)),
        ensures
            final(ctx).wf(),
            final(ctx).nodes@ == old(ctx).nodes@.push(Node::Prop(PropVariant::Lt(self, that))).push(
                Node::Measure(
                    MeasureVariant::Select(
                        (Prop { idx: old(ctx).nodes@.len() as usize, weight: DEFAULT_WEIGHT }),
                        self,
                        that,
                    ),
                ),
            ),
            r.idx == old(ctx).nodes@.len() + 1,
            r.wf(*final(ctx)),
            r.node(*final(ctx)) == MeasureVariant::Select(
                (Prop { idx: old(ctx).nodes@.len() as usize, weight: DEFAULT_WEIGHT }),
                self,
                that,
            ),
    {
        let cond = self.prop_lt(ctx, that);
        cond.select(ctx, self, that)
    }

    /// The larger of two measures, derived as `select` over a strict
    /// comparison the other way round.
    pub fn max(self, ctx: &mut LayoutContext, that: Measure) -> (r: Measure)
        requires
            old(ctx).wf(),
            self.wf(*old(ctx)),
            that.wf(*old(ctx)),
        ensures
            final(ctx).wf(),
            final(ctx).nodes@ == old(ctx).nodes@.push(Node::Prop(PropVariant::Gt(self, that))).push(
                Node::Measure(
                    MeasureVariant::Select(
                        (Prop { idx: old(ctx).nodes@.len() as usize, weight: DEFAULT_WEIGHT }),
                        self,
                        that,
                    ),
                ),
            ),
            r.idx == old(ctx).nodes@.len() + 1,
            r.wf(*final(ctx)),
            r.node(*final(ctx)) == MeasureVariant::Select(
                (Prop { idx: old(ctx).nodes@.len() as usize, weight: DEFAULT_WEIGHT }),
                self,
                that,
            ),
    {
        let cond = self.prop_gt(ctx, that);
        cond.select(ctx, self, that)
    }
}

} // verus!
