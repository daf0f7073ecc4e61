//! The proposition algebra: boolean expressions over measures.
//!
//! A `Prop` is a handle to an immutable proposition node together with the
//! solver weight the proposition will be asserted with.  The weight rides on
//! the handle, not on the node, so rebinding it never changes the node's
//! identity.

use vstd::prelude::*;

verus! {

use crate::layout::context::{
    LayoutContext,
    Node,
    Z3BuildContext,
    lemma_filled_fill,
    lemma_filled_le_len,
    node_wf,
};
use crate::layout::measure::{Measure, MeasureVariant};
use crate::layout::solver::{
    bool_and,
    bool_clone,
    bool_not,
    bool_or,
    real_eq,
    real_ge,
    real_gt,
    real_le,
    real_lt,
};
use vstd::pervasive::unreached;
use crate::layout::text::{measure_text, prop_text};
use vstd::string::StringExecFns;

/// The weight a proposition carries unless a caller rebinds it.
pub const DEFAULT_WEIGHT: u32 = 10;

/// A proposition on measurements or other propositions, carrying the weight
/// used when it is asserted as a soft constraint.
#[derive(Clone, Copy, Debug, PartialEq, Eq, Structural)]
pub struct Prop {
    pub idx: usize,
    pub weight: u32,
}

/// The forms a proposition node can take: comparisons between measures and
/// boolean connectives.
#[derive(Clone, Copy, Debug, PartialEq, Eq, Structural)]
pub enum PropVariant {
    Eq(Measure, Measure),
    Lt(Measure, Measure),
    Le(Measure, Measure),
    Gt(Measure, Measure),
    Ge(Measure, Measure),
    Or(Prop, Prop),
    And(Prop, Prop),
    Not(Prop),
}

impl Prop {
    /// The handle points into the arena at a proposition node.
    pub open spec fn wf(self, ctx: LayoutContext) -> bool {
        self.idx < ctx.nodes@.len() && ctx.nodes@[self.idx as int] is Prop
    }

    /// The node this handle denotes.
    pub open spec fn node(self, ctx: LayoutContext) -> PropVariant {
        ctx.nodes@[self.idx as int]->Prop_0
    }

    /// The same proposition with another solver weight.  The node identity is
    /// untouched, so a translation already cached for it stays valid; rebind
    /// the weight before the proposition is asserted.
    pub fn with_weight(self, weight: u32) -> (r: Prop)
        ensures
            r.idx == self.idx,
            r.weight == weight,
    {
        Prop { idx: self.idx, weight }
    }

    /// The measure "if this proposition holds then `left` else `right`", as a
    /// fresh selection node.
    pub fn select(self, ctx: &mut LayoutContext, left: Measure, right: Measure) -> (r: Measure)
        requires
            old(ctx).wf(),
            self.wf(*old(ctx)),
            left.wf(*old(ctx)),
            right.wf(*old(ctx)),
        ensures
            final(ctx).wf(),
            final(ctx).nodes@ == old(ctx).nodes@.push(
                Node::Measure(MeasureVariant::Select(self, left, right)),
            ),
            r.idx == old(ctx).nodes@.len(),
            r.wf(*final(ctx)),
            r.node(*final(ctx)) == MeasureVariant::Select(self, left, right),
    {
        ctx.alloc_measure(MeasureVariant::Select(self, left, right))
    }

    /// Translates this proposition into the solver's native boolean
    /// expression, memoized by node identity.
    ///
    /// Each distinct node is translated exactly once per build: when this
    /// node is already cached the call changes nothing at all — in
    /// particular, the count of solver expressions created does not grow —
    /// and the cached expression is answered.  Entries already cached are
    /// never replaced.  The weight on the handle plays no part here: it is
    /// not part of the cache key, so rebinding it keeps the cached
    /// translation valid.
    pub fn build_z3(self, ctx: &LayoutContext, bc: &mut Z3BuildContext) -> (r: z3::ast::Bool)
        requires
            ctx.wf(),
            self.wf(*ctx),
            old(bc).wf(*ctx),
        ensures
            final(bc).wf(*ctx),
            final(bc).prop_cache@[self.idx as int] == Some(r),
            forall|j: int|
                0 <= j < old(bc).measure_cache@.len() && old(bc).measure_cache@[j] is Some ==> final(bc).measure_cache@[j] == old(bc).measure_cache@[j],
            forall|j: int|
                0 <= j < old(bc).prop_cache@.len() && old(bc).prop_cache@[j] is Some ==> final(bc).prop_cache@[j] == old(bc).prop_cache@[j],
            forall|j: int|
                self.idx < j < old(bc).prop_cache@.len() ==> final(bc).prop_cache@[j] == old(bc).prop_cache@[j],
            forall|j: int|
                self.idx <= j < old(bc).measure_cache@.len() ==> final(bc).measure_cache@[j] == old(bc).measure_cache@[j],
            old(bc).prop_cache@[self.idx as int] is Some ==> *final(bc) == *old(bc),
        decreases self.idx, 1int,
    {
        let idx = self.idx;
        if let Some(x) = &bc.prop_cache[idx] {
            return bool_clone(x);
        }
        let res = self.do_build_z3(ctx, bc);
        proof {
            lemma_filled_fill(bc.prop_cache@, idx as int, res);
            lemma_filled_le_len(bc.measure_cache@);
            lemma_filled_le_len(bc.prop_cache@);
            assert(bc.measure_cache@.len() == vstd::std_specs::vec::spec_vec_len(
                &bc.measure_cache,
            ));
            assert(bc.prop_cache@.len() == vstd::std_specs::vec::spec_vec_len(&bc.prop_cache));
        }
        let entry = bool_clone(&res);
        bc.prop_cache[idx] = Some(entry);
        bc.expr_count = bc.expr_count + 1;
        res
    }

    /// Translates this node's own connective or comparison, assuming it is
    /// not cached yet.  Children go through the memoized entry points.
    fn do_build_z3(self, ctx: &LayoutContext, bc: &mut Z3BuildContext) -> (r: z3::ast::Bool)
        requires
            ctx.wf(),
            self.wf(*ctx),
            old(bc).wf(*ctx),
            old(bc).prop_cache@[self.idx as int] is None,
        ensures
            final(bc).wf(*ctx),
            forall|j: int|
                0 <= j < old(bc).measure_cache@.len() && old(bc).measure_cache@[j] is Some ==> final(bc).measure_cache@[j] == old(bc).measure_cache@[j],
            forall|j: int|
                0 <= j < old(bc).prop_cache@.len() && old(bc).prop_cache@[j] is Some ==> final(bc).prop_cache@[j] == old(bc).prop_cache@[j],
            forall|j: int|
                self.idx <= j < old(bc).prop_cache@.len() ==> final(bc).prop_cache@[j] == old(bc).prop_cache@[j],
            forall|j: int|
                self.idx <= j < old(bc).measure_cache@.len() ==> final(bc).measure_cache@[j] == old(bc).measure_cache@[j],
        decreases self.idx, 0int,
    {
        proof {
            assert(node_wf(ctx.nodes@, self.idx as int));
        }
        let node = ctx.nodes[self.idx];
        match node {
            Node::Prop(PropVariant::Eq(a, b)) => {
                let ra = a.build_z3(ctx, bc);
                let rb = b.build_z3(ctx, bc);
                real_eq(&ra, &rb)
            },
            Node::Prop(PropVariant::Lt(a, b)) => {
                let ra = a.build_z3(ctx, bc);
                let rb = b.build_z3(ctx, bc);
                real_lt(&ra, &rb)
            },
            Node::Prop(PropVariant::Le(a, b)) => {
                let ra = a.build_z3(ctx, bc);
                let rb = b.build_z3(ctx, bc);
                real_le(&ra, &rb)
            },
            Node::Prop(PropVariant::Gt(a, b)) => {
                let ra = a.build_z3(ctx, bc);
                let rb = b.build_z3(ctx, bc);
                real_gt(&ra, &rb)
            },
            Node::Prop(PropVariant::Ge(a, b)) => {
                let ra = a.build_z3(ctx, bc);
                let rb = b.build_z3(ctx, bc);
                real_ge(&ra, &rb)
            },
            Node::Prop(PropVariant::Or(p, q)) => {
                let rp = p.build_z3(ctx, bc);
                let rq = q.build_z3(ctx, bc);
                bool_or(&rp, &rq)
            },
            Node::Prop(PropVariant::And(p, q)) => {
                let rp = p.build_z3(ctx, bc);
                let rq = q.build_z3(ctx, bc);
                bool_and(&rp, &rq)
            },
            Node::Prop(PropVariant::Not(p)) => {
                let rp = p.build_z3(ctx, bc);
                bool_not(&rp)
            },
            Node::Measure(_) => unreached(),
        }
    }

    /// Renders this proposition as diagnostic text: comparisons infix, and
    /// connectives spelled out with their operands parenthesized.
    pub fn to_text(&self, ctx: &LayoutContext) -> (r: String)
        requires
            ctx.wf(),
            self.wf(*ctx),
        ensures
            r@ == prop_text(*ctx, *self),
        decreases self.idx, 0int,
    {
        proof {
            assert(node_wf(ctx.nodes@, self.idx as int));
        }
        let node = ctx.nodes[self.idx];
        match node {
            Node::Prop(PropVariant::Eq(a, b)) => {
                let s = compare_text(ctx, a, " == ", b);
                proof {
                    reveal_strlit(" == ");
                    assert(s@ =~= prop_text(*ctx, *self));
                }
                s
            },
            Node::Prop(PropVariant::Lt(a, b)) => {
                let s = compare_text(ctx, a, " < ", b);
                proof {
                    reveal_strlit(" < ");
                    assert(s@ =~= prop_text(*ctx, *self));
                }
                s
            },
            Node::Prop(PropVariant::Le(a, b)) => {
                let s = compare_text(ctx, a, " <= ", b);
                proof {
                    reveal_strlit(" <= ");
                    assert(s@ =~= prop_text(*ctx, *self));
                }
                s
            },
            Node::Prop(PropVariant::Gt(a, b)) => {
                let s = compare_text(ctx, a, " > ", b);
                proof {
                    reveal_strlit(" > ");
                    assert(s@ =~= prop_text(*ctx, *self));
                }
                s
            },
            Node::Prop(PropVariant::Ge(a, b)) => {
                let s = compare_text(ctx, a, " >= ", b);
                proof {
                    reveal_strlit(" >= ");
                    assert(s@ =~= prop_text(*ctx, *self));
                }
                s
            },
            Node::Prop(PropVariant::Or(p, q)) => {
                let mut s = <String as StringExecFns>::from_str("(");
                s.append(p.to_text(ctx).as_str());
                s.append(") or (");
                s.append(q.to_text(ctx).as_str());
                s.append(")");
                proof {
                    reveal_strlit("(");
                    reveal_strlit(") or (");
                    reveal_strlit(")");
                    assert(s@ =~= prop_text(*ctx, *self));
                }
                s
            },
            Node::Prop(PropVariant::And(p, q)) => {
                let mut s = <String as StringExecFns>::from_str("(");
                s.append(p.to_text(ctx).as_str());
                s.append(") and (");
                s.append(q.to_text(ctx).as_str());
                s.append(")");
                proof {
                    reveal_strlit("(");
                    reveal_strlit(") and (");
                    reveal_strlit(")");
                    assert(s@ =~= prop_text(*ctx, *self));
                }
                s
            },
            Node::Prop(PropVariant::Not(p)) => {
                let mut s = <String as StringExecFns>::from_str("not (");
                s.append(p.to_text(ctx).as_str());
                s.append(")");
                proof {
                    reveal_strlit("not (");
                    reveal_strlit(")");
                    assert(s@ =~= prop_text(*ctx, *self));
                }
                s
            },
            Node::Measure(_) => unreached(),
        }
    }

    /// The disjunction of two propositions.  The combination carries the
    /// default weight again, whatever the parts carried: a composite
    /// proposition is one default-weight soft assertion.
    pub fn or(self, ctx: &mut LayoutContext, that: Prop) -> (r: Prop)
        requires
            old(ctx).wf(),
            self.wf(*old(ctx)),
            that.wf(*old(ctx)),
        ensures
            final(ctx).wf(),
            final(ctx).nodes@ == old(ctx).nodes@.push(Node::Prop(PropVariant::Or(self, that))),
            r.idx == old(ctx).nodes@.len(),
            r.weight == DEFAULT_WEIGHT,
            r.wf(*final(ctx)),
            r.node(*final(ctx)) == PropVariant::Or(self, that),
    {
        ctx.alloc_prop(PropVariant::Or(self, that), DEFAULT_WEIGHT)
    }

    /// The conjunction of two propositions, again at the default weight.
    pub fn and(self, ctx: &mut LayoutContext, that: Prop) -> (r: Prop)
        requires
            old(ctx).wf(),
            self.wf(*old(ctx)),
            that.wf(*old(ctx)),
        ensures
            final(ctx).wf(),
            final(ctx).nodes@ == old(ctx).nodes@.push(Node::Prop(PropVariant::And(self, that))),
            r.idx == old(ctx).nodes@.len(),
            r.weight == DEFAULT_WEIGHT,
            r.wf(*final(ctx)),
            r.node(*final(ctx)) == PropVariant::And(self, that),
    {
        ctx.alloc_prop(PropVariant::And(self, that), DEFAULT_WEIGHT)
    }

    /// The negation of a proposition, again at the default weight.
    pub fn not(self, ctx: &mut LayoutContext) -> (r: Prop)
        requires
            old(ctx).wf(),
            self.wf(*old(ctx)),
        ensures
            final(ctx).wf(),
            final(ctx).nodes@ == old(ctx).nodes@.push(Node::Prop(PropVariant::Not(self))),
            r.idx == old(ctx).nodes@.len(),
            r.weight == DEFAULT_WEIGHT,
            r.wf(*final(ctx)),
            r.node(*final(ctx)) == PropVariant::Not(self),
    {
        ctx.alloc_prop(PropVariant::Not(self), DEFAULT_WEIGHT)
    }
}

/// Renders an infix comparison between two measures.
fn compare_text(ctx: &LayoutContext, a: Measure, op: &str, b: Measure) -> (r: String)
    requires
        ctx.wf(),
        a.wf(*ctx),
        b.wf(*ctx),
    ensures
        r@ == measure_text(*ctx, a) + op@ + measure_text(*ctx, b),
    decreases (if a.idx > b.idx { a.idx as int } else { b.idx as int }), 1int,
{
    let mut s = a.to_text(ctx);
    s.append(op);
    s.append(b.to_text(ctx).as_str());
    s
}

} // verus!
