//! The canonical rectangle widget.
//!
//! A rectangle exposes six measures — left, right, top, bottom, width and
//! height — and always requires the structural constraints tying them
//! together.  Group helpers fold several rectangles into extremal or central
//! measures via repeated `min`/`max`.

use vstd::prelude::*;

verus! {

use crate::layout::context::{LayoutContext, Node, lemma_prefix_trans};
use crate::layout::measure::{Measure, MeasureError, MeasureVariant};
use crate::layout::prop::{DEFAULT_WEIGHT, Prop, PropVariant};
use crate::layout::rational::{Rational, gcd, iabs, norm_den, norm_num, representable};
use crate::layout::widget::{PaintError, RawWidget};
use vstd::pervasive::unreached;

/// Failure of a group-aggregate helper.
#[derive(Clone, Copy, Debug, PartialEq, Eq, Structural)]
pub enum RectangleError {
    EmptyGroup,
}

/// A point, as a pair of measures.
#[derive(Clone, Copy, Debug, PartialEq, Eq, Structural)]
pub struct Point {
    pub x: Measure,
    pub y: Measure,
}

/// The six measures of a rectangle, detached from any widget.
#[derive(Clone, Copy, Debug, PartialEq, Eq, Structural)]
pub struct RectangleMeasures {
    pub left: Measure,
    pub right: Measure,
    pub top: Measure,
    pub bottom: Measure,
    pub width: Measure,
    pub height: Measure,
}

/// The resolved values of a rectangle's six measures, as exact rationals.
#[derive(Clone, Copy, Debug, PartialEq, Eq, Structural)]
pub struct RectangleMetrics {
    pub left: Rational,
    pub right: Rational,
    pub top: Rational,
    pub bottom: Rational,
    pub width: Rational,
    pub height: Rational,
}

impl RectangleMetrics {
    /// Packs six resolved values into metrics, in the order the rectangle
    /// declares its measures: left, right, top, bottom, width, height.
    pub fn from_values(values: &Vec<Rational>) -> (r: RectangleMetrics)
        requires
            values@.len() == 6,
        ensures
            r.left == values@[0],
            r.right == values@[1],
            r.top == values@[2],
            r.bottom == values@[3],
            r.width == values@[4],
            r.height == values@[5],
    {
        RectangleMetrics {
            left: values[0],
            right: values[1],
            top: values[2],
            bottom: values[3],
            width: values[4],
            height: values[5],
        }
    }
}

/// What a rectangle does with its resolved values: the widget's terminal
/// action.  Implementations live with the caller; the trait carries no
/// proof obligations, so plain Rust code can implement it too.
pub trait RectanglePainter {
    /// Consumes the painter with the resolved metrics.
    fn paint_rect(self, metrics: RectangleMetrics) -> Result<(), PaintError>;
}

/// A painter that does nothing, for spacer rectangles.
pub struct NoopPainter {}

impl RectanglePainter for NoopPainter {
    fn paint_rect(self, _metrics: RectangleMetrics) -> (r: Result<(), PaintError>)
        ensures
            r is Ok,
    {
        Ok(())
    }
}

/// The canonical rectangle widget: six measures, a painter, and the
/// structural constraints contributed through the widget contract.
pub struct Rectangle<P> {
    pub left: Measure,
    pub right: Measure,
    pub top: Measure,
    pub bottom: Measure,
    pub width: Measure,
    pub height: Measure,
    pub painter: P,
}

/// `m` selects the smaller of `a` and `b`: a `select` node over a strict
/// less-than between exactly those two measures.
pub open spec fn is_min_step(ctx: LayoutContext, m: Measure, a: Measure, b: Measure) -> bool {
    &&& m.wf(ctx)
    &&& m.node(ctx) is Select
    &&& m.node(ctx)->Select_1 == a
    &&& m.node(ctx)->Select_2 == b
    &&& (m.node(ctx)->Select_0).wf(ctx)
    &&& (m.node(ctx)->Select_0).node(ctx) == PropVariant::Lt(a, b)
}

/// `m` selects the larger of `a` and `b`: a `select` node over a strict
/// greater-than between exactly those two measures.
pub open spec fn is_max_step(ctx: LayoutContext, m: Measure, a: Measure, b: Measure) -> bool {
    &&& m.wf(ctx)
    &&& m.node(ctx) is Select
    &&& m.node(ctx)->Select_1 == a
    &&& m.node(ctx)->Select_2 == b
    &&& (m.node(ctx)->Select_0).wf(ctx)
    &&& (m.node(ctx)->Select_0).node(ctx) == PropVariant::Gt(a, b)
}

/// The intermediate results of folding `min` left to right over `elems`:
/// `steps[0]` is the first element, each later step min-selects the previous
/// step against the matching element, and the fold's result is the last step.
pub open spec fn min_steps_ok(
    ctx: LayoutContext,
    elems: Seq<Measure>,
    steps: Seq<Measure>,
    m: Measure,
) -> bool {
    &&& steps.len() == elems.len()
    &&& steps.len() >= 1
    &&& steps[0] == elems[0]
    &&& forall|i: int|
        1 <= i < steps.len() ==> #[trigger] is_min_step(ctx, steps[i], steps[i - 1], elems[i])
    &&& m == steps.last()
}

/// `m` is the left-to-right fold of `min` over `elems`.
pub open spec fn min_chain(ctx: LayoutContext, elems: Seq<Measure>, m: Measure) -> bool {
    exists|steps: Seq<Measure>| #[trigger] min_steps_ok(ctx, elems, steps, m)
}

/// The intermediate results of folding `max` left to right over `elems`.
pub open spec fn max_steps_ok(
    ctx: LayoutContext,
    elems: Seq<Measure>,
    steps: Seq<Measure>,
    m: Measure,
) -> bool {
    &&& steps.len() == elems.len()
    &&& steps.len() >= 1
    &&& steps[0] == elems[0]
    &&& forall|i: int|
        1 <= i < steps.len() ==> #[trigger] is_max_step(ctx, steps[i], steps[i - 1], elems[i])
    &&& m == steps.last()
}

/// `m` is the left-to-right fold of `max` over `elems`.
pub open spec fn max_chain(ctx: LayoutContext, elems: Seq<Measure>, m: Measure) -> bool {
    exists|steps: Seq<Measure>| #[trigger] max_steps_ok(ctx, elems, steps, m)
}

/// A step list keeps holding when the arena is extended: every node it
/// speaks of lies in the preserved prefix.
proof fn lemma_min_steps_prefix(
    ctx1: LayoutContext,
    ctx2: LayoutContext,
    elems: Seq<Measure>,
    steps: Seq<Measure>,
    m: Measure,
)
    requires
        min_steps_ok(ctx1, elems, steps, m),
        ctx1.nodes@.is_prefix_of(ctx2.nodes@),
    ensures
        min_steps_ok(ctx2, elems, steps, m),
{
    assert(ctx1.nodes@ =~= ctx2.nodes@.subrange(0, ctx1.nodes@.len() as int));
    assert forall|i: int| 1 <= i < steps.len() implies #[trigger] is_min_step(
        ctx2,
        steps[i],
        steps[i - 1],
        elems[i],
    ) by {
        assert(is_min_step(ctx1, steps[i], steps[i - 1], elems[i]));
        assert(ctx2.nodes@[steps[i].idx as int] == ctx1.nodes@[steps[i].idx as int]);
        let p0 = steps[i].node(ctx1)->Select_0;
        assert(ctx2.nodes@[p0.idx as int] == ctx1.nodes@[p0.idx as int]);
    }
}

/// A fold chain keeps holding when the arena is extended.
proof fn lemma_min_chain_prefix(
    ctx1: LayoutContext,
    ctx2: LayoutContext,
    elems: Seq<Measure>,
    m: Measure,
)
    requires
        min_chain(ctx1, elems, m),
        ctx1.nodes@.is_prefix_of(ctx2.nodes@),
    ensures
        min_chain(ctx2, elems, m),
{
    let steps = choose|st: Seq<Measure>| #[trigger] min_steps_ok(ctx1, elems, st, m);
    lemma_min_steps_prefix(ctx1, ctx2, elems, steps, m);
}

/// A step list keeps holding when the arena is extended.
proof fn lemma_max_steps_prefix(
    ctx1: LayoutContext,
    ctx2: LayoutContext,
    elems: Seq<Measure>,
    steps: Seq<Measure>,
    m: Measure,
)
    requires
        max_steps_ok(ctx1, elems, steps, m),
        ctx1.nodes@.is_prefix_of(ctx2.nodes@),
    ensures
        max_steps_ok(ctx2, elems, steps, m),
{
    assert(ctx1.nodes@ =~= ctx2.nodes@.subrange(0, ctx1.nodes@.len() as int));
    assert forall|i: int| 1 <= i < steps.len() implies #[trigger] is_max_step(
        ctx2,
        steps[i],
        steps[i - 1],
        elems[i],
    ) by {
        assert(is_max_step(ctx1, steps[i], steps[i - 1], elems[i]));
        assert(ctx2.nodes@[steps[i].idx as int] == ctx1.nodes@[steps[i].idx as int]);
        let p0 = steps[i].node(ctx1)->Select_0;
        assert(ctx2.nodes@[p0.idx as int] == ctx1.nodes@[p0.idx as int]);
    }
}

/// A fold chain keeps holding when the arena is extended.
proof fn lemma_max_chain_prefix(
    ctx1: LayoutContext,
    ctx2: LayoutContext,
    elems: Seq<Measure>,
    m: Measure,
)
    requires
        max_chain(ctx1, elems, m),
        ctx1.nodes@.is_prefix_of(ctx2.nodes@),
    ensures
        max_chain(ctx2, elems, m),
{
    let steps = choose|st: Seq<Measure>| #[trigger] max_steps_ok(ctx1, elems, st, m);
    lemma_max_steps_prefix(ctx1, ctx2, elems, steps, m);
}

/// Every measure handle of the sequence points into the arena.
pub open spec fn chain_elems_wf(elems: Seq<Measure>, ctx: LayoutContext) -> bool {
    forall|i: int| 0 <= i < elems.len() ==> (#[trigger] elems[i]).wf(ctx)
}

/// Handle well-formedness survives extending the arena.
proof fn lemma_chain_elems_wf_prefix(elems: Seq<Measure>, ctx1: LayoutContext, ctx2: LayoutContext)
    requires
        chain_elems_wf(elems, ctx1),
        ctx1.nodes@.is_prefix_of(ctx2.nodes@),
    ensures
        chain_elems_wf(elems, ctx2),
{
    assert(ctx1.nodes@ =~= ctx2.nodes@.subrange(0, ctx1.nodes@.len() as int));
    assert forall|i: int| 0 <= i < elems.len() implies (#[trigger] elems[i]).wf(ctx2) by {
        assert(ctx2.nodes@[elems[i].idx as int] == ctx1.nodes@[elems[i].idx as int]);
    }
}

/// Folds `min` over the elements from index `i` on, starting from the fold
/// of the first `i` elements.
fn fold_min_from(
    ctx: &mut LayoutContext,
    elems: &Vec<Measure>,
    i: usize,
    acc: Measure,
    steps: Ghost<Seq<Measure>>,
) -> (r: Measure)
    requires
        old(ctx).wf(),
        1 <= i <= elems@.len(),
        chain_elems_wf(elems@, *old(ctx)),
        acc.wf(*old(ctx)),
        min_steps_ok(*old(ctx), elems@.take(i as int), steps@, acc),
    ensures
        final(ctx).wf(),
        old(ctx).nodes@.is_prefix_of(final(ctx).nodes@),
        r.wf(*final(ctx)),
        min_chain(*final(ctx), elems@, r),
    decreases elems@.len() - i,
{
    if i == elems.len() {
        proof {
            assert(elems@.take(i as int) =~= elems@);
            assert(min_steps_ok(*ctx, elems@, steps@, acc));
            assert(ctx.nodes@.is_prefix_of(ctx.nodes@)) by {
                assert(ctx.nodes@ =~= ctx.nodes@.subrange(0, ctx.nodes@.len() as int));
            }
        }
        acc
    } else {
        let x = elems[i];
        let ghost pre = *ctx;
        let next = acc.min(ctx, x);
        let ghost steps2 = steps@.push(next);
        proof {
            assert(pre.nodes@.is_prefix_of(ctx.nodes@)) by {
                assert(pre.nodes@ =~= ctx.nodes@.subrange(0, pre.nodes@.len() as int));
            }
            lemma_min_steps_prefix(pre, *ctx, elems@.take(i as int), steps@, acc);
            lemma_chain_elems_wf_prefix(elems@, pre, *ctx);
            assert(is_min_step(*ctx, next, acc, elems@[i as int]));
            assert forall|k: int| 1 <= k < steps2.len() implies #[trigger] is_min_step(
                *ctx,
                steps2[k],
                steps2[k - 1],
                elems@.take(i + 1)[k],
            ) by {
                if k < i {
                    assert(steps2[k] == steps@[k] && steps2[k - 1] == steps@[k - 1]);
                    assert(elems@.take(i + 1)[k] == elems@.take(i as int)[k]);
                    assert(is_min_step(*ctx, steps@[k], steps@[k - 1], elems@.take(i as int)[k]));
                } else {
                    assert(steps2[k] == next && steps2[k - 1] == steps@.last());
                    assert(steps@.last() == acc);
                    assert(elems@.take(i + 1)[k] == elems@[i as int]);
                }
            }
            assert(min_steps_ok(*ctx, elems@.take(i + 1), steps2, next));
        }
        let ghost mid = *ctx;
        let r = fold_min_from(ctx, elems, i + 1, next, Ghost(steps2));
        proof {
            lemma_prefix_trans(old(ctx).nodes@, mid.nodes@, ctx.nodes@);
        }
        r
    }
}

/// Folds `max` over the elements from index `i` on.
fn fold_max_from(
    ctx: &mut LayoutContext,
    elems: &Vec<Measure>,
    i: usize,
    acc: Measure,
    steps: Ghost<Seq<Measure>>,
) -> (r: Measure)
    requires
        old(ctx).wf(),
        1 <= i <= elems@.len(),
        chain_elems_wf(elems@, *old(ctx)),
        acc.wf(*old(ctx)),
        max_steps_ok(*old(ctx), elems@.take(i as int), steps@, acc),
    ensures
        final(ctx).wf(),
        old(ctx).nodes@.is_prefix_of(final(ctx).nodes@),
        r.wf(*final(ctx)),
        max_chain(*final(ctx), elems@, r),
    decreases elems@.len() - i,
{
    if i == elems.len() {
        proof {
            assert(elems@.take(i as int) =~= elems@);
            assert(max_steps_ok(*ctx, elems@, steps@, acc));
            assert(ctx.nodes@.is_prefix_of(ctx.nodes@)) by {
                assert(ctx.nodes@ =~= ctx.nodes@.subrange(0, ctx.nodes@.len() as int));
            }
        }
        acc
    } else {
        let x = elems[i];
        let ghost pre = *ctx;
        let next = acc.max(ctx, x);
        let ghost steps2 = steps@.push(next);
        proof {
            assert(pre.nodes@.is_prefix_of(ctx.nodes@)) by {
                assert(pre.nodes@ =~= ctx.nodes@.subrange(0, pre.nodes@.len() as int));
            }
            lemma_max_steps_prefix(pre, *ctx, elems@.take(i as int), steps@, acc);
            lemma_chain_elems_wf_prefix(elems@, pre, *ctx);
            assert(is_max_step(*ctx, next, acc, elems@[i as int]));
            assert forall|k: int| 1 <= k < steps2.len() implies #[trigger] is_max_step(
                *ctx,
                steps2[k],
                steps2[k - 1],
                elems@.take(i + 1)[k],
            ) by {
                if k < i {
                    assert(steps2[k] == steps@[k] && steps2[k - 1] == steps@[k - 1]);
                    assert(elems@.take(i + 1)[k] == elems@.take(i as int)[k]);
                    assert(is_max_step(*ctx, steps@[k], steps@[k - 1], elems@.take(i as int)[k]));
                } else {
                    assert(steps2[k] == next && steps2[k - 1] == steps@.last());
                    assert(steps@.last() == acc);
                    assert(elems@.take(i + 1)[k] == elems@[i as int]);
                }
            }
            assert(max_steps_ok(*ctx, elems@.take(i + 1), steps2, next));
        }
        let ghost mid = *ctx;
        let r = fold_max_from(ctx, elems, i + 1, next, Ghost(steps2));
        proof {
            lemma_prefix_trans(old(ctx).nodes@, mid.nodes@, ctx.nodes@);
        }
        r
    }
}

/// Folds `min` over a non-empty element list.
fn fold_min(ctx: &mut LayoutContext, elems: &Vec<Measure>) -> (r: Measure)
    requires
        old(ctx).wf(),
        elems@.len() >= 1,
        chain_elems_wf(elems@, *old(ctx)),
    ensures
        final(ctx).wf(),
        old(ctx).nodes@.is_prefix_of(final(ctx).nodes@),
        r.wf(*final(ctx)),
        min_chain(*final(ctx), elems@, r),
{
    let first = elems[0];
    let ghost steps = seq![first];
    proof {
        assert(elems@.take(1).len() == 1 && elems@.take(1)[0] == elems@[0]);
        assert(min_steps_ok(*ctx, elems@.take(1), steps, first));
    }
    fold_min_from(ctx, elems, 1, first, Ghost(steps))
}

/// Folds `max` over a non-empty element list.
fn fold_max(ctx: &mut LayoutContext, elems: &Vec<Measure>) -> (r: Measure)
    requires
        old(ctx).wf(),
        elems@.len() >= 1,
        chain_elems_wf(elems@, *old(ctx)),
    ensures
        final(ctx).wf(),
        old(ctx).nodes@.is_prefix_of(final(ctx).nodes@),
        r.wf(*final(ctx)),
        max_chain(*final(ctx), elems@, r),
{
    let first = elems[0];
    let ghost steps = seq![first];
    proof {
        assert(elems@.take(1).len() == 1 && elems@.take(1)[0] == elems@[0]);
        assert(max_steps_ok(*ctx, elems@.take(1), steps, first));
    }
    fold_max_from(ctx, elems, 1, first, Ghost(steps))
}

/// The left edges of a group of rectangles, in order.
pub open spec fn lefts(g: Seq<RectangleMeasures>) -> Seq<Measure> {
    g.map_values(|r: RectangleMeasures| r.left)
}

/// The right edges of a group of rectangles, in order.
pub open spec fn rights(g: Seq<RectangleMeasures>) -> Seq<Measure> {
    g.map_values(|r: RectangleMeasures| r.right)
}

/// The top edges of a group of rectangles, in order.
pub open spec fn tops(g: Seq<RectangleMeasures>) -> Seq<Measure> {
    g.map_values(|r: RectangleMeasures| r.top)
}

/// The bottom edges of a group of rectangles, in order.
pub open spec fn bottoms(g: Seq<RectangleMeasures>) -> Seq<Measure> {
    g.map_values(|r: RectangleMeasures| r.bottom)
}

/// Every rectangle of the group has all of its handles in the arena.
pub open spec fn group_wf(ctx: LayoutContext, g: Seq<RectangleMeasures>) -> bool {
    forall|i: int| 0 <= i < g.len() ==> (#[trigger] g[i]).wf(ctx)
}

fn collect_lefts(group: &Vec<RectangleMeasures>) -> (r: Vec<Measure>)
    ensures
        r@ == lefts(group@),
{
    let mut r: Vec<Measure> = Vec::new();
    let mut i: usize = 0;
    while i < group.len()
        invariant
            i <= group@.len(),
            r@ == lefts(group@.take(i as int)),
        decreases group@.len() - i,
    {
        r.push(group[i].left);
        proof {
            assert(r@ =~= lefts(group@.take(i + 1)));
        }
        i = i + 1;
    }
    proof {
        assert(group@.take(group@.len() as int) =~= group@);
    }
    r
}

fn collect_rights(group: &Vec<RectangleMeasures>) -> (r: Vec<Measure>)
    ensures
        r@ == rights(group@),
{
    let mut r: Vec<Measure> = Vec::new();
    let mut i: usize = 0;
    while i < group.len()
        invariant
            i <= group@.len(),
            r@ == rights(group@.take(i as int)),
        decreases group@.len() - i,
    {
        r.push(group[i].right);
        proof {
            assert(r@ =~= rights(group@.take(i + 1)));
        }
        i = i + 1;
    }
    proof {
        assert(group@.take(group@.len() as int) =~= group@);
    }
    r
}

fn collect_tops(group: &Vec<RectangleMeasures>) -> (r: Vec<Measure>)
    ensures
        r@ == tops(group@),
{
    let mut r: Vec<Measure> = Vec::new();
    let mut i: usize = 0;
    while i < group.len()
        invariant
            i <= group@.len(),
            r@ == tops(group@.take(i as int)),
        decreases group@.len() - i,
    {
        r.push(group[i].top);
        proof {
            assert(r@ =~= tops(group@.take(i + 1)));
        }
        i = i + 1;
    }
    proof {
        assert(group@.take(group@.len() as int) =~= group@);
    }
    r
}

fn collect_bottoms(group: &Vec<RectangleMeasures>) -> (r: Vec<Measure>)
    ensures
        r@ == bottoms(group@),
{
    let mut r: Vec<Measure> = Vec::new();
    let mut i: usize = 0;
    while i < group.len()
        invariant
            i <= group@.len(),
            r@ == bottoms(group@.take(i as int)),
        decreases group@.len() - i,
    {
        r.push(group[i].bottom);
        proof {
            assert(r@ =~= bottoms(group@.take(i + 1)));
        }
        i = i + 1;
    }
    proof {
        assert(group@.take(group@.len() as int) =~= group@);
    }
    r
}

/// `p` pins `pinned` at a fixed distance from `anchor`: an equality against
/// `anchor + distance` or `anchor - distance`.
pub open spec fn is_offset_eq(
    ctx: LayoutContext,
    p: Prop,
    pinned: Measure,
    anchor: Measure,
    distance: Measure,
    added: bool,
) -> bool {
    &&& p.wf(ctx)
    &&& p.node(ctx) is Eq
    &&& p.node(ctx)->Eq_0 == pinned
    &&& (p.node(ctx)->Eq_1).wf(ctx)
    &&& (p.node(ctx)->Eq_1).node(ctx) == (if added {
        MeasureVariant::Add(anchor, distance)
    } else {
        MeasureVariant::Sub(anchor, distance)
    })
}

/// An offset equality keeps holding when the arena is extended.
proof fn lemma_offset_eq_prefix(
    ctx1: LayoutContext,
    ctx2: LayoutContext,
    p: Prop,
    pinned: Measure,
    anchor: Measure,
    distance: Measure,
    added: bool,
)
    requires
        is_offset_eq(ctx1, p, pinned, anchor, distance, added),
        ctx1.nodes@.is_prefix_of(ctx2.nodes@),
    ensures
        is_offset_eq(ctx2, p, pinned, anchor, distance, added),
{
    assert(ctx1.nodes@ =~= ctx2.nodes@.subrange(0, ctx1.nodes@.len() as int));
    assert(ctx2.nodes@[p.idx as int] == ctx1.nodes@[p.idx as int]);
    let d = p.node(ctx1)->Eq_1;
    assert(ctx2.nodes@[d.idx as int] == ctx1.nodes@[d.idx as int]);
}

/// The conjunction a containment produces: this rectangle's four edges each
/// pinned at distance zero inside the other rectangle's opposite edges,
/// folded left to right.
pub open spec fn within_shape(
    ctx: LayoutContext,
    r: Prop,
    inner: RectangleMeasures,
    outer: RectangleMeasures,
) -> bool {
    let c123 = r.node(ctx)->And_0;
    let c12 = c123.node(ctx)->And_0;
    &&& r.wf(ctx)
    &&& r.node(ctx) is And
    &&& c123.wf(ctx)
    &&& c123.node(ctx) is And
    &&& c12.wf(ctx)
    &&& c12.node(ctx) is And
    &&& is_offset_eq(
        ctx,
        c12.node(ctx)->And_0,
        inner.right,
        outer.right,
        (Measure { idx: 0 }),
        false,
    )
    &&& is_offset_eq(ctx, c12.node(ctx)->And_1, inner.left, outer.left, (Measure { idx: 0 }), true)
    &&& is_offset_eq(
        ctx,
        c123.node(ctx)->And_1,
        inner.bottom,
        outer.bottom,
        (Measure { idx: 0 }),
        false,
    )
    &&& is_offset_eq(ctx, r.node(ctx)->And_1, inner.top, outer.top, (Measure { idx: 0 }), true)
}

/// Every rectangle of the group keeps its handles when the arena is
/// extended.
proof fn lemma_group_wf_prefix(g: Seq<RectangleMeasures>, ctx1: LayoutContext, ctx2: LayoutContext)
    requires
        group_wf(ctx1, g),
        ctx1.nodes@.is_prefix_of(ctx2.nodes@),
    ensures
        group_wf(ctx2, g),
{
    assert(ctx1.nodes@ =~= ctx2.nodes@.subrange(0, ctx1.nodes@.len() as int));
    assert forall|i: int| 0 <= i < g.len() implies (#[trigger] g[i]).wf(ctx2) by {
        assert(ctx2.nodes@[g[i].left.idx as int] == ctx1.nodes@[g[i].left.idx as int]);
        assert(ctx2.nodes@[g[i].right.idx as int] == ctx1.nodes@[g[i].right.idx as int]);
        assert(ctx2.nodes@[g[i].top.idx as int] == ctx1.nodes@[g[i].top.idx as int]);
        assert(ctx2.nodes@[g[i].bottom.idx as int] == ctx1.nodes@[g[i].bottom.idx as int]);
        assert(ctx2.nodes@[g[i].width.idx as int] == ctx1.nodes@[g[i].width.idx as int]);
        assert(ctx2.nodes@[g[i].height.idx as int] == ctx1.nodes@[g[i].height.idx as int]);
    }
}

/// `m` divides the sum of a min-fold and a max-fold by the shared constant
/// two: the shape of a group-centre coordinate.
pub open spec fn centers_of(
    ctx: LayoutContext,
    m: Measure,
    mins: Seq<Measure>,
    maxs: Seq<Measure>,
) -> bool {
    &&& m.wf(ctx)
    &&& m.node(ctx) is Div
    &&& m.node(ctx)->Div_1 == (Measure { idx: 2 })
    &&& (m.node(ctx)->Div_0).wf(ctx)
    &&& (m.node(ctx)->Div_0).node(ctx) is Add
    &&& min_chain(ctx, mins, (m.node(ctx)->Div_0).node(ctx)->Add_0)
    &&& max_chain(ctx, maxs, (m.node(ctx)->Div_0).node(ctx)->Add_1)
}

impl RectangleMeasures {
    /// All six handles point into the arena.
    pub open spec fn wf(self, ctx: LayoutContext) -> bool {
        &&& self.left.wf(ctx)
        &&& self.right.wf(ctx)
        &&& self.top.wf(ctx)
        &&& self.bottom.wf(ctx)
        &&& self.width.wf(ctx)
        &&& self.height.wf(ctx)
    }

    /// The leftmost edge of a group: the fold of `min` over the lefts.
    /// Fails with `EmptyGroup` exactly on an empty group, allocating
    /// nothing.
    pub fn group_leftmost(ctx: &mut LayoutContext, group: &Vec<RectangleMeasures>) -> (r: Result<
        Measure,
        RectangleError,
    >)
        requires
            old(ctx).wf(),
            group_wf(*old(ctx), group@),
        ensures
            final(ctx).wf(),
            old(ctx).nodes@.is_prefix_of(final(ctx).nodes@),
            r is Err <==> group@.len() == 0,
            r matches Err(e) ==> e == RectangleError::EmptyGroup && *final(ctx) == *old(ctx),
            r matches Ok(m) ==> m.wf(*final(ctx)) && min_chain(*final(ctx), lefts(group@), m),
    {
        if group.len() == 0 {
            proof {
                assert(ctx.nodes@ =~= ctx.nodes@.subrange(0, ctx.nodes@.len() as int));
            }
            return Err(RectangleError::EmptyGroup);
        }
        let elems = collect_lefts(group);
        proof {
            assert forall|i: int| 0 <= i < elems@.len() implies (#[trigger] elems@[i]).wf(
                *ctx,
            ) by {
                assert(elems@[i] == group@[i].left);
            }
        }
        let m = fold_min(ctx, &elems);
        Ok(m)
    }

    /// The rightmost edge of a group: the fold of `max` over the rights.
    pub fn group_rightmost(ctx: &mut LayoutContext, group: &Vec<RectangleMeasures>) -> (r: Result<
        Measure,
        RectangleError,
    >)
        requires
            old(ctx).wf(),
            group_wf(*old(ctx), group@),
        ensures
            final(ctx).wf(),
            old(ctx).nodes@.is_prefix_of(final(ctx).nodes@),
            r is Err <==> group@.len() == 0,
            r matches Err(e) ==> e == RectangleError::EmptyGroup && *final(ctx) == *old(ctx),
            r matches Ok(m) ==> m.wf(*final(ctx)) && max_chain(*final(ctx), rights(group@), m),
    {
        if group.len() == 0 {
            proof {
                assert(ctx.nodes@ =~= ctx.nodes@.subrange(0, ctx.nodes@.len() as int));
            }
            return Err(RectangleError::EmptyGroup);
        }
        let elems = collect_rights(group);
        proof {
            assert forall|i: int| 0 <= i < elems@.len() implies (#[trigger] elems@[i]).wf(
                *ctx,
            ) by {
                assert(elems@[i] == group@[i].right);
            }
        }
        let m = fold_max(ctx, &elems);
        Ok(m)
    }

    /// The topmost edge of a group: the fold of `min` over the tops.
    pub fn group_topmost(ctx: &mut LayoutContext, group: &Vec<RectangleMeasures>) -> (r: Result<
        Measure,
        RectangleError,
    >)
        requires
            old(ctx).wf(),
            group_wf(*old(ctx), group@),
        ensures
            final(ctx).wf(),
            old(ctx).nodes@.is_prefix_of(final(ctx).nodes@),
            r is Err <==> group@.len() == 0,
            r matches Err(e) ==> e == RectangleError::EmptyGroup && *final(ctx) == *old(ctx),
            r matches Ok(m) ==> m.wf(*final(ctx)) && min_chain(*final(ctx), tops(group@), m),
    {
        if group.len() == 0 {
            proof {
                assert(ctx.nodes@ =~= ctx.nodes@.subrange(0, ctx.nodes@.len() as int));
            }
            return Err(RectangleError::EmptyGroup);
        }
        let elems = collect_tops(group);
        proof {
            assert forall|i: int| 0 <= i < elems@.len() implies (#[trigger] elems@[i]).wf(
                *ctx,
            ) by {
                assert(elems@[i] == group@[i].top);
            }
        }
        let m = fold_min(ctx, &elems);
        Ok(m)
    }

    /// The bottommost edge of a group: the fold of `max` over the bottoms.
    pub fn group_bottommost(ctx: &mut LayoutContext, group: &Vec<RectangleMeasures>) -> (r: Result<
        Measure,
        RectangleError,
    >)
        requires
            old(ctx).wf(),
            group_wf(*old(ctx), group@),
        ensures
            final(ctx).wf(),
            old(ctx).nodes@.is_prefix_of(final(ctx).nodes@),
            r is Err <==> group@.len() == 0,
            r matches Err(e) ==> e == RectangleError::EmptyGroup && *final(ctx) == *old(ctx),
            r matches Ok(m) ==> m.wf(*final(ctx)) && max_chain(*final(ctx), bottoms(group@), m),
    {
        if group.len() == 0 {
            proof {
                assert(ctx.nodes@ =~= ctx.nodes@.subrange(0, ctx.nodes@.len() as int));
            }
            return Err(RectangleError::EmptyGroup);
        }
        let elems = collect_bottoms(group);
        proof {
            assert forall|i: int| 0 <= i < elems@.len() implies (#[trigger] elems@[i]).wf(
                *ctx,
            ) by {
                assert(elems@[i] == group@[i].bottom);
            }
        }
        let m = fold_max(ctx, &elems);
        Ok(m)
    }
}

impl<P> Rectangle<P> {
    /// All six handles point into the arena.
    pub open spec fn handles_wf(&self, ctx: LayoutContext) -> bool {
        &&& self.left.wf(ctx)
        &&& self.right.wf(ctx)
        &&& self.top.wf(ctx)
        &&& self.bottom.wf(ctx)
        &&& self.width.wf(ctx)
        &&& self.height.wf(ctx)
    }

    /// This rectangle's measures, detached from the widget.
    pub fn measure_set(&self) -> (r: RectangleMeasures)
        ensures
            r.left == self.left,
            r.right == self.right,
            r.top == self.top,
            r.bottom == self.bottom,
            r.width == self.width,
            r.height == self.height,
    {
        RectangleMeasures {
            left: self.left,
            right: self.right,
            top: self.top,
            bottom: self.bottom,
            width: self.width,
            height: self.height,
        }
    }
}

impl<P: RectanglePainter> Rectangle<P> {
    /// A square: one shared unbound side length for both width and height,
    /// so the two resolve to the same value by identity.
    pub fn square(ctx: &mut LayoutContext, painter: P) -> (r: Rectangle<P>)
        requires
            old(ctx).wf(),
        ensures
            final(ctx).wf(),
            final(ctx).nodes@ == old(ctx).nodes@.push(Node::Measure(MeasureVariant::Unbound)).push(
                Node::Measure(MeasureVariant::Unbound),
            ).push(Node::Measure(MeasureVariant::Unbound)).push(
                Node::Measure(MeasureVariant::Unbound),
            ).push(Node::Measure(MeasureVariant::Unbound)),
            r.handles_wf(*final(ctx)),
            r.width == r.height,
            r.width.idx == old(ctx).nodes@.len(),
            r.left.idx == old(ctx).nodes@.len() + 1,
            r.right.idx == old(ctx).nodes@.len() + 2,
            r.top.idx == old(ctx).nodes@.len() + 3,
            r.bottom.idx == old(ctx).nodes@.len() + 4,
            r.painter == painter,
    {
        let border_length = Measure::new_unbound(ctx);
        let left = Measure::new_unbound(ctx);
        let right = Measure::new_unbound(ctx);
        let top = Measure::new_unbound(ctx);
        let bottom = Measure::new_unbound(ctx);
        Rectangle {
            left,
            right,
            top,
            bottom,
            width: border_length,
            height: border_length,
            painter,
        }
    }

    /// An otherwise unbound rectangle whose width is the given shared
    /// flex-unit measure, so several spacers in a row stretch alike.  Its
    /// painter does nothing.
    pub fn row_spacer(ctx: &mut LayoutContext, flex_unit: Measure) -> (r: Rectangle<NoopPainter>)
        requires
            old(ctx).wf(),
            flex_unit.wf(*old(ctx)),
        ensures
            final(ctx).wf(),
            final(ctx).nodes@ == old(ctx).nodes@.push(Node::Measure(MeasureVariant::Unbound)).push(
                Node::Measure(MeasureVariant::Unbound),
            ).push(Node::Measure(MeasureVariant::Unbound)).push(
                Node::Measure(MeasureVariant::Unbound),
            ).push(Node::Measure(MeasureVariant::Unbound)),
            r.handles_wf(*final(ctx)),
            r.width == flex_unit,
            r.left.idx == old(ctx).nodes@.len(),
            r.right.idx == old(ctx).nodes@.len() + 1,
            r.top.idx == old(ctx).nodes@.len() + 2,
            r.bottom.idx == old(ctx).nodes@.len() + 3,
            r.height.idx == old(ctx).nodes@.len() + 4,
    {
        let left = Measure::new_unbound(ctx);
        let right = Measure::new_unbound(ctx);
        let top = Measure::new_unbound(ctx);
        let bottom = Measure::new_unbound(ctx);
        let height = Measure::new_unbound(ctx);
        Rectangle { left, right, top, bottom, width: flex_unit, height, painter: NoopPainter {  } }
    }

    /// A fully unbound rectangle: every measure is a fresh free variable.
    pub fn unbound(ctx: &mut LayoutContext, painter: P) -> (r: Rectangle<P>)
        requires
            old(ctx).wf(),
        ensures
            final(ctx).wf(),
            final(ctx).nodes@ == old(ctx).nodes@.push(Node::Measure(MeasureVariant::Unbound)).push(
                Node::Measure(MeasureVariant::Unbound),
            ).push(Node::Measure(MeasureVariant::Unbound)).push(
                Node::Measure(MeasureVariant::Unbound),
            ).push(Node::Measure(MeasureVariant::Unbound)).push(
                Node::Measure(MeasureVariant::Unbound),
            ),
            r.handles_wf(*final(ctx)),
            r.left.idx == old(ctx).nodes@.len(),
            r.right.idx == old(ctx).nodes@.len() + 1,
            r.top.idx == old(ctx).nodes@.len() + 2,
            r.bottom.idx == old(ctx).nodes@.len() + 3,
            r.width.idx == old(ctx).nodes@.len() + 4,
            r.height.idx == old(ctx).nodes@.len() + 5,
            r.painter == painter,
    {
        let left = Measure::new_unbound(ctx);
        let right = Measure::new_unbound(ctx);
        let top = Measure::new_unbound(ctx);
        let bottom = Measure::new_unbound(ctx);
        let width = Measure::new_unbound(ctx);
        let height = Measure::new_unbound(ctx);
        Rectangle { left, right, top, bottom, width, height, painter }
    }

    /// A rectangle with unbound edges whose width and height are pinned to
    /// exact constants.
    pub fn with_width_and_height(
        ctx: &mut LayoutContext,
        width: Rational,
        height: Rational,
        painter: P,
    ) -> (r: Rectangle<P>)
        requires
            old(ctx).wf(),
            representable(width.num as int, width.den as int),
            representable(height.num as int, height.den as int),
        ensures
            final(ctx).wf(),
            old(ctx).nodes@.is_prefix_of(final(ctx).nodes@),
            r.handles_wf(*final(ctx)),
            r.left.idx == old(ctx).nodes@.len(),
            r.right.idx == old(ctx).nodes@.len() + 1,
            r.top.idx == old(ctx).nodes@.len() + 2,
            r.bottom.idx == old(ctx).nodes@.len() + 3,
            r.left.node(*final(ctx)) == MeasureVariant::Unbound,
            r.right.node(*final(ctx)) == MeasureVariant::Unbound,
            r.top.node(*final(ctx)) == MeasureVariant::Unbound,
            r.bottom.node(*final(ctx)) == MeasureVariant::Unbound,
            r.width.node(*final(ctx)) == MeasureVariant::Const(
                norm_num(width.num as int, width.den as int) as i64,
                norm_den(width.num as int, width.den as int) as i64,
            ),
            r.height.node(*final(ctx)) == MeasureVariant::Const(
                norm_num(height.num as int, height.den as int) as i64,
                norm_den(height.num as int, height.den as int) as i64,
            ),
            r.painter == painter,
    {
        let left = Measure::new_unbound(ctx);
        let right = Measure::new_unbound(ctx);
        let top = Measure::new_unbound(ctx);
        let bottom = Measure::new_unbound(ctx);
        let width_measure = match Measure::new_const(ctx, width.num, width.den) {
            Ok(m) => m,
            Err(_) => unreached(),
        };
        let height_measure = match Measure::new_const(ctx, height.num, height.den) {
            Ok(m) => m,
            Err(_) => unreached(),
        };
        Rectangle {
            left,
            right,
            top,
            bottom,
            width: width_measure,
            height: height_measure,
            painter,
        }
    }
}

impl<P: RectanglePainter> RawWidget for Rectangle<P> {
    open spec fn inv(&self, ctx: LayoutContext) -> bool {
        self.handles_wf(ctx)
    }

    fn measures(&self, ctx: &LayoutContext) -> (r: Vec<Measure>)
        ensures
            r@.len() == 6,
            r@[0] == self.left,
            r@[1] == self.right,
            r@[2] == self.top,
            r@[3] == self.bottom,
            r@[4] == self.width,
            r@[5] == self.height,
    {
        let mut r: Vec<Measure> = Vec::new();
        r.push(self.left);
        r.push(self.right);
        r.push(self.top);
        r.push(self.bottom);
        r.push(self.width);
        r.push(self.height);
        r
    }

    fn constraints(&self, ctx: &mut LayoutContext) -> (r: Vec<Prop>)
        ensures
            r@.len() == 6,
            forall|i: int| 0 <= i < 6 ==> (#[trigger] r@[i]).weight == DEFAULT_WEIGHT,
            r@[0].node(*final(ctx)) is Eq && r@[0].node(*final(ctx))->Eq_1 == self.right && (r@[0].node(
                *final(ctx),
            )->Eq_0).node(*final(ctx)) == MeasureVariant::Add(self.left, self.width),
            r@[1].node(*final(ctx)) is Eq && r@[1].node(*final(ctx))->Eq_1 == self.bottom && (r@[1].node(
                *final(ctx),
            )->Eq_0).node(*final(ctx)) == MeasureVariant::Add(self.top, self.height),
            r@[2].node(*final(ctx)) == PropVariant::Ge(self.top, (Measure { idx: 0 })),
            r@[3].node(*final(ctx)) == PropVariant::Ge(self.left, (Measure { idx: 0 })),
            r@[4].node(*final(ctx)) == PropVariant::Ge(self.width, (Measure { idx: 0 })),
            r@[5].node(*final(ctx)) == PropVariant::Ge(self.height, (Measure { idx: 0 })),
    {
        let sum_w = self.left.add(ctx, self.width);
        let c1 = sum_w.prop_eq(ctx, self.right);
        let sum_h = self.top.add(ctx, self.height);
        let c2 = sum_h.prop_eq(ctx, self.bottom);
        let zero = Measure::zero(ctx);
        let c3 = self.top.prop_ge(ctx, zero);
        let zero2 = Measure::zero(ctx);
        let c4 = self.left.prop_ge(ctx, zero2);
        let zero3 = Measure::zero(ctx);
        let c5 = self.width.prop_ge(ctx, zero3);
        let zero4 = Measure::zero(ctx);
        let c6 = self.height.prop_ge(ctx, zero4);
        let mut r: Vec<Prop> = Vec::new();
        r.push(c1);
        r.push(c2);
        r.push(c3);
        r.push(c4);
        r.push(c5);
        r.push(c6);
        r
    }

    fn paint(self: Box<Self>, values: Vec<Rational>) -> (r: Result<(), PaintError>)
        ensures
            values@.len() != 6 ==> r is Err,
    {
        if values.len() != 6 {
            return Err(PaintError::Failed);
        }
        let metrics = RectangleMetrics::from_values(&values);
        let me = *self;
        me.painter.paint_rect(metrics)
    }
}


impl RectangleMeasures {
    /// The centre of a group's bounding box: the midpoint of the leftmost
    /// and rightmost edges, and of the topmost and bottommost edges, each
    /// divided by the pooled constant two.  Fails with `EmptyGroup` exactly
    /// on an empty group, allocating nothing.
    pub fn group_center(ctx: &mut LayoutContext, group: &Vec<RectangleMeasures>) -> (r: Result<
        Point,
        RectangleError,
    >)
        requires
            old(ctx).wf(),
            group_wf(*old(ctx), group@),
        ensures
            final(ctx).wf(),
            old(ctx).nodes@.is_prefix_of(final(ctx).nodes@),
            r is Err <==> group@.len() == 0,
            r matches Err(e) ==> e == RectangleError::EmptyGroup && *final(ctx) == *old(ctx),
            r matches Ok(p) ==> centers_of(*final(ctx), p.x, lefts(group@), rights(group@))
                && centers_of(*final(ctx), p.y, tops(group@), bottoms(group@)),
    {
        if group.len() == 0 {
            proof {
                assert(ctx.nodes@ =~= ctx.nodes@.subrange(0, ctx.nodes@.len() as int));
            }
            return Err(RectangleError::EmptyGroup);
        }
        let le = collect_lefts(group);
        proof {
            assert forall|i: int| 0 <= i < le@.len() implies (#[trigger] le@[i]).wf(*ctx) by {
                assert(le@[i] == group@[i].left);
            }
        }
        let ghost g0 = *ctx;
        let lmin = fold_min(ctx, &le);
        proof {
            lemma_group_wf_prefix(group@, g0, *ctx);
        }
        let ri = collect_rights(group);
        proof {
            assert forall|i: int| 0 <= i < ri@.len() implies (#[trigger] ri@[i]).wf(*ctx) by {
                assert(ri@[i] == group@[i].right);
            }
        }
        let ghost g1 = *ctx;
        let rmax = fold_max(ctx, &ri);
        proof {
            lemma_group_wf_prefix(group@, g1, *ctx);
            lemma_min_chain_prefix(g1, *ctx, le@, lmin);
        }
        let to = collect_tops(group);
        proof {
            assert forall|i: int| 0 <= i < to@.len() implies (#[trigger] to@[i]).wf(*ctx) by {
                assert(to@[i] == group@[i].top);
            }
        }
        let ghost g2 = *ctx;
        let tmin = fold_min(ctx, &to);
        proof {
            lemma_group_wf_prefix(group@, g2, *ctx);
            lemma_min_chain_prefix(g2, *ctx, le@, lmin);
            lemma_max_chain_prefix(g2, *ctx, ri@, rmax);
        }
        let bo = collect_bottoms(group);
        proof {
            assert forall|i: int| 0 <= i < bo@.len() implies (#[trigger] bo@[i]).wf(*ctx) by {
                assert(bo@[i] == group@[i].bottom);
            }
        }
        let ghost g3 = *ctx;
        let bmax = fold_max(ctx, &bo);
        proof {
            lemma_min_chain_prefix(g3, *ctx, le@, lmin);
            lemma_max_chain_prefix(g3, *ctx, ri@, rmax);
            lemma_min_chain_prefix(g3, *ctx, to@, tmin);
        }
        proof {
            assert(gcd(2nat, 1nat) == gcd(1nat, 0nat)) by {
                assert((2nat % 1nat) == 0nat);
            }
            assert(gcd(1nat, 0nat) == 1nat);
            assert(iabs(2int) == 2nat && iabs(1int) == 1nat);
            assert(norm_num(2int, 1int) == 2int && norm_den(2int, 1int) == 1int);
        }
        let two = match Measure::new_const(ctx, 2, 1) {
            Ok(m) => m,
            Err(_) => unreached(),
        };
        let ghost g4 = *ctx;
        let sx = lmin.add(ctx, rmax);
        let x = sx.div(ctx, two);
        let ghost g5 = *ctx;
        let sy = tmin.add(ctx, bmax);
        let y = sy.div(ctx, two);
        proof {
            assert(g4.nodes@.is_prefix_of(ctx.nodes@)) by {
                assert(g4.nodes@ =~= ctx.nodes@.subrange(0, g4.nodes@.len() as int));
            }
            assert(g5.nodes@.is_prefix_of(ctx.nodes@)) by {
                assert(g5.nodes@ =~= ctx.nodes@.subrange(0, g5.nodes@.len() as int));
            }
            assert(ctx.nodes@[sx.idx as int] == g5.nodes@[sx.idx as int]);
            assert(ctx.nodes@[x.idx as int] == g5.nodes@[x.idx as int]);
            lemma_min_chain_prefix(g4, *ctx, le@, lmin);
            lemma_max_chain_prefix(g4, *ctx, ri@, rmax);
            lemma_min_chain_prefix(g4, *ctx, to@, tmin);
            lemma_max_chain_prefix(g4, *ctx, bo@, bmax);
            assert(le@ == lefts(group@) && ri@ == rights(group@) && to@ == tops(group@) && bo@
                == bottoms(group@));
            assert(centers_of(*ctx, x, lefts(group@), rights(group@)));
            assert(centers_of(*ctx, y, tops(group@), bottoms(group@)));
            lemma_prefix_trans(old(ctx).nodes@, g4.nodes@, ctx.nodes@);
        }
        Ok(Point { x, y })
    }

    /// The centre of this rectangle alone.
    pub fn center(&self, ctx: &mut LayoutContext) -> (r: Result<Point, RectangleError>)
        requires
            old(ctx).wf(),
            self.wf(*old(ctx)),
        ensures
            final(ctx).wf(),
            old(ctx).nodes@.is_prefix_of(final(ctx).nodes@),
            r is Ok,
            r matches Ok(p) ==> centers_of(*final(ctx), p.x, seq![self.left], seq![self.right])
                && centers_of(*final(ctx), p.y, seq![self.top], seq![self.bottom]),
    {
        let group: Vec<RectangleMeasures> = vec![*self];
        proof {
            assert(group_wf(*ctx, group@));
            assert(lefts(group@) =~= seq![self.left]);
            assert(rights(group@) =~= seq![self.right]);
            assert(tops(group@) =~= seq![self.top]);
            assert(bottoms(group@) =~= seq![self.bottom]);
        }
        Self::group_center(ctx, &group)
    }

    /// The proposition pinning this rectangle's right edge at the given
    /// distance left of `that`.
    pub fn left_to(&self, ctx: &mut LayoutContext, that: Measure, distance: Measure) -> (r: Prop)
        requires
            old(ctx).wf(),
            self.wf(*old(ctx)),
            that.wf(*old(ctx)),
            distance.wf(*old(ctx)),
        ensures
            final(ctx).wf(),
            final(ctx).nodes@ == old(ctx).nodes@.push(
                Node::Measure(MeasureVariant::Sub(that, distance)),
            ).push(
                Node::Prop(
                    PropVariant::Eq(
                        self.right,
                        (Measure { idx: old(ctx).nodes@.len() as usize }),
                    ),
                ),
            ),
            r.idx == old(ctx).nodes@.len() + 1,
            r.weight == DEFAULT_WEIGHT,
            is_offset_eq(*final(ctx), r, self.right, that, distance, false),
    {
        let d = that.sub(ctx, distance);
        self.right.prop_eq(ctx, d)
    }

    /// The proposition pinning this rectangle's left edge at the given
    /// distance right of `that`.
    pub fn right_to(&self, ctx: &mut LayoutContext, that: Measure, distance: Measure) -> (r: Prop)
        requires
            old(ctx).wf(),
            self.wf(*old(ctx)),
            that.wf(*old(ctx)),
            distance.wf(*old(ctx)),
        ensures
            final(ctx).wf(),
            final(ctx).nodes@ == old(ctx).nodes@.push(
                Node::Measure(MeasureVariant::Add(that, distance)),
            ).push(
                Node::Prop(
                    PropVariant::Eq(
                        self.left,
                        (Measure { idx: old(ctx).nodes@.len() as usize }),
                    ),
                ),
            ),
            r.idx == old(ctx).nodes@.len() + 1,
            r.weight == DEFAULT_WEIGHT,
            is_offset_eq(*final(ctx), r, self.left, that, distance, true),
    {
        let d = that.add(ctx, distance);
        self.left.prop_eq(ctx, d)
    }

    /// The proposition pinning this rectangle's bottom edge at the given
    /// distance above `that`.
    pub fn top_to(&self, ctx: &mut LayoutContext, that: Measure, distance: Measure) -> (r: Prop)
        requires
            old(ctx).wf(),
            self.wf(*old(ctx)),
            that.wf(*old(ctx)),
            distance.wf(*old(ctx)),
        ensures
            final(ctx).wf(),
            final(ctx).nodes@ == old(ctx).nodes@.push(
                Node::Measure(MeasureVariant::Sub(that, distance)),
            ).push(
                Node::Prop(
                    PropVariant::Eq(
                        self.bottom,
                        (Measure { idx: old(ctx).nodes@.len() as usize }),
                    ),
                ),
            ),
            r.idx == old(ctx).nodes@.len() + 1,
            r.weight == DEFAULT_WEIGHT,
            is_offset_eq(*final(ctx), r, self.bottom, that, distance, false),
    {
        let d = that.sub(ctx, distance);
        self.bottom.prop_eq(ctx, d)
    }

    /// The proposition pinning this rectangle's top edge at the given
    /// distance below `that`.
    pub fn bottom_to(&self, ctx: &mut LayoutContext, that: Measure, distance: Measure) -> (r: Prop)
        requires
            old(ctx).wf(),
            self.wf(*old(ctx)),
            that.wf(*old(ctx)),
            distance.wf(*old(ctx)),
        ensures
            final(ctx).wf(),
            final(ctx).nodes@ == old(ctx).nodes@.push(
                Node::Measure(MeasureVariant::Add(that, distance)),
            ).push(
                Node::Prop(
                    PropVariant::Eq(
                        self.top,
                        (Measure { idx: old(ctx).nodes@.len() as usize }),
                    ),
                ),
            ),
            r.idx == old(ctx).nodes@.len() + 1,
            r.weight == DEFAULT_WEIGHT,
            is_offset_eq(*final(ctx), r, self.top, that, distance, true),
    {
        let d = that.add(ctx, distance);
        self.top.prop_eq(ctx, d)
    }

    /// The conjunction requiring this rectangle to sit inside `that` one:
    /// each edge pinned at distance zero from the other rectangle's
    /// corresponding edge.
    pub fn within(&self, ctx: &mut LayoutContext, that: &RectangleMeasures) -> (r: Prop)
        requires
            old(ctx).wf(),
            self.wf(*old(ctx)),
            that.wf(*old(ctx)),
        ensures
            final(ctx).wf(),
            old(ctx).nodes@.is_prefix_of(final(ctx).nodes@),
            r.weight == DEFAULT_WEIGHT,
            within_shape(*final(ctx), r, *self, *that),
    {
        let zero = Measure::zero(ctx);
        let ghost w0 = *ctx;
        let c1 = self.left_to(ctx, that.right, zero);
        let c2 = self.right_to(ctx, that.left, zero);
        let c12 = c1.and(ctx, c2);
        let ghost w1 = *ctx;
        let c3 = self.top_to(ctx, that.bottom, zero);
        let c123 = c12.and(ctx, c3);
        let ghost w2 = *ctx;
        let c4 = self.bottom_to(ctx, that.top, zero);
        let r = c123.and(ctx, c4);
        proof {
            assert(w0.nodes@.is_prefix_of(ctx.nodes@)) by {
                assert(w0.nodes@ =~= ctx.nodes@.subrange(0, w0.nodes@.len() as int));
            }
            assert(w1.nodes@.is_prefix_of(ctx.nodes@)) by {
                assert(w1.nodes@ =~= ctx.nodes@.subrange(0, w1.nodes@.len() as int));
            }
            assert(w2.nodes@.is_prefix_of(ctx.nodes@)) by {
                assert(w2.nodes@ =~= ctx.nodes@.subrange(0, w2.nodes@.len() as int));
            }
            lemma_offset_eq_prefix(w1, *ctx, c1, self.right, that.right, zero, false);
            lemma_offset_eq_prefix(w1, *ctx, c2, self.left, that.left, zero, true);
            lemma_offset_eq_prefix(w2, *ctx, c3, self.bottom, that.bottom, zero, false);
            assert(ctx.nodes@[c12.idx as int] == w1.nodes@[c12.idx as int]);
            assert(ctx.nodes@[c123.idx as int] == w2.nodes@[c123.idx as int]);
            assert(within_shape(*ctx, r, *self, *that));
        }
        r
    }
}

} // verus!
