//! The arena that owns every expression node of one layout session.
//!
//! Nodes are immutable once created and are identified by their index in the
//! arena, so two structurally identical nodes built independently are distinct
//! identities.  Every node's children have strictly smaller indices, which
//! both rules out cycles and gives recursive traversals a termination measure.

use vstd::prelude::*;

verus! {

use crate::layout::measure::{Measure, MeasureVariant};
use crate::layout::prop::{Prop, PropVariant};

/// One arena entry: either a scalar measure node or a proposition node.
#[derive(Clone, Copy, Debug)]
pub enum Node {
    Measure(MeasureVariant),
    Prop(PropVariant),
}

/// The arena.  It owns every expression node allocated during one layout
/// session; nodes are never mutated or freed independently of the session.
///
/// The first sixteen slots are a pre-allocated pool of the integer constants
/// 0 through 15, so that small constants are reused by identity.
pub struct LayoutContext {
    pub nodes: Vec<Node>,
}

/// The number of pre-allocated small integer constants.
pub const SMALL_CONST_POOL: usize = 16;

/// A measure handle may stand in a node only if it points strictly below that
/// node and at a measure entry.
pub open spec fn measure_ref_ok(nodes: Seq<Node>, m: Measure, at: int) -> bool {
    m.idx < at && nodes[m.idx as int] is Measure
}

/// A proposition handle may stand in a node only if it points strictly below
/// that node and at a proposition entry.
pub open spec fn prop_ref_ok(nodes: Seq<Node>, p: Prop, at: int) -> bool {
    p.idx < at && nodes[p.idx as int] is Prop
}

/// Well-formedness of a measure node placed at index `at`: children point
/// strictly below it and at entries of the right kind, and constants carry a
/// positive denominator.
pub open spec fn measure_variant_wf(nodes: Seq<Node>, v: MeasureVariant, at: int) -> bool {
    match v {
        MeasureVariant::Unbound => true,
        MeasureVariant::Const(num, den) => den > 0,
        MeasureVariant::Add(a, b) => measure_ref_ok(nodes, a, at) && measure_ref_ok(nodes, b, at),
        MeasureVariant::Sub(a, b) => measure_ref_ok(nodes, a, at) && measure_ref_ok(nodes, b, at),
        MeasureVariant::Mul(a, b) => measure_ref_ok(nodes, a, at) && measure_ref_ok(nodes, b, at),
        MeasureVariant::Div(a, b) => measure_ref_ok(nodes, a, at) && measure_ref_ok(nodes, b, at),
        MeasureVariant::Select(c, a, b) => prop_ref_ok(nodes, c, at) && measure_ref_ok(
            nodes,
            a,
            at,
        ) && measure_ref_ok(nodes, b, at),
    }
}

/// Well-formedness of a proposition node placed at index `at`.
pub open spec fn prop_variant_wf(nodes: Seq<Node>, v: PropVariant, at: int) -> bool {
    match v {
        PropVariant::Eq(a, b) => measure_ref_ok(nodes, a, at) && measure_ref_ok(nodes, b, at),
        PropVariant::Lt(a, b) => measure_ref_ok(nodes, a, at) && measure_ref_ok(nodes, b, at),
        PropVariant::Le(a, b) => measure_ref_ok(nodes, a, at) && measure_ref_ok(nodes, b, at),
        PropVariant::Gt(a, b) => measure_ref_ok(nodes, a, at) && measure_ref_ok(nodes, b, at),
        PropVariant::Ge(a, b) => measure_ref_ok(nodes, a, at) && measure_ref_ok(nodes, b, at),
        PropVariant::Or(p, q) => prop_ref_ok(nodes, p, at) && prop_ref_ok(nodes, q, at),
        PropVariant::And(p, q) => prop_ref_ok(nodes, p, at) && prop_ref_ok(nodes, q, at),
        PropVariant::Not(p) => prop_ref_ok(nodes, p, at),
    }
}

/// Well-formedness of the node stored at index `i`.
pub open spec fn node_wf(nodes: Seq<Node>, i: int) -> bool {
    match nodes[i] {
        Node::Measure(v) => measure_variant_wf(nodes, v, i),
        Node::Prop(v) => prop_variant_wf(nodes, v, i),
    }
}

/// Every node of the arena is well formed.
pub open spec fn arena_wf(nodes: Seq<Node>) -> bool {
    forall|i: int| 0 <= i < nodes.len() ==> node_wf(nodes, i)
}

/// Being a prefix is transitive.
pub proof fn lemma_prefix_trans(a: Seq<Node>, b: Seq<Node>, c: Seq<Node>)
    requires
        a.is_prefix_of(b),
        b.is_prefix_of(c),
    ensures
        a.is_prefix_of(c),
{
    assert(a =~= b.subrange(0, a.len() as int));
    assert(b =~= c.subrange(0, b.len() as int));
    assert(a =~= c.subrange(0, a.len() as int));
}

/// A well-formed node stays well formed when the arena is extended: its
/// children lie strictly below it, and extension never changes existing
/// entries.
pub proof fn lemma_node_wf_prefix(n1: Seq<Node>, n2: Seq<Node>, i: int)
    requires
        n1.is_prefix_of(n2),
        0 <= i < n1.len(),
        node_wf(n1, i),
    ensures
        node_wf(n2, i),
{
    assert(n2[i] == n1[i]);
    assert(forall|j: int| 0 <= j < n1.len() ==> n2[j] == n1[j]);
}

/// Appending one well-formed node preserves arena well-formedness.
pub proof fn lemma_arena_wf_push(nodes: Seq<Node>, x: Node)
    requires
        arena_wf(nodes),
        node_wf(nodes.push(x), nodes.len() as int),
    ensures
        arena_wf(nodes.push(x)),
{
    let ext = nodes.push(x);
    assert forall|i: int| 0 <= i < ext.len() implies node_wf(ext, i) by {
        if i < nodes.len() {
            assert(nodes.is_prefix_of(ext));
            lemma_node_wf_prefix(nodes, ext, i);
        }
    }
}

impl LayoutContext {
    /// The session invariant: the arena is well formed and begins with the
    /// pool of small integer constants.
    pub open spec fn wf(self) -> bool {
        &&& arena_wf(self.nodes@)
        &&& self.nodes@.len() >= SMALL_CONST_POOL
        &&& forall|k: int|
            0 <= k < SMALL_CONST_POOL ==> self.nodes@[k] == Node::Measure(
                MeasureVariant::Const(k as i64, 1),
            )
    }

    /// Creates a fresh session arena holding only the small constant pool.
    pub fn new() -> (r: LayoutContext)
        ensures
            r.wf(),
            r.nodes@.len() == SMALL_CONST_POOL,
    {
        let mut nodes: Vec<Node> = Vec::new();
        let mut k: usize = 0;
        while k < SMALL_CONST_POOL
            invariant
                k <= SMALL_CONST_POOL,
                nodes@.len() == k,
                forall|j: int|
                    0 <= j < k ==> nodes@[j] == Node::Measure(MeasureVariant::Const(j as i64, 1)),
            decreases SMALL_CONST_POOL - k,
        {
            nodes.push(Node::Measure(MeasureVariant::Const(k as i64, 1)));
            k = k + 1;
        }
        let ctx = LayoutContext { nodes };
        assert forall|i: int| 0 <= i < ctx.nodes@.len() implies node_wf(ctx.nodes@, i) by {
            assert(ctx.nodes@[i] == Node::Measure(MeasureVariant::Const(i as i64, 1)));
        }
        ctx
    }

    /// Appends a measure node and hands back its handle.
    pub(crate) fn alloc_measure(&mut self, v: MeasureVariant) -> (r: Measure)
        requires
            old(self).wf(),
            measure_variant_wf(old(self).nodes@, v, old(self).nodes@.len() as int),
        ensures
            final(self).wf(),
            final(self).nodes@ == old(self).nodes@.push(Node::Measure(v)),
            r.idx == old(self).nodes@.len(),
    {
        let idx = self.nodes.len();
        proof {
            assert(old(self).nodes@.is_prefix_of(old(self).nodes@.push(Node::Measure(v))));
            lemma_arena_wf_push(old(self).nodes@, Node::Measure(v));
        }
        self.nodes.push(Node::Measure(v));
        Measure { idx }
    }

    /// Appends a proposition node and hands back its handle, with the
    /// requested solver weight.
    pub(crate) fn alloc_prop(&mut self, v: PropVariant, weight: u32) -> (r: Prop)
        requires
            old(self).wf(),
            prop_variant_wf(old(self).nodes@, v, old(self).nodes@.len() as int),
        ensures
            final(self).wf(),
            final(self).nodes@ == old(self).nodes@.push(Node::Prop(v)),
            r.idx == old(self).nodes@.len(),
            r.weight == weight,
    {
        let idx = self.nodes.len();
        proof {
            assert(old(self).nodes@.is_prefix_of(old(self).nodes@.push(Node::Prop(v))));
            lemma_arena_wf_push(old(self).nodes@, Node::Prop(v));
        }
        self.nodes.push(Node::Prop(v));
        Prop { idx, weight }
    }
}

/// How many cache slots are filled.
pub open spec fn filled<T>(cache: Seq<Option<T>>) -> nat
    decreases cache.len(),
{
    if cache.len() == 0 {
        0
    } else {
        filled(cache.drop_last()) + if cache.last() is Some {
            1nat
        } else {
            0nat
        }
    }
}

/// Appending a slot adds its own contribution to the filled count.
pub proof fn lemma_filled_push<T>(cache: Seq<Option<T>>, x: Option<T>)
    ensures
        filled(cache.push(x)) == filled(cache) + if x is Some {
            1nat
        } else {
            0nat
        },
{
    assert(cache.push(x).drop_last() =~= cache);
}

/// Filling an empty slot raises the filled count by exactly one.
pub proof fn lemma_filled_fill<T>(cache: Seq<Option<T>>, i: int, v: T)
    requires
        0 <= i < cache.len(),
        cache[i] is None,
    ensures
        filled(cache.update(i, Some(v))) == filled(cache) + 1,
    decreases cache.len(),
{
    let upd = cache.update(i, Some(v));
    if i == cache.len() - 1 {
        assert(upd.drop_last() =~= cache.drop_last());
        assert(upd.last() == Some(v));
        assert(cache.last() is None);
    } else {
        assert(upd.drop_last() =~= cache.drop_last().update(i, Some(v)));
        lemma_filled_fill(cache.drop_last(), i, v);
        assert(upd.last() == cache.last());
    }
}

/// No more slots are filled than exist.
pub proof fn lemma_filled_le_len<T>(cache: Seq<Option<T>>)
    ensures
        filled(cache) <= cache.len(),
    decreases cache.len(),
{
    if cache.len() > 0 {
        lemma_filled_le_len(cache.drop_last());
    }
}

/// The per-build translation state: one solver expression per distinct node,
/// memoized by arena index, plus the count of solver expressions created so
/// far.  The invariant ties the count to the number of filled cache slots, so
/// a cache hit is observably free.
pub struct Z3BuildContext {
    pub measure_cache: Vec<Option<z3::ast::Real>>,
    pub prop_cache: Vec<Option<z3::ast::Bool>>,
    pub expr_count: u128,
}

impl Z3BuildContext {
    /// The caches cover the arena slot for slot, and the expression count is
    /// exactly the number of filled slots.
    pub open spec fn wf(self, ctx: LayoutContext) -> bool {
        &&& self.measure_cache@.len() == ctx.nodes@.len()
        &&& self.prop_cache@.len() == ctx.nodes@.len()
        &&& self.expr_count == filled(self.measure_cache@) + filled(self.prop_cache@)
    }

    /// A fresh, empty translation state for the given arena.
    pub fn new(ctx: &LayoutContext) -> (r: Z3BuildContext)
        ensures
            r.wf(*ctx),
            r.expr_count == 0,
            forall|j: int| 0 <= j < r.measure_cache@.len() ==> r.measure_cache@[j] is None,
            forall|j: int| 0 <= j < r.prop_cache@.len() ==> r.prop_cache@[j] is None,
    {
        let n = ctx.nodes.len();
        let mut measure_cache: Vec<Option<z3::ast::Real>> = Vec::new();
        let mut i: usize = 0;
        while i < n
            invariant
                i <= n,
                measure_cache@.len() == i,
                filled(measure_cache@) == 0,
                forall|j: int| 0 <= j < i ==> measure_cache@[j] is None,
            decreases n - i,
        {
            proof {
                lemma_filled_push(measure_cache@, Option::<z3::ast::Real>::None);
            }
            measure_cache.push(None);
            i = i + 1;
        }
        let mut prop_cache: Vec<Option<z3::ast::Bool>> = Vec::new();
        let mut k: usize = 0;
        while k < n
            invariant
                k <= n,
                prop_cache@.len() == k,
                filled(prop_cache@) == 0,
                forall|j: int| 0 <= j < k ==> prop_cache@[j] is None,
            decreases n - k,
        {
            proof {
                lemma_filled_push(prop_cache@, Option::<z3::ast::Bool>::None);
            }
            prop_cache.push(None);
            k = k + 1;
        }
        Z3BuildContext { measure_cache, prop_cache, expr_count: 0 }
    }
}

} // verus!
