//! The layout builder and solve driver.
//!
//! Widgets and free-standing constraints accumulate in the builder; `build`
//! consumes it, asserts every constraint softly against a fresh solver
//! session, and on success dispatches resolved values to the widgets and
//! reports which constraints held.  The report partitions exactly the
//! submitted constraint set, in submission order within each part.

use vstd::prelude::*;

verus! {

use crate::layout::context::{LayoutContext, Z3BuildContext};
use crate::layout::measure::Measure;
use crate::layout::prop::Prop;
use crate::layout::rational::Rational;
use crate::layout::solver::{
    SatOutcome,
    model_bool_of,
    model_rational_of,
    optimize_assert_soft,
    optimize_check,
    optimize_model_after_sat,
    optimize_new,
};
use crate::layout::widget::{PaintError, RawWidget};

/// Collects widgets and constraints, then drives one solve.
///
/// A registered widget's declared measures and constraints are recorded at
/// registration time, position for position beside the type-erased widget
/// itself, which is held until solve time only to receive its resolved
/// values.
pub struct LayoutBuilder {
    widgets: Vec<Box<dyn RawWidget>>,
    widget_measures: Vec<Vec<Measure>>,
    widget_constraints: Vec<Vec<Prop>>,
    constraints: Vec<Prop>,
}

/// The outcome of a successful solve: the submitted constraints, partitioned
/// by whether the solver's optimum satisfies them, in submission order
/// within each part.
#[derive(Debug)]
pub struct BuildReport {
    pub satisfied_constraints: Vec<Prop>,
    pub unsatisfied_constraints: Vec<Prop>,
}

/// The solver could not hand back an optimum for the constraint set.
#[derive(Clone, Copy, Debug, PartialEq, Eq, Structural)]
pub enum LayoutUnsatError {
    Unsat,
    Unknown,
}

/// Why a build failed: the solver found no optimum, or a widget's terminal
/// action failed after a successful solve.
#[derive(Clone, Copy, Debug, PartialEq, Eq, Structural)]
pub enum BuildError {
    Layout(LayoutUnsatError),
    Paint(PaintError),
}

/// `xs` and `ys` partition `all`: every element of `all` lands in exactly
/// one of the two, and both keep the order `all` had.
pub open spec fn merged_in_order(xs: Seq<Prop>, ys: Seq<Prop>, all: Seq<Prop>) -> bool
    decreases all.len(),
{
    if all.len() == 0 {
        xs.len() == 0 && ys.len() == 0
    } else {
        (xs.len() > 0 && xs.last() == all.last() && merged_in_order(
            xs.drop_last(),
            ys,
            all.drop_last(),
        )) || (ys.len() > 0 && ys.last() == all.last() && merged_in_order(
            xs,
            ys.drop_last(),
            all.drop_last(),
        ))
    }
}

/// Routing one more element to either part keeps the partition property.
proof fn lemma_merged_push(xs: Seq<Prop>, ys: Seq<Prop>, all: Seq<Prop>, c: Prop, to_first: bool)
    requires
        merged_in_order(xs, ys, all),
    ensures
        to_first ==> merged_in_order(xs.push(c), ys, all.push(c)),
        !to_first ==> merged_in_order(xs, ys.push(c), all.push(c)),
{
    let all2 = all.push(c);
    assert(all2.drop_last() =~= all);
    if to_first {
        let xs2 = xs.push(c);
        assert(xs2.drop_last() =~= xs);
    } else {
        let ys2 = ys.push(c);
        assert(ys2.drop_last() =~= ys);
    }
}

/// The constraint lists of the registered widgets, one sequence per widget.
spec fn widget_cs(ss: Seq<Vec<Prop>>) -> Seq<Seq<Prop>> {
    ss.map_values(|v: Vec<Prop>| v@)
}

/// The measure lists of the registered widgets, one sequence per widget.
spec fn widget_ms(ss: Seq<Vec<Measure>>) -> Seq<Seq<Measure>> {
    ss.map_values(|v: Vec<Measure>| v@)
}

/// Every measure handle of the sequence points into the arena.
pub open spec fn measures_wf(ms: Seq<Measure>, ctx: LayoutContext) -> bool {
    forall|i: int| 0 <= i < ms.len() ==> (#[trigger] ms[i]).wf(ctx)
}

/// Every proposition handle of the sequence points into the arena.
pub open spec fn props_wf(ps: Seq<Prop>, ctx: LayoutContext) -> bool {
    forall|i: int| 0 <= i < ps.len() ==> (#[trigger] ps[i]).wf(ctx)
}

/// Handle well-formedness survives extending the arena.
proof fn lemma_handles_wf_prefix(
    ms: Seq<Measure>,
    ps: Seq<Prop>,
    ctx1: LayoutContext,
    ctx2: LayoutContext,
)
    requires
        measures_wf(ms, ctx1),
        props_wf(ps, ctx1),
        ctx1.nodes@.is_prefix_of(ctx2.nodes@),
    ensures
        measures_wf(ms, ctx2),
        props_wf(ps, ctx2),
{
    assert(ctx1.nodes@ =~= ctx2.nodes@.subrange(0, ctx1.nodes@.len() as int));
    assert forall|i: int| 0 <= i < ms.len() implies (#[trigger] ms[i]).wf(ctx2) by {
        assert(ctx2.nodes@[ms[i].idx as int] == ctx1.nodes@[ms[i].idx as int]);
    }
    assert forall|i: int| 0 <= i < ps.len() implies (#[trigger] ps[i]).wf(ctx2) by {
        assert(ctx2.nodes@[ps[i].idx as int] == ctx1.nodes@[ps[i].idx as int]);
    }
}

/// The elements of `all` whose verdict equals `keep`, in their original
/// order.  `verdicts` is read position for position beside `all`.
pub open spec fn filtered(all: Seq<Prop>, verdicts: Seq<bool>, keep: bool) -> Seq<Prop>
    decreases all.len(),
{
    if all.len() == 0 {
        Seq::empty()
    } else if verdicts[all.len() - 1] == keep {
        filtered(all.drop_last(), verdicts.drop_last(), keep).push(all.last())
    } else {
        filtered(all.drop_last(), verdicts.drop_last(), keep)
    }
}

/// Appending one verdict routes exactly the matching element.
proof fn lemma_filtered_push(all: Seq<Prop>, verdicts: Seq<bool>, c: Prop, v: bool, keep: bool)
    requires
        verdicts.len() == all.len(),
    ensures
        v == keep ==> filtered(all.push(c), verdicts.push(v), keep) == filtered(
            all,
            verdicts,
            keep,
        ).push(c),
        v != keep ==> filtered(all.push(c), verdicts.push(v), keep) == filtered(
            all,
            verdicts,
            keep,
        ),
{
    assert(all.push(c).drop_last() =~= all);
    assert(verdicts.push(v).drop_last() =~= verdicts);
}

/// One optimizing solver session, with a ghost log of exactly which boolean
/// expressions were softly asserted, in order, and at which weight.
struct SoftSession {
    opt: z3::Optimize,
    log: Ghost<Seq<(z3::ast::Bool, u32)>>,
}

impl SoftSession {
    /// A fresh session with nothing asserted.
    fn new() -> (r: SoftSession)
        ensures
            r.log@.len() == 0,
    {
        SoftSession { opt: optimize_new(), log: Ghost(Seq::empty()) }
    }

    /// Asserts the expression softly at the given weight, and logs exactly
    /// that pair.
    fn assert_soft(&mut self, cond: &z3::ast::Bool, weight: u32)
        ensures
            final(self).log@ == old(self).log@.push((*cond, weight)),
    {
        optimize_assert_soft(&self.opt, cond, weight);
        self.log = Ghost(self.log@.push((*cond, weight)));
    }

    /// Asks the solver for an optimum over the asserted soft constraints.
    fn check(&self) -> SatOutcome {
        optimize_check(&self.opt)
    }

    /// The model of the optimum, after a `Sat` answer.
    fn model_after_sat(&self) -> z3::Model {
        optimize_model_after_sat(&self.opt)
    }
}

/// Translates every constraint and asserts it softly: afterwards the
/// session's log holds, per submitted constraint and in submission order,
/// exactly that constraint's cached translation and its carried weight.
fn assert_constraints(
    ctx: &LayoutContext,
    bc: &mut Z3BuildContext,
    session: &mut SoftSession,
    all: &Vec<Prop>,
)
    requires
        ctx.wf(),
        old(bc).wf(*ctx),
        props_wf(all@, *ctx),
        old(session).log@.len() == 0,
    ensures
        final(bc).wf(*ctx),
        final(session).log@.len() == all@.len(),
        forall|j: int|
            0 <= j < all@.len() ==> (#[trigger] final(session).log@[j]).1 == all@[j].weight,
        forall|j: int|
            0 <= j < all@.len() ==> final(bc).prop_cache@[all@[j].idx as int] == Some(
                (#[trigger] final(session).log@[j]).0,
            ),
{
    let mut t: usize = 0;
    while t < all.len()
        invariant
            ctx.wf(),
            bc.wf(*ctx),
            props_wf(all@, *ctx),
            t <= all@.len(),
            session.log@.len() == t,
            forall|j: int| 0 <= j < t ==> (#[trigger] session.log@[j]).1 == all@[j].weight,
            forall|j: int|
                0 <= j < t ==> bc.prop_cache@[all@[j].idx as int] == Some(
                    (#[trigger] session.log@[j]).0,
                ),
        decreases all@.len() - t,
    {
        let c = all[t];
        let b = c.build_z3(ctx, bc);
        session.assert_soft(&b, c.weight);
        t = t + 1;
    }
}

/// Splits the constraints along their verdicts: the satisfied list holds,
/// in submission order, exactly the constraints marked true, and the
/// unsatisfied list exactly the others.
fn partition_report(all: &Vec<Prop>, verdicts: &Vec<bool>) -> (r: BuildReport)
    requires
        verdicts@.len() == all@.len(),
    ensures
        r.satisfied_constraints@ == filtered(all@, verdicts@, true),
        r.unsatisfied_constraints@ == filtered(all@, verdicts@, false),
        merged_in_order(r.satisfied_constraints@, r.unsatisfied_constraints@, all@),
{
    let mut satisfied_constraints: Vec<Prop> = Vec::new();
    let mut unsatisfied_constraints: Vec<Prop> = Vec::new();
    let mut k: usize = 0;
    while k < all.len()
        invariant
            verdicts@.len() == all@.len(),
            k <= all@.len(),
            satisfied_constraints@ == filtered(all@.take(k as int), verdicts@.take(k as int), true),
            unsatisfied_constraints@ == filtered(
                all@.take(k as int),
                verdicts@.take(k as int),
                false,
            ),
            merged_in_order(satisfied_constraints@, unsatisfied_constraints@, all@.take(k as int)),
        decreases all@.len() - k,
    {
        let c = all[k];
        let v = verdicts[k];
        proof {
            lemma_filtered_push(
                all@.take(k as int),
                verdicts@.take(k as int),
                all@[k as int],
                verdicts@[k as int],
                true,
            );
            lemma_filtered_push(
                all@.take(k as int),
                verdicts@.take(k as int),
                all@[k as int],
                verdicts@[k as int],
                false,
            );
            lemma_merged_push(
                satisfied_constraints@,
                unsatisfied_constraints@,
                all@.take(k as int),
                all@[k as int],
                verdicts@[k as int],
            );
            assert(all@.take(k + 1) =~= all@.take(k as int).push(all@[k as int]));
            assert(verdicts@.take(k + 1) =~= verdicts@.take(k as int).push(verdicts@[k as int]));
        }
        if v {
            satisfied_constraints.push(c);
        } else {
            unsatisfied_constraints.push(c);
        }
        k = k + 1;
    }
    proof {
        assert(all@.take(all@.len() as int) =~= all@);
        assert(verdicts@.take(verdicts@.len() as int) =~= verdicts@);
    }
    BuildReport { satisfied_constraints, unsatisfied_constraints }
}

impl LayoutBuilder {
    /// Every recorded handle points into the given arena.
    pub closed spec fn wf(self, ctx: LayoutContext) -> bool {
        &&& forall|k: int|
            0 <= k < self.widget_measures@.len() ==> measures_wf(
                (#[trigger] self.widget_measures@[k])@,
                ctx,
            )
        &&& forall|k: int|
            0 <= k < self.widget_constraints@.len() ==> props_wf(
                (#[trigger] self.widget_constraints@[k])@,
                ctx,
            )
        &&& props_wf(self.constraints@, ctx)
    }

    /// The constraint lists the registered widgets declared, in
    /// registration order.
    pub closed spec fn widget_constraint_seqs(self) -> Seq<Seq<Prop>> {
        widget_cs(self.widget_constraints@)
    }

    /// The measure lists the registered widgets declared, in registration
    /// order.
    pub closed spec fn widget_measure_seqs(self) -> Seq<Seq<Measure>> {
        widget_ms(self.widget_measures@)
    }

    /// The free-standing constraints, in submission order.
    pub closed spec fn free_constraints(self) -> Seq<Prop> {
        self.constraints@
    }

    /// The full constraint set a build will submit: every widget's declared
    /// constraints, in registration order, followed by the free-standing
    /// constraints, in submission order.
    pub open spec fn all_constraints(self) -> Seq<Prop> {
        self.widget_constraint_seqs().flatten() + self.free_constraints()
    }

    /// A fresh builder with nothing registered.
    pub fn new() -> (r: LayoutBuilder)
        ensures
            r.widget_constraint_seqs() == Seq::<Seq<Prop>>::empty(),
            r.widget_measure_seqs() == Seq::<Seq<Measure>>::empty(),
            r.free_constraints() == Seq::<Prop>::empty(),
            r.all_constraints() == Seq::<Prop>::empty(),
            forall|ctx: LayoutContext| r.wf(ctx),
    {
        let r = LayoutBuilder {
            widgets: Vec::new(),
            widget_measures: Vec::new(),
            widget_constraints: Vec::new(),
            constraints: Vec::new(),
        };
        proof {
            assert(widget_cs(r.widget_constraints@) =~= Seq::<Seq<Prop>>::empty());
            assert(widget_ms(r.widget_measures@) =~= Seq::<Seq<Measure>>::empty());
            assert(r.all_constraints() =~= Seq::<Prop>::empty());
        }
        r
    }

    /// Registers a widget: records the measures and constraints it declares,
    /// and takes ownership until solve time.
    pub fn push_widget<W: RawWidget + 'static>(&mut self, ctx: &mut LayoutContext, widget: W)
        requires
            old(self).wf(*old(ctx)),
            widget.inv(*old(ctx)),
            old(ctx).wf(),
        ensures
            final(ctx).wf(),
            old(ctx).nodes@.is_prefix_of(final(ctx).nodes@),
            final(self).wf(*final(ctx)),
            final(self).free_constraints() == old(self).free_constraints(),
            exists|cs: Seq<Prop>|
                final(self).widget_constraint_seqs() == #[trigger] old(
                    self,
                ).widget_constraint_seqs().push(cs) && props_wf(cs, *final(ctx)),
            exists|ms: Seq<Measure>|
                final(self).widget_measure_seqs() == #[trigger] old(
                    self,
                ).widget_measure_seqs().push(ms) && measures_wf(ms, *final(ctx)),
    {
        let measures = widget.measures(ctx);
        let ghost mid = *ctx;
        let constraints = widget.constraints(ctx);
        proof {
            assert(mid.nodes@ =~= ctx.nodes@.subrange(0, mid.nodes@.len() as int));
            assert forall|i: int| 0 <= i < measures@.len() implies (#[trigger] measures@[i]).wf(
                *ctx,
            ) by {
                assert(measures@[i].wf(mid));
                assert(ctx.nodes@[measures@[i].idx as int] == mid.nodes@[measures@[i].idx as int]);
            }
            assert forall|k: int|
                0 <= k < self.widget_measures@.len() implies measures_wf(
                (#[trigger] self.widget_measures@[k])@,
                *ctx,
            ) by {
                lemma_handles_wf_prefix(
                    self.widget_measures@[k]@,
                    Seq::<Prop>::empty(),
                    *old(ctx),
                    *ctx,
                );
            }
            assert forall|k: int|
                0 <= k < self.widget_constraints@.len() implies props_wf(
                (#[trigger] self.widget_constraints@[k])@,
                *ctx,
            ) by {
                lemma_handles_wf_prefix(
                    Seq::<Measure>::empty(),
                    self.widget_constraints@[k]@,
                    *old(ctx),
                    *ctx,
                );
            }
            lemma_handles_wf_prefix(Seq::<Measure>::empty(), self.constraints@, *old(ctx), *ctx);
        }
        let ghost pre_ms = self.widget_measures@;
        let ghost pre_cs = self.widget_constraints@;
        self.widgets.push(Box::new(widget));
        self.widget_measures.push(measures);
        self.widget_constraints.push(constraints);
        proof {
            assert(widget_ms(self.widget_measures@) =~= widget_ms(pre_ms).push(
                self.widget_measures@.last()@,
            ));
            assert(widget_cs(self.widget_constraints@) =~= widget_cs(pre_cs).push(
                self.widget_constraints@.last()@,
            ));
            assert(self.widget_constraint_seqs() == old(self).widget_constraint_seqs().push(
                self.widget_constraints@.last()@,
            ));
            assert(self.widget_measure_seqs() == old(self).widget_measure_seqs().push(
                self.widget_measures@.last()@,
            ));
            assert(props_wf(self.widget_constraints@.last()@, *ctx));
            assert(measures_wf(self.widget_measures@.last()@, *ctx));
        }
    }

    /// Registers a free-standing constraint.
    pub fn push_constraint(&mut self, ctx: &LayoutContext, prop: Prop)
        requires
            old(self).wf(*ctx),
            prop.wf(*ctx),
        ensures
            final(self).wf(*ctx),
            final(self).widget_constraint_seqs() == old(self).widget_constraint_seqs(),
            final(self).widget_measure_seqs() == old(self).widget_measure_seqs(),
            final(self).free_constraints() == old(self).free_constraints().push(prop),
            final(self).all_constraints() == old(self).all_constraints().push(prop),
    {
        self.constraints.push(prop);
        proof {
            assert(self.all_constraints() =~= old(self).all_constraints().push(prop));
        }
    }

    /// Solves the collected constraint set.
    ///
    /// Every constraint — widget-declared first, then free-standing, each in
    /// its own submission order — is asserted softly with its weight against
    /// one fresh solver session.  On a satisfiable outcome every widget is
    /// consumed in registration order with its resolved values, and the
    /// report partitions exactly the submitted constraints into satisfied
    /// and unsatisfied, keeping submission order within each part.  A solver
    /// answer of unsatisfiable or unknown, or a widget whose terminal action
    /// fails, aborts the build with the matching error; widgets painted
    /// before such a failure stay painted.
    pub fn build(self, ctx: &LayoutContext) -> (r: Result<BuildReport, BuildError>)
        requires
            ctx.wf(),
            self.wf(*ctx),
        ensures
            r matches Ok(rep) ==> merged_in_order(
                rep.satisfied_constraints@,
                rep.unsatisfied_constraints@,
                self.all_constraints(),
            ),
            r matches Ok(rep) ==> exists|verdicts: Seq<bool>|
                {
                    &&& verdicts.len() == self.all_constraints().len()
                    &&& rep.satisfied_constraints@ == #[trigger] filtered(
                        self.all_constraints(),
                        verdicts,
                        true,
                    )
                    &&& rep.unsatisfied_constraints@ == filtered(
                        self.all_constraints(),
                        verdicts,
                        false,
                    )
                },
    {
        let ghost goal = self.all_constraints();
        let LayoutBuilder { mut widgets, widget_measures, widget_constraints, constraints } = self;

        // Gather the constraint set in submission order.
        let mut all: Vec<Prop> = Vec::new();
        let mut i: usize = 0;
        while i < widget_constraints.len()
            invariant
                i <= widget_constraints@.len(),
                all@ == widget_cs(widget_constraints@.take(i as int)).flatten(),
                forall|k: int|
                    0 <= k < widget_constraints@.len() ==> props_wf(
                        (#[trigger] widget_constraints@[k])@,
                        *ctx,
                    ),
                props_wf(all@, *ctx),
            decreases widget_constraints@.len() - i,
        {
            let ghost before = all@;
            let mut j: usize = 0;
            while j < widget_constraints[i].len()
                invariant
                    i < widget_constraints@.len(),
                    j <= widget_constraints@[i as int]@.len(),
                    all@ == before + widget_constraints@[i as int]@.take(j as int),
                    forall|k: int|
                        0 <= k < widget_constraints@.len() ==> props_wf(
                            (#[trigger] widget_constraints@[k])@,
                            *ctx,
                        ),
                    props_wf(before, *ctx),
                    props_wf(all@, *ctx),
                decreases widget_constraints@[i as int]@.len() - j,
            {
                all.push(widget_constraints[i][j]);
                proof {
                    assert(widget_constraints@[i as int]@.take(j + 1) =~= widget_constraints@[
                        i as int
                    ]@.take(j as int).push(widget_constraints@[i as int]@[j as int]));
                    assert(all@ =~= before + widget_constraints@[i as int]@.take(j + 1));
                }
                j = j + 1;
            }
            proof {
                assert(widget_constraints@[i as int]@.take(j as int) =~= widget_constraints@[
                    i as int
                ]@);
                assert(widget_cs(widget_constraints@.take(i + 1)) =~= widget_cs(
                    widget_constraints@.take(i as int),
                ).push(widget_constraints@[i as int]@));
                widget_cs(widget_constraints@.take(i as int)).lemma_flatten_push(
                    widget_constraints@[i as int]@,
                );
                assert(all@ =~= widget_cs(widget_constraints@.take(i + 1)).flatten());
            }
            i = i + 1;
        }
        proof {
            assert(widget_constraints@.take(widget_constraints@.len() as int)
                =~= widget_constraints@);
            assert(all@ =~= widget_cs(widget_constraints@).flatten() + constraints@.take(0));
        }
        let mut ci: usize = 0;
        while ci < constraints.len()
            invariant
                ci <= constraints@.len(),
                all@ == widget_cs(widget_constraints@).flatten() + constraints@.take(ci as int),
                props_wf(constraints@, *ctx),
                props_wf(all@, *ctx),
            decreases constraints@.len() - ci,
        {
            all.push(constraints[ci]);
            proof {
                assert(constraints@.take(ci + 1) =~= constraints@.take(ci as int).push(
                    constraints@[ci as int],
                ));
                assert(all@ =~= widget_cs(widget_constraints@).flatten() + constraints@.take(ci
                    + 1));
            }
            ci = ci + 1;
        }
        proof {
            assert(constraints@.take(constraints@.len() as int) =~= constraints@);
            assert(all@ =~= goal);
        }

        // One fresh solver session and one fresh translation state; assert
        // every constraint softly with its carried weight.  The session's
        // contract fixes what is handed over: one soft assertion per
        // submitted constraint, in order, each with its cached translation
        // and its carried weight.
        let mut session = SoftSession::new();
        let mut bc = Z3BuildContext::new(ctx);
        assert_constraints(ctx, &mut bc, &mut session, &all);

        match session.check() {
            SatOutcome::Unsat => {
                return Err(BuildError::Layout(LayoutUnsatError::Unsat));
            },
            SatOutcome::Unknown => {
                return Err(BuildError::Layout(LayoutUnsatError::Unknown));
            },
            SatOutcome::Sat => {},
        }
        let model = session.model_after_sat();

        // Dispatch resolved values to every widget, in registration order.
        let mut wi: usize = 0;
        while wi < widget_measures.len()
            invariant
                bc.wf(*ctx),
                ctx.wf(),
                wi <= widget_measures@.len(),
                forall|k: int|
                    0 <= k < widget_measures@.len() ==> measures_wf(
                        (#[trigger] widget_measures@[k])@,
                        *ctx,
                    ),
            decreases widget_measures@.len() - wi,
        {
            let mut values: Vec<Rational> = Vec::new();
            let mut mi: usize = 0;
            while mi < widget_measures[wi].len()
                invariant
                    bc.wf(*ctx),
                    ctx.wf(),
                    wi < widget_measures@.len(),
                    measures_wf(widget_measures@[wi as int]@, *ctx),
                decreases widget_measures@[wi as int]@.len() - mi,
            {
                let m = widget_measures[wi][mi];
                let rm = m.build_z3(ctx, &mut bc);
                let (num, den) = model_rational_of(&model, &rm);
                values.push(Rational { num, den });
                mi = mi + 1;
            }
            if widgets.len() > 0 {
                let w = widgets.remove(0);
                match w.paint(values) {
                    Ok(()) => {},
                    Err(e) => {
                        return Err(BuildError::Paint(e));
                    },
                }
            }
            wi = wi + 1;
        }

        // Re-evaluate every constraint under the model, collecting one
        // verdict per constraint, then partition the set by those verdicts.
        let mut verdicts: Vec<bool> = Vec::new();
        let mut k: usize = 0;
        while k < all.len()
            invariant
                bc.wf(*ctx),
                ctx.wf(),
                k <= all@.len(),
                props_wf(all@, *ctx),
                verdicts@.len() == k,
            decreases all@.len() - k,
        {
            let c = all[k];
            let b = c.build_z3(ctx, &mut bc);
            let holds = model_bool_of(&model, &b);
            verdicts.push(holds);
            k = k + 1;
        }
        let report = partition_report(&all, &verdicts);
        proof {
            assert(report.satisfied_constraints@ == filtered(goal, verdicts@, true));
            assert(report.unsatisfied_constraints@ == filtered(goal, verdicts@, false));
        }
        Ok(report)
    }
}

} // verus!
