//! The widget contract: the capability interface every layout participant
//! implements.
//!
//! A widget exposes the measures it needs resolved and the constraints it
//! structurally requires, and is consumed once, at solve time, to receive the
//! resolved values and perform its terminal action.

use vstd::prelude::*;

verus! {

use crate::layout::context::LayoutContext;
use crate::layout::measure::Measure;
use crate::layout::prop::Prop;
use crate::layout::rational::Rational;

/// A widget's terminal action failed.
#[derive(Clone, Copy, Debug, PartialEq, Eq, Structural)]
pub enum PaintError {
    Failed,
}

/// The capability interface of a layout participant.
///
/// `measures` and `constraints` are consulted once, when the widget is
/// registered; `paint` consumes the widget at solve time with the resolved
/// values, in the order `measures` declared them.
pub trait RawWidget {
    /// The widget's handles all point into the given session arena.
    spec fn inv(&self, ctx: LayoutContext) -> bool;

    /// The ordered list of measures the widget wants resolved.  The order is
    /// the contract with `paint`.
    fn measures(&self, ctx: &LayoutContext) -> (r: Vec<Measure>)
        requires
            self.inv(*ctx),
            ctx.wf(),
        ensures
            forall|i: int| 0 <= i < r@.len() ==> (#[trigger] r@[i]).wf(*ctx),
    ;

    /// The constraints the widget structurally requires.  An empty list is
    /// valid: a pure display widget can rely solely on explicit constraints.
    fn constraints(&self, ctx: &mut LayoutContext) -> (r: Vec<Prop>)
        requires
            self.inv(*old(ctx)),
            old(ctx).wf(),
        ensures
            final(ctx).wf(),
            old(ctx).nodes@.is_prefix_of(final(ctx).nodes@),
            forall|i: int| 0 <= i < r@.len() ==> (#[trigger] r@[i]).wf(*final(ctx)),
    ;

    /// Consumes the widget with the resolved values, matching the order of
    /// `measures`, and performs the terminal action.  An implementation must
    /// answer a recoverable failure when the values do not fit its
    /// declaration or when the action itself fails.
    fn paint(self: Box<Self>, values: Vec<Rational>) -> Result<(), PaintError>;
}

} // verus!
