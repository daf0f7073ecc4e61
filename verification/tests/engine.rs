use measure_layout::layout::builder::{BuildError, LayoutBuilder};
use measure_layout::layout::context::{LayoutContext, Z3BuildContext};
use measure_layout::layout::measure::{Measure, MeasureError};
use measure_layout::layout::rational::Rational;
use measure_layout::layout::widget::PaintError;
use measure_layout::widgets::rectangle::{
    Rectangle, RectangleError, RectangleMeasures, RectangleMetrics, RectanglePainter,
};
use std::cell::RefCell;
use std::rc::Rc;

struct RecordPainter {
    out: Rc<RefCell<Option<RectangleMetrics>>>,
}

impl RectanglePainter for RecordPainter {
    fn paint_rect(self, metrics: RectangleMetrics) -> Result<(), PaintError> {
        *self.out.borrow_mut() = Some(metrics);
        Ok(())
    }
}

struct OkPainter;

impl RectanglePainter for OkPainter {
    fn paint_rect(self, _metrics: RectangleMetrics) -> Result<(), PaintError> {
        Ok(())
    }
}

struct FailPainter;

impl RectanglePainter for FailPainter {
    fn paint_rect(self, _metrics: RectangleMetrics) -> Result<(), PaintError> {
        Err(PaintError::Failed)
    }
}

fn whole(n: i64) -> Rational {
    Rational { num: n, den: 1 }
}

/// Solves a rectangle with fixed width and height and hands back its
/// recorded metrics.
fn solve_recorded(rect_width: Rational, rect_height: Rational) -> RectangleMetrics {
    let mut ctx = LayoutContext::new();
    let mut builder = LayoutBuilder::new();
    let out = Rc::new(RefCell::new(None));
    let rect = Rectangle::with_width_and_height(
        &mut ctx,
        rect_width,
        rect_height,
        RecordPainter { out: Rc::clone(&out) },
    );
    builder.push_widget(&mut ctx, rect);
    let report = builder.build(&ctx).unwrap();
    assert!(report.unsatisfied_constraints.is_empty());
    let metrics = out.borrow().unwrap();
    metrics
}

#[test]
fn test_fixed_size_resolves_exactly() {
    let metrics = solve_recorded(whole(5), whole(10));
    let left = metrics.left.num as f64 / metrics.left.den as f64;
    let right = metrics.right.num as f64 / metrics.right.den as f64;
    let top = metrics.top.num as f64 / metrics.top.den as f64;
    let bottom = metrics.bottom.num as f64 / metrics.bottom.den as f64;
    assert_eq!(right - left, 5.0);
    assert_eq!(bottom - top, 10.0);
    assert!(left >= 0.0 && top >= 0.0);
}

#[test]
fn test_const_eighth_roundtrips_exactly() {
    let metrics = solve_recorded(Rational { num: 1, den: 8 }, whole(1));
    assert_eq!(metrics.width, Rational { num: 1, den: 8 });
}

#[test]
fn test_const_two_decimals_roundtrips_reduced() {
    // 0.12 enters as 12/100 and comes back from the solver in least terms.
    let metrics = solve_recorded(Rational { num: 12, den: 100 }, whole(1));
    assert_eq!(metrics.width, Rational { num: 3, den: 25 });
}

#[test]
fn test_min_max_of_constants() {
    let mut ctx = LayoutContext::new();
    let mut builder = LayoutBuilder::new();
    let a = Measure::new_const(&mut ctx, 3, 1).unwrap();
    let b = Measure::new_const(&mut ctx, 7, 1).unwrap();
    let mn = a.min(&mut ctx, b);
    let mx = a.max(&mut ctx, b);
    let out = Rc::new(RefCell::new(None));
    let rect = Rectangle::unbound(&mut ctx, RecordPainter { out: Rc::clone(&out) });
    let c = rect.width.prop_eq(&mut ctx, mn);
    builder.push_constraint(&ctx, c);
    let c = rect.height.prop_eq(&mut ctx, mx);
    builder.push_constraint(&ctx, c);
    builder.push_widget(&mut ctx, rect);
    let report = builder.build(&ctx).unwrap();
    assert!(report.unsatisfied_constraints.is_empty());
    let metrics = out.borrow().unwrap();
    assert_eq!(metrics.width, Rational { num: 3, den: 1 });
    assert_eq!(metrics.height, Rational { num: 7, den: 1 });
}

#[test]
fn test_translation_cache_is_hit_by_identity() {
    let mut ctx = LayoutContext::new();
    let m = Measure::new_unbound(&mut ctx);
    let e = m.add(&mut ctx, m);
    let mut bc = Z3BuildContext::new(&ctx);
    let _ = e.build_z3(&ctx, &mut bc);
    // One expression for the shared variable, one for the sum.
    assert_eq!(bc.expr_count, 2);
    let _ = e.build_z3(&ctx, &mut bc);
    let _ = m.build_z3(&ctx, &mut bc);
    assert_eq!(bc.expr_count, 2);
}

#[test]
fn test_structurally_equal_nodes_are_distinct() {
    let mut ctx = LayoutContext::new();
    let m = Measure::new_unbound(&mut ctx);
    let e1 = m.add(&mut ctx, m);
    let e2 = m.add(&mut ctx, m);
    assert_ne!(e1, e2);
    let mut bc = Z3BuildContext::new(&ctx);
    let _ = e1.build_z3(&ctx, &mut bc);
    let _ = e2.build_z3(&ctx, &mut bc);
    // Caching is per identity, not per structure: the second sum is built.
    assert_eq!(bc.expr_count, 3);
}

#[test]
fn test_small_constant_pool_identity() {
    let mut ctx = LayoutContext::new();
    let a = Measure::new_const(&mut ctx, 5, 1).unwrap();
    let b = Measure::new_const(&mut ctx, 5, 1).unwrap();
    let c = Measure::new_const(&mut ctx, 50, 10).unwrap();
    assert_eq!(a, b);
    assert_eq!(a, c);
    let zero = Measure::zero(&ctx);
    let zero2 = Measure::new_const(&mut ctx, 0, 7).unwrap();
    assert_eq!(zero, zero2);
}

#[test]
fn test_bad_const() {
    let mut ctx = LayoutContext::new();
    assert_eq!(Measure::new_const(&mut ctx, 1, 0), Err(MeasureError::BadConst));
}

#[test]
fn test_is_unbound() {
    let mut ctx = LayoutContext::new();
    let free = Measure::new_unbound(&mut ctx);
    let five = Measure::new_const(&mut ctx, 5, 1).unwrap();
    assert!(free.is_unbound(&ctx));
    assert!(!five.is_unbound(&ctx));
}

#[test]
fn test_with_weight_keeps_identity() {
    let mut ctx = LayoutContext::new();
    let a = Measure::new_unbound(&mut ctx);
    let b = Measure::new_unbound(&mut ctx);
    let p = a.prop_le(&mut ctx, b);
    assert_eq!(p.weight, 10);
    let q = p.with_weight(3);
    assert_eq!(q.weight, 3);
    assert_eq!(q.idx, p.idx);
}

#[test]
fn test_group_helpers_reject_empty_group() {
    let mut ctx = LayoutContext::new();
    let empty: Vec<RectangleMeasures> = Vec::new();
    assert!(matches!(
        RectangleMeasures::group_leftmost(&mut ctx, &empty),
        Err(RectangleError::EmptyGroup)
    ));
    assert!(matches!(
        RectangleMeasures::group_rightmost(&mut ctx, &empty),
        Err(RectangleError::EmptyGroup)
    ));
    assert!(matches!(
        RectangleMeasures::group_topmost(&mut ctx, &empty),
        Err(RectangleError::EmptyGroup)
    ));
    assert!(matches!(
        RectangleMeasures::group_bottommost(&mut ctx, &empty),
        Err(RectangleError::EmptyGroup)
    ));
    assert!(matches!(
        RectangleMeasures::group_center(&mut ctx, &empty),
        Err(RectangleError::EmptyGroup)
    ));
}

/// A rectangle of constants, as a detached measure set.
fn const_rect(
    ctx: &mut LayoutContext,
    left: i64,
    right: i64,
    top: i64,
    bottom: i64,
) -> RectangleMeasures {
    let l = Measure::new_const(ctx, left, 1).unwrap();
    let r = Measure::new_const(ctx, right, 1).unwrap();
    let t = Measure::new_const(ctx, top, 1).unwrap();
    let b = Measure::new_const(ctx, bottom, 1).unwrap();
    let w = Measure::new_const(ctx, right - left, 1).unwrap();
    let h = Measure::new_const(ctx, bottom - top, 1).unwrap();
    RectangleMeasures { left: l, right: r, top: t, bottom: b, width: w, height: h }
}

/// Pins a probe rectangle's left edge to the given measure, solves, and
/// answers the resolved value of that edge.
fn resolve_measure(ctx: &mut LayoutContext, target: Measure) -> Rational {
    let mut builder = LayoutBuilder::new();
    let out = Rc::new(RefCell::new(None));
    let probe = Rectangle::unbound(ctx, RecordPainter { out: Rc::clone(&out) });
    let c = probe.left.prop_eq(ctx, target);
    builder.push_constraint(ctx, c);
    builder.push_widget(ctx, probe);
    let report = builder.build(ctx).unwrap();
    assert!(report.unsatisfied_constraints.is_empty());
    let metrics = out.borrow().unwrap();
    metrics.left
}

#[test]
fn test_group_leftmost_value() {
    let mut ctx = LayoutContext::new();
    let rects = vec![
        const_rect(&mut ctx, 0, 4, 0, 4),
        const_rect(&mut ctx, 5, 9, 0, 4),
        const_rect(&mut ctx, 10, 14, 0, 4),
    ];
    let leftmost = RectangleMeasures::group_leftmost(&mut ctx, &rects).unwrap();
    assert_eq!(resolve_measure(&mut ctx, leftmost), Rational { num: 0, den: 1 });
}

#[test]
fn test_group_extremes_values() {
    let mut ctx = LayoutContext::new();
    let rects = vec![
        const_rect(&mut ctx, 2, 4, 1, 4),
        const_rect(&mut ctx, 5, 9, 3, 8),
        const_rect(&mut ctx, 10, 14, 2, 6),
    ];
    let rightmost = RectangleMeasures::group_rightmost(&mut ctx, &rects).unwrap();
    assert_eq!(resolve_measure(&mut ctx, rightmost), Rational { num: 14, den: 1 });
    let topmost = RectangleMeasures::group_topmost(&mut ctx, &rects).unwrap();
    assert_eq!(resolve_measure(&mut ctx, topmost), Rational { num: 1, den: 1 });
    let bottommost = RectangleMeasures::group_bottommost(&mut ctx, &rects).unwrap();
    assert_eq!(resolve_measure(&mut ctx, bottommost), Rational { num: 8, den: 1 });
}

#[test]
fn test_center_of_known_rectangle() {
    let mut ctx = LayoutContext::new();
    let rect = const_rect(&mut ctx, 0, 10, 0, 4);
    let center = rect.center(&mut ctx).unwrap();
    assert_eq!(resolve_measure(&mut ctx, center.x), Rational { num: 5, den: 1 });
    assert_eq!(resolve_measure(&mut ctx, center.y), Rational { num: 2, den: 1 });
}

#[test]
fn test_paint_failure_propagates() {
    let mut ctx = LayoutContext::new();
    let mut builder = LayoutBuilder::new();
    let rect = Rectangle::with_width_and_height(&mut ctx, whole(5), whole(10), FailPainter);
    builder.push_widget(&mut ctx, rect);
    let result = builder.build(&ctx);
    assert!(matches!(result, Err(BuildError::Paint(PaintError::Failed))));
}

#[test]
fn test_report_partitions_all_constraints() {
    let mut ctx = LayoutContext::new();
    let mut builder = LayoutBuilder::new();
    let mut rect = Rectangle::with_width_and_height(&mut ctx, whole(5), whole(10), OkPainter);
    rect.top = Measure::new_const(&mut ctx, 0, 1).unwrap();
    rect.bottom = Measure::new_const(&mut ctx, 1, 1).unwrap();
    builder.push_widget(&mut ctx, rect);
    let report = builder.build(&ctx).unwrap();
    // The six structural rectangle constraints are partitioned completely.
    assert_eq!(
        report.satisfied_constraints.len() + report.unsatisfied_constraints.len(),
        6
    );
    assert_eq!(report.unsatisfied_constraints.len(), 1);
}

#[test]
fn test_within_and_square() {
    let mut ctx = LayoutContext::new();
    let mut builder = LayoutBuilder::new();
    let outer = const_rect(&mut ctx, 0, 10, 0, 10);
    let out = Rc::new(RefCell::new(None));
    let inner = Rectangle::square(&mut ctx, RecordPainter { out: Rc::clone(&out) });
    let inner_measures = inner.measure_set();
    let c = inner_measures.within(&mut ctx, &outer);
    builder.push_constraint(&ctx, c);
    builder.push_widget(&mut ctx, inner);
    let report = builder.build(&ctx).unwrap();
    assert!(report.unsatisfied_constraints.is_empty());
    let metrics = out.borrow().unwrap();
    // The containment pins the square's edges to the frame's edges, and the
    // shared side length resolves both dimensions alike.
    assert_eq!(metrics.left, Rational { num: 0, den: 1 });
    assert_eq!(metrics.right, Rational { num: 10, den: 1 });
    assert_eq!(metrics.width, metrics.height);
    assert_eq!(metrics.width, Rational { num: 10, den: 1 });
}

#[test]
fn test_diagnostic_text() {
    let mut ctx = LayoutContext::new();
    let a = Measure::new_const(&mut ctx, 3, 1).unwrap();
    let b = Measure::new_const(&mut ctx, 7, 1).unwrap();
    let mn = a.min(&mut ctx, b);
    assert_eq!(mn.to_text(&ctx), "(min 3 7)");
    let mx = a.max(&mut ctx, b);
    assert_eq!(mx.to_text(&ctx), "(max 3 7)");
    let zero = Measure::zero(&ctx);
    let elided = a.add(&mut ctx, zero);
    assert_eq!(elided.to_text(&ctx), "3");
    let shrunk = a.sub(&mut ctx, zero);
    assert_eq!(shrunk.to_text(&ctx), "3");
    let frac = Measure::new_const(&mut ctx, 12, 100).unwrap();
    assert_eq!(frac.to_text(&ctx), "3/25");
    let p = a.prop_le(&mut ctx, b);
    assert_eq!(p.to_text(&ctx), "3 <= 7");
    let q = p.and(&mut ctx, p);
    assert_eq!(q.to_text(&ctx), "(3 <= 7) and (3 <= 7)");
    let free = Measure::new_unbound(&mut ctx);
    let sum = free.add(&mut ctx, b);
    let text = sum.to_text(&ctx);
    assert!(text.starts_with("(<") && text.ends_with("> + 7)"));
}

#[test]
fn test_widgets_painted_before_failure_stay_painted() {
    let mut ctx = LayoutContext::new();
    let mut builder = LayoutBuilder::new();
    let out = Rc::new(RefCell::new(None));
    let first = Rectangle::with_width_and_height(
        &mut ctx,
        whole(2),
        whole(2),
        RecordPainter { out: Rc::clone(&out) },
    );
    let second = Rectangle::with_width_and_height(&mut ctx, whole(3), whole(3), FailPainter);
    builder.push_widget(&mut ctx, first);
    builder.push_widget(&mut ctx, second);
    let result = builder.build(&ctx);
    assert!(matches!(result, Err(BuildError::Paint(PaintError::Failed))));
    // The first widget, registered before the failing one, was painted.
    let metrics = out.borrow().unwrap();
    assert_eq!(metrics.width, Rational { num: 2, den: 1 });
}

#[test]
fn test_is_representable() {
    assert!(Rational { num: 1, den: 8 }.is_representable());
    assert!(Rational { num: -500, den: 100 }.is_representable());
    assert!(!Rational { num: 1, den: 0 }.is_representable());
    // The magnitude of i64::MIN still fits with a negative sign, but not
    // once the denominator's sign turns the fraction positive.
    assert!(Rational { num: i64::MIN, den: 3 }.is_representable());
    assert!(!Rational { num: i64::MIN, den: -3 }.is_representable());
}
