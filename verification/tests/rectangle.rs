use measure_layout::layout::builder::LayoutBuilder;
use measure_layout::layout::context::LayoutContext;
use measure_layout::layout::measure::Measure;
use measure_layout::layout::rational::Rational;
use measure_layout::layout::widget::PaintError;
use measure_layout::widgets::rectangle::{Rectangle, RectangleMetrics, RectanglePainter};
use rand::RngExt;

struct PrintPainter;

impl RectanglePainter for PrintPainter {
    fn paint_rect(self, metrics: RectangleMetrics) -> Result<(), PaintError> {
        println!("{:?}", metrics);
        Ok(())
    }
}

struct OkPainter;

impl RectanglePainter for OkPainter {
    fn paint_rect(self, _metrics: RectangleMetrics) -> Result<(), PaintError> {
        Ok(())
    }
}

fn rational(value: f64) -> Rational {
    Rational {
        num: (value * 100.0) as i64,
        den: 100,
    }
}

#[test]
fn test_rectangle_success() {
    let mut ctx = LayoutContext::new();
    let mut builder = LayoutBuilder::new();

    let rect = Rectangle::with_width_and_height(&mut ctx, rational(5.0), rational(10.0), PrintPainter);
    builder.push_widget(&mut ctx, rect);

    let report = builder.build(&ctx).unwrap();
    assert!(report.unsatisfied_constraints.is_empty());
}

#[test]
fn test_rectangle_fail() {
    let mut ctx = LayoutContext::new();
    let mut builder = LayoutBuilder::new();

    let mut rect = Rectangle::with_width_and_height(&mut ctx, rational(5.0), rational(10.0), OkPainter);
    rect.top = Measure::new_const(&mut ctx, 0, 1).unwrap();
    rect.bottom = Measure::new_const(&mut ctx, 1, 1).unwrap();
    builder.push_widget(&mut ctx, rect);

    let report = builder.build(&ctx).unwrap();
    assert!(!report.unsatisfied_constraints.is_empty());
    println!("test_rectangle_fail: {:?}", report);
}

#[test]
fn test_many_rectangles() {
    let mut ctx = LayoutContext::new();
    let mut builder = LayoutBuilder::new();
    let mut rng = rand::rng();

    for _ in 0..10000 {
        let width: f64 = rng.random_range(10.0..100.0);
        let height: f64 = rng.random_range(10.0..100.0);
        let top: f64 = rng.random_range(10.0..100.0);
        let left: f64 = rng.random_range(10.0..100.0);
        let mut rect =
            Rectangle::with_width_and_height(&mut ctx, rational(width), rational(height), OkPainter);
        rect.top = Measure::new_const(&mut ctx, (top * 100.0) as i64, 100).unwrap();
        rect.left = Measure::new_const(&mut ctx, (left * 100.0) as i64, 100).unwrap();
        builder.push_widget(&mut ctx, rect);
    }

    let report = builder.build(&ctx).unwrap();
    assert!(report.unsatisfied_constraints.is_empty());
}

#[test]
fn test_nesting_rectangles() {
    let mut ctx = LayoutContext::new();
    let mut builder = LayoutBuilder::new();

    let mut last_frame = (
        Measure::new_const(&mut ctx, -100, 1).unwrap(),
        Measure::new_const(&mut ctx, 100, 1).unwrap(),
        Measure::new_const(&mut ctx, -100, 1).unwrap(),
        Measure::new_const(&mut ctx, 100, 1).unwrap(),
    );

    for _ in 0..100 {
        let rect = Rectangle::unbound(&mut ctx, OkPainter);
        let c = rect.left.prop_gt(&mut ctx, last_frame.0);
        builder.push_constraint(&ctx, c);
        let c = rect.right.prop_lt(&mut ctx, last_frame.1);
        builder.push_constraint(&ctx, c);
        let c = rect.top.prop_gt(&mut ctx, last_frame.2);
        builder.push_constraint(&ctx, c);
        let c = rect.bottom.prop_lt(&mut ctx, last_frame.3);
        builder.push_constraint(&ctx, c);
        let three = Measure::new_const(&mut ctx, 3, 1).unwrap();
        let c = rect.width.prop_gt(&mut ctx, three);
        builder.push_constraint(&ctx, c);
        let three = Measure::new_const(&mut ctx, 3, 1).unwrap();
        let c = rect.height.prop_gt(&mut ctx, three);
        builder.push_constraint(&ctx, c);
        last_frame.0 = rect.left;
        last_frame.1 = rect.right;
        last_frame.2 = rect.top;
        last_frame.3 = rect.bottom;
        builder.push_widget(&mut ctx, rect);
    }

    let report = builder.build(&ctx).unwrap();
    assert!(report.unsatisfied_constraints.is_empty());
}
