use typst::corners::{Corner, Corners};
use typst::geom::{Abs, Axes, NonZeroUsize, Point, Ratio, Rel, Sides, Side, RATIO_ONE};
use typst::visualize::{fold_option, Stroke, LineCap, Paint, Color};
use typst::geom::Smart;

#[test]
fn abs_arithmetic_and_comparisons() {
    assert_eq!(Abs::pt(2), Abs::raw(2000));
    assert_eq!(Abs::pt(3).plus(Abs::pt(4)), Abs::pt(7));
    assert_eq!(Abs::pt(3).minus(Abs::pt(4)), Abs::pt(-1));
    assert_eq!(Abs::pt(3).neg(), Abs::pt(-3));
    assert_eq!(Abs::pt(3).max(Abs::pt(4)), Abs::pt(4));
    assert_eq!(Abs::pt(3).min(Abs::pt(4)), Abs::pt(3));
    assert!(Abs::pt(4).fits(Abs::pt(4)));
    assert!(!Abs::pt(3).fits(Abs::pt(4)));
    assert!(Abs::zero().is_zero());
    assert_eq!(Abs::raw(17).to_raw(), 17);
}

#[test]
fn ratio_of_rounds_down() {
    let half = Ratio(RATIO_ONE / 2);
    assert_eq!(half.of(Abs::raw(9)), Abs::raw(4));
    assert_eq!(half.of(Abs::raw(-9)), Abs::raw(-5));
    assert_eq!(Ratio::one().of(Abs::pt(12)), Abs::pt(12));
    let rel = Rel { rel: half, abs: Abs::pt(1) };
    assert_eq!(rel.relative_to(Abs::pt(10)), Abs::pt(6));
}

#[test]
fn sides_resolve_and_sum() {
    let quarter = Ratio(RATIO_ONE / 4);
    let side = Rel { rel: quarter, abs: Abs::zero() };
    let sides = Sides { left: side, top: side, right: side, bottom: side };
    let resolved = sides.relative_to(Axes::new(Abs::pt(8), Abs::pt(4)));
    assert_eq!(resolved.left, Abs::pt(2));
    assert_eq!(resolved.top, Abs::pt(1));
    let sum = resolved.sum_by_axis();
    assert_eq!(sum, Axes::new(Abs::pt(4), Abs::pt(2)));
}

#[test]
fn size_and_point_helpers() {
    let s = Axes::new(Abs::pt(3), Abs::pt(4));
    assert!(s.fits(Axes::new(Abs::pt(3), Abs::pt(1))));
    assert!(!s.fits(Axes::new(Abs::pt(4), Abs::pt(1))));
    assert_eq!(s.to_point(), Point::new(Abs::pt(3), Abs::pt(4)));
    assert_eq!(s.plus(s), Axes::new(Abs::pt(6), Abs::pt(8)));
    assert_eq!(s.minus(s), Axes::<Abs>::zero());
    assert_eq!(s.neg(), Axes::new(Abs::pt(-3), Abs::pt(-4)));
    assert!(Point::zero().is_zero());
    assert_eq!(Point::with_x(Abs::pt(1)), Point::new(Abs::pt(1), Abs::zero()));
    assert_eq!(Point::with_y(Abs::pt(1)), Point::new(Abs::zero(), Abs::pt(1)));
    assert_eq!(Point::splat(Abs::pt(2)).plus(Point::splat(Abs::pt(1))), Point::splat(Abs::pt(3)));
}

#[test]
fn nonzero_counts() {
    assert!(NonZeroUsize::new(0).is_none());
    assert_eq!(NonZeroUsize::new(3).unwrap().get(), 3);
    assert_eq!(NonZeroUsize::one().get(), 1);
}

#[test]
fn corners_rotate_and_invert() {
    let mut c = Corner::TopLeft;
    for _ in 0..4 {
        c = c.next_cw();
    }
    assert_eq!(c, Corner::TopLeft);
    assert_eq!(Corner::TopLeft.next_cw(), Corner::TopRight);
    assert_eq!(Corner::TopLeft.next_ccw(), Corner::BottomLeft);
    assert_eq!(Corner::TopLeft.inv(), Corner::BottomRight);
    assert_eq!(Corner::TopLeft.inv().inv(), Corner::TopLeft);
    assert_eq!(Corner::TopLeft.side_cw(), Side::Top);
    assert_eq!(Corner::TopLeft.side_ccw(), Side::Left);
}

#[test]
fn corners_containers() {
    let mut c = Corners::new(1u32, 2, 3, 4);
    assert!(!c.is_uniform());
    assert_eq!(*c.get_ref(Corner::BottomRight), 3);
    c.set(Corner::BottomRight, 9);
    assert_eq!(*c.get_ref(Corner::BottomRight), 9);
    *c.get_mut(Corner::TopRight) += 10;
    assert_eq!(c, Corners::new(1, 12, 9, 4));
    assert_eq!(c.iter(), vec![&1, &12, &9, &4]);
    let m = c.map(|v: u32| v * 2);
    assert_eq!(m, Corners::new(2, 24, 18, 8));
    let z = Corners::splat(1u8).zip(Corners::splat(true));
    assert_eq!(z, Corners::splat((1u8, true)));
    assert!(Corners::splat(5u8).is_uniform());
    let d = Corners::new(Some(1u32), None, Some(3), None).unwrap_or_default();
    assert_eq!(d, Corners::new(1, 0, 3, 0));
}

#[test]
fn stroke_fold_takes_unset_properties_from_outer() {
    let red = Paint::Solid(Color::red());
    let inner = Stroke { cap: Smart::Custom(LineCap::Round), ..Stroke::default() };
    let outer = Stroke { paint: Smart::Custom(red), cap: Smart::Custom(LineCap::Butt), ..Stroke::default() };
    let folded = inner.fold(outer);
    assert_eq!(folded.paint, Smart::Custom(red));
    assert_eq!(folded.cap, Smart::Custom(LineCap::Round));
    assert_eq!(Stroke::default().fold(inner), inner);
    assert_eq!(fold_option(None, Some(outer)), None);
    assert_eq!(fold_option(Some(inner), Some(outer)), Some(folded));
    assert_eq!(fold_option(Some(inner), None), Some(inner));
}
