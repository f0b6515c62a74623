use typst::align::FixedAlignment;
use typst::content::Tag;
use typst::frame::{Frame, FrameItem};
use typst::geom::{Abs, Axes, Point, Ratio, RATIO_ONE};
use typst::transform::{compute_bounding_box, transform_frame, Transform};

fn tagged(w: i64, h: i64) -> Frame {
    let mut f = Frame::soft(Axes::new(Abs::pt(w), Abs::pt(h)));
    f.push(Point::zero(), FrameItem::Tag(Tag(1)));
    f
}

#[test]
fn identity_is_neutral() {
    let t = Transform {
        sx: Ratio(2 * RATIO_ONE),
        ky: Ratio(RATIO_ONE / 2),
        kx: Ratio(-RATIO_ONE),
        sy: Ratio(3 * RATIO_ONE),
        tx: Abs::pt(5),
        ty: Abs::pt(-7),
    };
    assert_eq!(Transform::identity().pre_concat(t), t);
    assert_eq!(t.pre_concat(Transform::identity()), t);
    assert_eq!(t.post_concat(Transform::identity()), t);
    assert!(Transform::identity().is_identity());
    assert!(!t.is_identity());
}

#[test]
fn translations_compose_and_invert() {
    let a = Transform::translate(Abs::pt(1), Abs::pt(2));
    let b = Transform::translate(Abs::pt(10), Abs::pt(20));
    assert_eq!(a.pre_concat(b), Transform::translate(Abs::pt(11), Abs::pt(22)));
    assert_eq!(a.invert(), Some(Transform::translate(Abs::pt(-1), Abs::pt(-2))));
}

#[test]
fn scale_concatenation_multiplies() {
    let a = Transform::scale(Ratio(2 * RATIO_ONE), Ratio(RATIO_ONE / 2));
    let b = Transform::scale(Ratio(3 * RATIO_ONE), Ratio(4 * RATIO_ONE));
    let c = a.pre_concat(b);
    assert_eq!(c.sx, Ratio(6 * RATIO_ONE));
    assert_eq!(c.sy, Ratio(2 * RATIO_ONE));
}

#[test]
fn invert_scale_and_singular() {
    let a = Transform::scale(Ratio(2 * RATIO_ONE), Ratio(4 * RATIO_ONE));
    let inv = a.invert().unwrap();
    assert_eq!(inv.sx, Ratio(RATIO_ONE / 2));
    assert_eq!(inv.sy, Ratio(RATIO_ONE / 4));
    let singular = Transform {
        sx: Ratio(RATIO_ONE),
        ky: Ratio(RATIO_ONE),
        kx: Ratio(RATIO_ONE),
        sy: Ratio(RATIO_ONE),
        tx: Abs::zero(),
        ty: Abs::zero(),
    };
    assert_eq!(singular.invert(), None);
    let skew = Transform { kx: Ratio(RATIO_ONE), ..Transform::identity() };
    let inv = skew.invert().unwrap();
    assert_eq!(inv.kx, Ratio(-RATIO_ONE));
    assert_eq!(skew.pre_concat(inv), Transform::identity());
    assert_eq!(Transform::identity().invert(), Some(Transform::identity()));
}

#[test]
fn scaling_around_the_center_with_reflow() {
    let scale = Transform::scale(Ratio(2 * RATIO_ONE), Ratio(2 * RATIO_ONE));
    let center = Axes::new(FixedAlignment::Center, FixedAlignment::Center);
    let f = transform_frame(tagged(10, 20), scale, center, true);
    assert_eq!(f.size(), Axes::new(Abs::pt(20), Abs::pt(40)));
    match &f.items()[0] {
        (p, FrameItem::Group(g)) => {
            assert_eq!(*p, Point::new(Abs::pt(5), Abs::pt(10)));
            assert_eq!(
                g.transform,
                Transform { tx: Abs::pt(-5), ty: Abs::pt(-10), ..scale }
            );
        }
        _ => panic!("expected the transformed group"),
    }
}

#[test]
fn transforming_without_reflow_keeps_the_size() {
    let scale = Transform::scale(Ratio(2 * RATIO_ONE), Ratio(2 * RATIO_ONE));
    let start = Axes::new(FixedAlignment::Start, FixedAlignment::Start);
    let f = transform_frame(tagged(10, 20), scale, start, false);
    assert_eq!(f.size(), Axes::new(Abs::pt(10), Abs::pt(20)));
    match &f.items()[0] {
        (p, FrameItem::Group(g)) => {
            assert_eq!(*p, Point::zero());
            assert_eq!(g.transform, scale);
        }
        _ => panic!("expected the transformed group"),
    }
    let empty = transform_frame(Frame::soft(Axes::new(Abs::pt(1), Abs::pt(1))), scale, start, false);
    assert!(empty.items().is_empty());
}

#[test]
fn bounding_box_of_a_scaled_area() {
    let scale = Transform::scale(Ratio(2 * RATIO_ONE), Ratio(3 * RATIO_ONE));
    let (offset, size) = compute_bounding_box(Axes::new(Abs::pt(10), Abs::pt(20)), scale);
    assert_eq!(offset, Point::zero());
    assert_eq!(size, Axes::new(Abs::pt(20), Abs::pt(60)));
    let moved = Transform::translate(Abs::pt(-4), Abs::pt(3));
    let (offset, size) = compute_bounding_box(Axes::new(Abs::pt(10), Abs::pt(20)), moved);
    assert_eq!(offset, Point::new(Abs::pt(4), Abs::pt(-3)));
    assert_eq!(size, Axes::new(Abs::pt(10), Abs::pt(20)));
}

#[test]
fn zero_scale_has_no_inverse() {
    let flat = Transform::scale(Ratio(0), Ratio(RATIO_ONE));
    assert_eq!(flat.invert(), None);
    let moved = Transform { tx: Abs::pt(3), ..Transform::scale(Ratio(RATIO_ONE), Ratio(0)) };
    assert_eq!(moved.invert(), None);
    let t = Transform::translate(Abs::pt(3), Abs::pt(-4));
    let inv = t.invert().unwrap();
    assert_eq!(inv.pre_concat(t), Transform::identity());
    assert_eq!(t.pre_concat(inv), Transform::identity());
}

#[test]
fn inverse_composes_to_identity_up_to_rounding() {
    // Exact where the inverse has exact entries.
    let t = Transform { sx: Ratio(2_000_000), ky: Ratio(1_000_000), kx: Ratio(1_000_000), sy: Ratio(1_000_000), tx: Abs::pt(1), ty: Abs::zero() };
    let i = t.invert().unwrap();
    assert_eq!(t.pre_concat(i), Transform::identity());
    // A third cannot be held exactly: the composed scale misses one by a
    // millionth.
    let s = Transform::scale(Ratio(3_000_000), Ratio(3_000_000));
    let c = s.pre_concat(s.invert().unwrap());
    assert_eq!(c.sx, Ratio(999_999));
    assert_eq!(c.sy, Ratio(999_999));
    assert_eq!(c.kx, Ratio(0));
    assert_eq!(c.ky, Ratio(0));
}
