use typst::align::{AlignError, Alignment, FixedAlignment, HAlignment, VAlignment};
use typst::geom::{Abs, Axis, Dir, Side};
use typst::operands::{
    AccessId, Constant, Global, LabelId, Math, Readable, Register, StringId, Writable,
};

#[test]
fn readable_constructors_and_accessors_round_trip() {
    assert_eq!(Readable::const_(Constant::new(3)).as_const(), Constant::new(3));
    assert_eq!(Readable::reg(Register::new(7)).as_reg(), Register::new(7));
    assert_eq!(Readable::string(StringId::new(2)).as_string(), StringId::new(2));
    assert_eq!(Readable::global(Global::new(9)).as_global(), Global::new(9));
    assert_eq!(Readable::math(Math::new(4)).as_math(), Math::new(4));
    assert!(Readable::bool(true).as_bool());
    assert!(!Readable::bool(false).as_bool());
    assert_eq!(Readable::label(LabelId::new(5)).as_label(), LabelId::new(5));
    assert_eq!(Readable::access(AccessId::new(1)), Readable::Access(AccessId::new(1)));
    assert_eq!(Readable::none(), Readable::NoneValue);
    assert_eq!(Readable::auto(), Readable::Auto);
    assert_eq!(Register::new(11).as_raw(), 11);
}

#[test]
fn readable_is_reg_only_for_registers() {
    assert!(Readable::reg(Register::new(0)).is_reg());
    assert!(!Readable::const_(Constant::new(0)).is_reg());
    assert!(!Readable::none().is_reg());
}

#[test]
fn writable_register_and_joiner() {
    assert_eq!(Writable::reg(Register::new(3)).as_reg(), Register::new(3));
    assert_eq!(Writable::joiner(), Writable::Joiner);
}

#[test]
fn alignment_add_combines_axes() {
    let h = Alignment::H(HAlignment::Left);
    let v = Alignment::V(VAlignment::Bottom);
    assert_eq!(h.add(v), Ok(Alignment::Both(HAlignment::Left, VAlignment::Bottom)));
    assert_eq!(v.add(h), Ok(Alignment::Both(HAlignment::Left, VAlignment::Bottom)));
}

#[test]
fn alignment_add_errors() {
    let h = Alignment::H(HAlignment::Left);
    let v = Alignment::V(VAlignment::Top);
    let both = Alignment::Both(HAlignment::Center, VAlignment::Horizon);
    assert_eq!(h.add(h), Err(AlignError::TwoHorizontal));
    assert_eq!(v.add(v), Err(AlignError::TwoVertical));
    assert_eq!(h.add(both), Err(AlignError::HorizontalAnd2D));
    assert_eq!(both.add(h), Err(AlignError::HorizontalAnd2D));
    assert_eq!(v.add(both), Err(AlignError::VerticalAnd2D));
    assert_eq!(both.add(v), Err(AlignError::VerticalAnd2D));
    assert_eq!(both.add(both), Err(AlignError::Two2D));
}

#[test]
fn alignment_fix_depends_on_text_direction() {
    let a = Alignment::H(HAlignment::Start);
    assert_eq!(a.fix(Dir::LTR).x, FixedAlignment::Start);
    assert_eq!(a.fix(Dir::RTL).x, FixedAlignment::End);
    assert_eq!(a.fix(Dir::LTR).y, FixedAlignment::Start);
    let b = Alignment::Both(HAlignment::Right, VAlignment::Horizon);
    assert_eq!(b.fix(Dir::RTL).x, FixedAlignment::End);
    assert_eq!(b.fix(Dir::RTL).y, FixedAlignment::Center);
}

#[test]
fn alignment_inverse_twice_is_identity() {
    for a in [
        Alignment::H(HAlignment::Start),
        Alignment::V(VAlignment::Top),
        Alignment::Both(HAlignment::Left, VAlignment::Bottom),
    ] {
        assert_eq!(a.inv().inv(), a);
    }
    assert_eq!(Alignment::H(HAlignment::Start).inv(), Alignment::H(HAlignment::End));
    assert_eq!(HAlignment::Center.inv(), HAlignment::Center);
    assert_eq!(VAlignment::Top.inv(), VAlignment::Bottom);
}

#[test]
fn alignment_inverse_mirrors_fixed_position() {
    assert_eq!(HAlignment::Left.inv().fix(Dir::LTR), FixedAlignment::End);
    assert_eq!(VAlignment::Bottom.inv().fix(), FixedAlignment::Start);
}

#[test]
fn alignment_axis_x_y_default_and_side() {
    assert_eq!(Alignment::H(HAlignment::Left).axis(), Some(Axis::X));
    assert_eq!(Alignment::V(VAlignment::Top).axis(), Some(Axis::Y));
    assert_eq!(Alignment::Both(HAlignment::Left, VAlignment::Top).axis(), None);
    assert_eq!(Alignment::V(VAlignment::Top).x(), None);
    assert_eq!(Alignment::V(VAlignment::Top).y(), Some(VAlignment::Top));
    assert_eq!(Alignment::default(), Alignment::Both(HAlignment::Start, VAlignment::Top));
    assert_eq!(Alignment::from_side(Side::Bottom), Alignment::V(VAlignment::Bottom));
    assert_eq!(FixedAlignment::from_side(Side::Right), FixedAlignment::End);
    assert_eq!(VAlignment::Horizon.add(HAlignment::Right), Alignment::Both(HAlignment::Right, VAlignment::Horizon));
}

#[test]
fn alignment_fold_takes_missing_axis_from_outer() {
    let inner = Alignment::H(HAlignment::Right);
    let outer = Alignment::Both(HAlignment::Left, VAlignment::Bottom);
    assert_eq!(inner.fold(outer), Alignment::Both(HAlignment::Right, VAlignment::Bottom));
    let both = Alignment::Both(HAlignment::Center, VAlignment::Top);
    assert_eq!(both.fold(outer), both);
}

#[test]
fn fixed_alignment_positions() {
    assert_eq!(FixedAlignment::Start.position(Abs::pt(10)), Abs::pt(0));
    assert_eq!(FixedAlignment::Center.position(Abs::pt(10)), Abs::pt(5));
    assert_eq!(FixedAlignment::End.position(Abs::pt(10)), Abs::pt(10));
    assert_eq!(FixedAlignment::Center.position(Abs::raw(-7)), Abs::raw(-3));
    assert_eq!(FixedAlignment::Center.position(Abs::raw(i64::MIN)), Abs::raw(i64::MIN / 2));
}

#[test]
fn alignments_compare_in_variant_order() {
    assert!(VAlignment::Top < VAlignment::Horizon && VAlignment::Horizon < VAlignment::Bottom);
    assert!(FixedAlignment::Start < FixedAlignment::Center && FixedAlignment::Center < FixedAlignment::End);
    for a in [VAlignment::Top, VAlignment::Horizon, VAlignment::Bottom] {
        for b in [VAlignment::Top, VAlignment::Horizon, VAlignment::Bottom] {
            assert_eq!(a < b, a.fix() < b.fix());
        }
    }
}
