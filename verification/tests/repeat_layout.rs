use typst::align::FixedAlignment;
use typst::content::Content;
use typst::geom::{Abs, Length};
use typst::repeat::{repeat_offsets, RepeatElem};

fn pts(v: &[i64]) -> Vec<Abs> {
    v.iter().map(|p| Abs::pt(*p)).collect()
}

#[test]
fn repeat_defaults_to_justified_without_gap() {
    let e = RepeatElem::new(Content(7));
    assert!(e.justify);
    assert_eq!(e.gap, Length::zero());
    assert_eq!(e.body, Content(7));
}

#[test]
fn pieces_follow_each_other_with_the_gap() {
    let r = repeat_offsets(Abs::pt(100), Abs::pt(20), Abs::pt(5), false, FixedAlignment::Start);
    assert_eq!(r, pts(&[0, 25, 50, 75]));
}

#[test]
fn unjustified_pieces_are_aligned_in_the_rest() {
    let r = repeat_offsets(Abs::pt(100), Abs::pt(20), Abs::pt(5), false, FixedAlignment::Center);
    assert_eq!(r, vec![Abs::raw(2500), Abs::raw(27500), Abs::raw(52500), Abs::raw(77500)]);
}

#[test]
fn justified_pieces_spread_the_rest_over_the_gaps() {
    let r = repeat_offsets(Abs::pt(100), Abs::pt(20), Abs::pt(5), true, FixedAlignment::Start);
    assert_eq!(r, vec![Abs::raw(0), Abs::raw(26666), Abs::raw(53332), Abs::raw(79998)]);
}

#[test]
fn a_single_justified_piece_is_aligned() {
    let r = repeat_offsets(Abs::pt(30), Abs::pt(20), Abs::pt(5), true, FixedAlignment::End);
    assert_eq!(r, pts(&[10]));
}

#[test]
fn a_piece_without_width_is_not_repeated() {
    let r = repeat_offsets(Abs::pt(100), Abs::zero(), Abs::pt(5), true, FixedAlignment::Start);
    assert!(r.is_empty());
}

#[test]
fn at_most_a_thousand_pieces() {
    let r = repeat_offsets(Abs::pt(10_000), Abs::pt(1), Abs::zero(), false, FixedAlignment::Start);
    assert_eq!(r.len(), 1000);
    assert_eq!(r[999], Abs::pt(999));
}
