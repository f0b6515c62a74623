use typst::container::Sizing;
use typst::geom::{Abs, Em, Fr, Length, Ratio, Rel};
use typst::grid::tracks::{
    distribute_columns, grow_fractional_columns, resolve_columns, shrink_auto_columns,
};

fn pts(v: &[i64]) -> Vec<Abs> {
    v.iter().map(|p| Abs::pt(*p)).collect()
}

fn fr(x: i64) -> Fr {
    Fr(x * 1_000_000)
}

#[test]
fn fractional_columns_share_the_remaining_space() {
    let cols = vec![Sizing::Auto, Sizing::Fr(fr(1)), Sizing::Fr(fr(2))];
    let mut rcols = pts(&[10, 0, 0]);
    grow_fractional_columns(&cols, &mut rcols, Abs::pt(90), fr(3));
    assert_eq!(rcols, pts(&[10, 30, 60]));
}

#[test]
fn fractional_columns_share_rounds_down() {
    let cols = vec![Sizing::Fr(fr(1)), Sizing::Fr(fr(1)), Sizing::Fr(fr(1))];
    let mut rcols = pts(&[0, 0, 0]);
    grow_fractional_columns(&cols, &mut rcols, Abs::raw(100), fr(3));
    assert_eq!(rcols, vec![Abs::raw(33), Abs::raw(33), Abs::raw(33)]);
}

#[test]
fn no_fractions_leaves_the_columns() {
    let cols = vec![Sizing::Auto, Sizing::Auto];
    let mut rcols = pts(&[10, 20]);
    grow_fractional_columns(&cols, &mut rcols, Abs::pt(90), Fr(0));
    assert_eq!(rcols, pts(&[10, 20]));
}

#[test]
fn auto_columns_shrink_to_a_fair_share() {
    let cols = vec![Sizing::Auto, Sizing::Auto, Sizing::Auto];
    let mut rcols = pts(&[10, 50, 80]);
    shrink_auto_columns(&cols, &mut rcols, Abs::pt(100), 3);
    assert_eq!(rcols, pts(&[10, 45, 45]));
}

#[test]
fn auto_columns_that_fit_keep_their_size() {
    let cols = vec![Sizing::Auto, Sizing::Auto];
    let mut rcols = pts(&[10, 20]);
    shrink_auto_columns(&cols, &mut rcols, Abs::pt(100), 2);
    assert_eq!(rcols, pts(&[10, 20]));
}

#[test]
fn shrinking_leaves_other_columns() {
    let rel = Rel { rel: Ratio(0), abs: Length { abs: Abs::pt(30), em: Em(0) } };
    let cols = vec![Sizing::Rel(rel), Sizing::Auto, Sizing::Auto];
    let mut rcols = pts(&[30, 40, 60]);
    shrink_auto_columns(&cols, &mut rcols, Abs::pt(70), 2);
    assert_eq!(rcols, pts(&[30, 35, 35]));
}

#[test]
fn relative_columns_resolve_against_the_base() {
    let half = Rel { rel: Ratio(500_000), abs: Length { abs: Abs::pt(10), em: Em(0) } };
    let two_em = Rel { rel: Ratio(0), abs: Length { abs: Abs::zero(), em: Em(2_000_000) } };
    let cols = vec![Sizing::Rel(half), Sizing::Fr(fr(1)), Sizing::Auto, Sizing::Rel(two_em)];
    let mut rcols = pts(&[0, 0, 0, 0]);
    let (rel, total) = resolve_columns(&cols, &mut rcols, Abs::pt(10), Abs::pt(200));
    assert_eq!(rcols, pts(&[110, 0, 0, 20]));
    assert_eq!(rel, Abs::pt(130));
    assert_eq!(total, fr(1));
}

#[test]
fn distribution_grows_or_shrinks() {
    let cols = vec![Sizing::Auto, Sizing::Fr(fr(1))];
    let mut rcols = pts(&[60, 0]);
    distribute_columns(&cols, &mut rcols, Abs::pt(100), Abs::pt(60), 1, fr(1));
    assert_eq!(rcols, pts(&[60, 40]));

    let cols = vec![Sizing::Auto, Sizing::Auto];
    let mut rcols = pts(&[60, 80]);
    distribute_columns(&cols, &mut rcols, Abs::pt(100), Abs::pt(140), 2, Fr(0));
    assert_eq!(rcols, pts(&[50, 50]));
}
