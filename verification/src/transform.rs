//! Affine transformations of frames.

use vstd::prelude::*;

use crate::align::{Alignment, FixedAlignment, HAlignment, VAlignment};
use crate::content::Content;
use crate::frame::{spec_can_translate, spec_translate, spec_wrapped, Frame, FrameView, GroupItem};
use crate::geom::{in_range, spec_scale, Abs, Axes, Length, Point, Ratio, Rel, Size, Smart, RATIO_ONE};
use crate::regions::Region;

verus! {

/// A scale-skew-translate transformation.
///
/// It maps a point `(x, y)` to `(sx * x + kx * y + tx, ky * x + sy * y + ty)`.
#[derive(Clone, Copy, PartialEq, Eq, Structural, Hash, Debug)]
pub struct Transform {
    /// The horizontal scale.
    pub sx: Ratio,
    /// The vertical skew.
    pub ky: Ratio,
    /// The horizontal skew.
    pub kx: Ratio,
    /// The vertical scale.
    pub sy: Ratio,
    /// The horizontal translation.
    pub tx: Abs,
    /// The vertical translation.
    pub ty: Abs,
}

/// The product of two raw ratios plus the product of two others, as a raw
/// ratio rounded down.
pub open spec fn spec_mul_add(a: int, b: int, c: int, d: int) -> int {
    (a * b + c * d) / (RATIO_ONE as int)
}

/// `spec_mul_add` computed in wide integers.
fn mul_add(a: i64, b: i64, c: i64, d: i64) -> (r: i64)
    requires
        in_range(spec_mul_add(a as int, b as int, c as int, d as int)),
    ensures
        r == spec_mul_add(a as int, b as int, c as int, d as int),
{
    proof {
        assert(-0x3fff_ffff_ffff_ffff_8000_0000_0000_0000 <= (a as int) * (b as int)
            <= 0x4000_0000_0000_0000_0000_0000_0000_0000) by (nonlinear_arith);
        assert(-0x3fff_ffff_ffff_ffff_8000_0000_0000_0000 <= (c as int) * (d as int)
            <= 0x4000_0000_0000_0000_0000_0000_0000_0000) by (nonlinear_arith);
    }
    let sum: i128 = (a as i128) * (b as i128) + (c as i128) * (d as i128);
    let q = sum.checked_div_euclid(RATIO_ONE as i128).unwrap();
    q as i64
}

/// The quotient of two wide integers rounded down, if the divisor is not
/// zero and the quotient fits a length.
fn div_floor(num: i128, den: i128) -> (r: Option<i64>)
    ensures
        r is Some <==> den != 0 && in_range(num as int / den as int),
        r matches Some(v) ==> v == num as int / den as int,
{
    match num.checked_div_euclid(den) {
        Some(q) => {
            if i64::MIN as i128 <= q && q <= i64::MAX as i128 {
                Some(q as i64)
            } else {
                None
            }
        },
        None => None,
    }
}

impl Transform {
    /// The identity transformation.
    pub open spec fn spec_identity() -> Transform {
        Transform {
            sx: Ratio(RATIO_ONE),
            ky: Ratio(0),
            kx: Ratio(0),
            sy: Ratio(RATIO_ONE),
            tx: Abs(0),
            ty: Abs(0),
        }
    }

    /// The identity transformation.
    pub fn identity() -> (t: Self)
        ensures
            t == Transform::spec_identity(),
    {
        Transform {
            sx: Ratio(RATIO_ONE),
            ky: Ratio(0),
            kx: Ratio(0),
            sy: Ratio(RATIO_ONE),
            tx: Abs(0),
            ty: Abs(0),
        }
    }

    /// A translate transform.
    pub fn translate(tx: Abs, ty: Abs) -> (t: Self)
        ensures
            t == (Transform { tx, ty, ..Transform::spec_identity() }),
    {
        Transform { tx, ty, ..Transform::identity() }
    }

    /// A scale transform.
    pub fn scale(sx: Ratio, sy: Ratio) -> (t: Self)
        ensures
            t == (Transform { sx, sy, ..Transform::spec_identity() }),
    {
        Transform { sx, sy, ..Transform::identity() }
    }

    /// Whether this is the identity transformation.
    pub fn is_identity(self) -> (r: bool)
        ensures
            r == (self == Transform::spec_identity()),
    {
        self.sx.0 == RATIO_ONE && self.ky.0 == 0 && self.kx.0 == 0 && self.sy.0 == RATIO_ONE
            && self.tx.0 == 0 && self.ty.0 == 0
    }

    /// The raw components of `self` applied after `prev`, rounded down.
    pub open spec fn spec_pre_concat_raw(self, prev: Transform) -> (int, int, int, int, int, int) {
        (
            spec_mul_add(self.sx.0 as int, prev.sx.0 as int, self.kx.0 as int, prev.ky.0 as int),
            spec_mul_add(self.ky.0 as int, prev.sx.0 as int, self.sy.0 as int, prev.ky.0 as int),
            spec_mul_add(self.sx.0 as int, prev.kx.0 as int, self.kx.0 as int, prev.sy.0 as int),
            spec_mul_add(self.ky.0 as int, prev.kx.0 as int, self.sy.0 as int, prev.sy.0 as int),
            spec_mul_add(self.sx.0 as int, prev.tx.0 as int, self.kx.0 as int, prev.ty.0 as int)
                + self.tx.0,
            spec_mul_add(self.ky.0 as int, prev.tx.0 as int, self.sy.0 as int, prev.ty.0 as int)
                + self.ty.0,
        )
    }

    /// Whether every component of `self` applied after `prev` fits its range.
    pub open spec fn spec_pre_concat_fits(self, prev: Transform) -> bool {
        let r = self.spec_pre_concat_raw(prev);
        &&& in_range(r.0)
        &&& in_range(r.1)
        &&& in_range(r.2)
        &&& in_range(r.3)
        &&& in_range(
            spec_mul_add(self.sx.0 as int, prev.tx.0 as int, self.kx.0 as int, prev.ty.0 as int),
        )
        &&& in_range(r.4)
        &&& in_range(
            spec_mul_add(self.ky.0 as int, prev.tx.0 as int, self.sy.0 as int, prev.ty.0 as int),
        )
        &&& in_range(r.5)
    }

    /// The transformation `self` applied after `prev`.
    pub open spec fn spec_pre_concat(self, prev: Transform) -> Transform {
        let r = self.spec_pre_concat_raw(prev);
        Transform {
            sx: Ratio(r.0 as i64),
            ky: Ratio(r.1 as i64),
            kx: Ratio(r.2 as i64),
            sy: Ratio(r.3 as i64),
            tx: Abs(r.4 as i64),
            ty: Abs(r.5 as i64),
        }
    }

    /// Pre-concatenate another transformation: the result applies `prev`
    /// first and `self` after it.
    pub fn pre_concat(self, prev: Self) -> (t: Self)
        requires
            self.spec_pre_concat_fits(prev),
        ensures
            t == self.spec_pre_concat(prev),
    {
        let tx = mul_add(self.sx.0, prev.tx.0, self.kx.0, prev.ty.0);
        let ty = mul_add(self.ky.0, prev.tx.0, self.sy.0, prev.ty.0);
        Transform {
            sx: Ratio(mul_add(self.sx.0, prev.sx.0, self.kx.0, prev.ky.0)),
            ky: Ratio(mul_add(self.ky.0, prev.sx.0, self.sy.0, prev.ky.0)),
            kx: Ratio(mul_add(self.sx.0, prev.kx.0, self.kx.0, prev.sy.0)),
            sy: Ratio(mul_add(self.ky.0, prev.kx.0, self.sy.0, prev.sy.0)),
            tx: Abs(tx + self.tx.0),
            ty: Abs(ty + self.ty.0),
        }
    }

    /// Post-concatenate another transformation: the result applies `self`
    /// first and `next` after it.
    pub fn post_concat(self, next: Self) -> (t: Self)
        requires
            next.spec_pre_concat_fits(self),
        ensures
            t == next.spec_pre_concat(self),
    {
        next.pre_concat(self)
    }

    /// The raw components of the inverse transformation, or `None` where the
    /// determinant is zero.
    pub open spec fn spec_invert_raw(self) -> Option<(int, int, int, int, int, int)> {
        let one = RATIO_ONE as int;
        let (sx, ky, kx, sy, tx, ty) = (
            self.sx.0 as int,
            self.ky.0 as int,
            self.kx.0 as int,
            self.sy.0 as int,
            self.tx.0 as int,
            self.ty.0 as int,
        );
        if self == Transform::spec_identity() {
            Some((sx, ky, kx, sy, tx, ty))
        } else if kx == 0 && ky == 0 {
            if sx == 0 || sy == 0 {
                None
            } else {
                Some((one * one / sx, 0, 0, one * one / sy, -tx * one / sx, -ty * one / sy))
            }
        } else {
            let det = (sx * sy - kx * ky) / one;
            if det == 0 {
                None
            } else {
                Some(
                    (
                        sy * one / det,
                        -ky * one / det,
                        -kx * one / det,
                        sx * one / det,
                        (kx * ty - sy * tx) / det,
                        (ky * tx - sx * ty) / det,
                    ),
                )
            }
        }
    }

    /// Whether the inverse transformation fits the range of its components.
    pub open spec fn spec_invert_fits(self) -> bool {
        match self.spec_invert_raw() {
            Some(r) => in_range(r.0) && in_range(r.1) && in_range(r.2) && in_range(r.3)
                && in_range(r.4) && in_range(r.5),
            None => true,
        }
    }

    /// The inverse transformation, or `None` where the determinant is zero.
    pub open spec fn spec_invert(self) -> Option<Transform> {
        match self.spec_invert_raw() {
            Some(r) => Some(
                Transform {
                    sx: Ratio(r.0 as i64),
                    ky: Ratio(r.1 as i64),
                    kx: Ratio(r.2 as i64),
                    sy: Ratio(r.3 as i64),
                    tx: Abs(r.4 as i64),
                    ty: Abs(r.5 as i64),
                },
            ),
            None => None,
        }
    }

    /// Inverts the transformation, rounding each component down.
    ///
    /// Returns `None` if the determinant of the matrix is zero.
    pub fn invert(self) -> (r: Option<Self>)
        requires
            self.spec_invert_fits(),
        ensures
            r == self.spec_invert(),
    {
        if self.is_identity() {
            return Some(self);
        }
        let one: i128 = RATIO_ONE as i128;
        let sx = self.sx.0 as i128;
        let ky = self.ky.0 as i128;
        let kx = self.kx.0 as i128;
        let sy = self.sy.0 as i128;
        let tx = self.tx.0 as i128;
        let ty = self.ty.0 as i128;
        proof {
            lemma_wide_products(sx as int, ky as int, kx as int, sy as int, tx as int, ty as int);
        }
        if kx == 0 && ky == 0 {
            if sx == 0 || sy == 0 {
                return None;
            }
            return Some(
                Transform {
                    sx: Ratio(div_floor(one * one, sx).unwrap()),
                    ky: Ratio(0),
                    kx: Ratio(0),
                    sy: Ratio(div_floor(one * one, sy).unwrap()),
                    tx: Abs(div_floor(-tx * one, sx).unwrap()),
                    ty: Abs(div_floor(-ty * one, sy).unwrap()),
                },
            );
        }
        let det = (sx * sy - kx * ky).checked_div_euclid(one).unwrap();
        if det == 0 {
            return None;
        }
        Some(
            Transform {
                sx: Ratio(div_floor(sy * one, det).unwrap()),
                ky: Ratio(div_floor(-ky * one, det).unwrap()),
                kx: Ratio(div_floor(-kx * one, det).unwrap()),
                sy: Ratio(div_floor(sx * one, det).unwrap()),
                tx: Abs(div_floor(kx * ty - sy * tx, det).unwrap()),
                ty: Abs(div_floor(ky * tx - sx * ty, det).unwrap()),
            },
        )
    }
}

/// Products of two components stay far inside the range of wide integers.
proof fn lemma_wide_products(sx: int, ky: int, kx: int, sy: int, tx: int, ty: int)
    requires
        in_range(sx),
        in_range(ky),
        in_range(kx),
        in_range(sy),
        in_range(tx),
        in_range(ty),
    ensures
        forall|a: int, b: int|
            #![trigger a * b]
            in_range(a) && in_range(b) ==> -0x3fff_ffff_ffff_ffff_8000_0000_0000_0000 <= a * b
                <= 0x4000_0000_0000_0000_0000_0000_0000_0000,
{
    assert forall|a: int, b: int|
        #![trigger a * b]
        in_range(a) && in_range(b) implies -0x3fff_ffff_ffff_ffff_8000_0000_0000_0000 <= a * b
            <= 0x4000_0000_0000_0000_0000_0000_0000_0000 by {
        assert(-0x3fff_ffff_ffff_ffff_8000_0000_0000_0000 <= a * b
            <= 0x4000_0000_0000_0000_0000_0000_0000_0000) by (nonlinear_arith)
            requires
                i64::MIN <= a <= i64::MAX,
                i64::MIN <= b <= i64::MAX,
        ;
    }
}

/// The identity is neutral on both sides of a concatenation.
pub proof fn lemma_identity_neutral(t: Transform)
    ensures
        Transform::spec_identity().spec_pre_concat_fits(t),
        Transform::spec_identity().spec_pre_concat(t) == t,
        t.spec_pre_concat_fits(Transform::spec_identity()),
        t.spec_pre_concat(Transform::spec_identity()) == t,
{
    let one = RATIO_ONE as int;
    assert forall|a: int| #![trigger spec_mul_add(one, a, 0, 0)] spec_mul_add(one, a, 0, 0) == a by {
        assert(one * a + 0 * 0 == a * one) by (nonlinear_arith);
        assert((a * one) / one == a) by (nonlinear_arith)
            requires
                one > 0,
        ;
    }
    assert forall|a: int| #![trigger spec_mul_add(0, a, one, 0)] spec_mul_add(0, a, one, 0) == 0 by {
        assert(0 * a + one * 0 == 0) by (nonlinear_arith);
    }
    assert forall|a: int| #![trigger spec_mul_add(a, one, 0, 0)] spec_mul_add(a, one, 0, 0) == a by {
        assert(a * one + 0 * 0 == a * one) by (nonlinear_arith);
        assert((a * one) / one == a) by (nonlinear_arith)
            requires
                one > 0,
        ;
    }
    assert forall|a: int| #![trigger spec_mul_add(a, 0, 0, one)] spec_mul_add(a, 0, 0, one) == 0 by {
        assert(a * 0 + 0 * one == 0) by (nonlinear_arith);
    }
    assert forall|a: int, b: int| #![trigger spec_mul_add(a, one, b, 0)] spec_mul_add(a, one, b, 0) == a by {
        assert(a * one + b * 0 == a * one) by (nonlinear_arith);
        assert((a * one) / one == a) by (nonlinear_arith)
            requires
                one > 0,
        ;
    }
    assert forall|a: int, b: int| #![trigger spec_mul_add(a, 0, b, one)] spec_mul_add(a, 0, b, one) == b by {
        assert(a * 0 + b * one == b * one) by (nonlinear_arith);
        assert((b * one) / one == b) by (nonlinear_arith)
            requires
                one > 0,
        ;
    }
    assert forall|a: int, b: int| #![trigger spec_mul_add(a, 0, b, 0)] spec_mul_add(a, 0, b, 0) == 0 by {
        assert(a * 0 + b * 0 == 0) by (nonlinear_arith);
    }
    assert forall|a: int, b: int| #![trigger spec_mul_add(one, a, 0, b)] spec_mul_add(one, a, 0, b) == a by {
        assert(one * a + 0 * b == a * one) by (nonlinear_arith);
        assert((a * one) / one == a) by (nonlinear_arith)
            requires
                one > 0,
        ;
    }
    assert forall|a: int, b: int| #![trigger spec_mul_add(0, a, one, b)] spec_mul_add(0, a, one, b) == b by {
        assert(0 * a + one * b == b * one) by (nonlinear_arith);
        assert((b * one) / one == b) by (nonlinear_arith)
            requires
                one > 0,
        ;
    }
}

/// Two translations compose to the translation by the sum of their offsets.
pub proof fn lemma_translations_compose(a: Transform, b: Transform)
    requires
        a.sx.0 == RATIO_ONE && a.sy.0 == RATIO_ONE && a.kx.0 == 0 && a.ky.0 == 0,
        b.sx.0 == RATIO_ONE && b.sy.0 == RATIO_ONE && b.kx.0 == 0 && b.ky.0 == 0,
        in_range(a.tx.0 + b.tx.0),
        in_range(a.ty.0 + b.ty.0),
    ensures
        a.spec_pre_concat_fits(b),
        a.spec_pre_concat(b) == (Transform {
            tx: Abs((a.tx.0 + b.tx.0) as i64),
            ty: Abs((a.ty.0 + b.ty.0) as i64),
            ..Transform::spec_identity()
        }),
{
    lemma_identity_neutral(b);
    let one = RATIO_ONE as int;
    assert(spec_mul_add(one, one, 0, 0) == one) by {
        assert(one * one + 0 * 0 == one * one) by (nonlinear_arith);
        assert((one * one) / one == one) by (nonlinear_arith)
            requires
                one > 0,
        ;
    }
    assert(spec_mul_add(one, b.tx.0 as int, 0, b.ty.0 as int) == b.tx.0) by {
        assert(one * b.tx.0 + 0 * b.ty.0 == b.tx.0 * one) by (nonlinear_arith);
        assert((b.tx.0 * one) / one == b.tx.0) by (nonlinear_arith)
            requires
                one > 0,
        ;
    }
    assert(spec_mul_add(0, b.tx.0 as int, one, b.ty.0 as int) == b.ty.0) by {
        assert(0 * b.tx.0 + one * b.ty.0 == b.ty.0 * one) by (nonlinear_arith);
        assert((b.ty.0 * one) / one == b.ty.0) by (nonlinear_arith)
            requires
                one > 0,
        ;
    }
}

/// A translation composed with its inverse, on either side, gives the
/// identity; the identity is its own inverse.
pub proof fn lemma_translation_inverse_cancels(t: Transform)
    requires
        t.sx.0 == RATIO_ONE && t.sy.0 == RATIO_ONE && t.kx.0 == 0 && t.ky.0 == 0,
        t.tx.0 > i64::MIN,
        t.ty.0 > i64::MIN,
    ensures
        t.spec_invert() is Some,
        t.spec_invert()->0.spec_pre_concat_fits(t),
        t.spec_invert()->0.spec_pre_concat(t) == Transform::spec_identity(),
        t.spec_pre_concat_fits(t.spec_invert()->0),
        t.spec_pre_concat(t.spec_invert()->0) == Transform::spec_identity(),
        t == Transform::spec_identity() ==> t.spec_invert() == Some(t),
{
    assert(t == (Transform { tx: t.tx, ty: t.ty, ..Transform::spec_identity() }));
    lemma_invert_translate(t.tx, t.ty);
    let i = t.spec_invert()->0;
    lemma_translations_compose(i, t);
    lemma_translations_compose(t, i);
}

/// The absolute value of an integer.
pub open spec fn spec_abs(v: int) -> int {
    if v >= 0 {
        v
    } else {
        -v
    }
}

/// The determinant of a transformation's matrix, as a raw ratio rounded
/// down.
pub open spec fn spec_det(t: Transform) -> int {
    (t.sx.0 * t.sy.0 - t.kx.0 * t.ky.0) / (RATIO_ONE as int)
}

/// A quotient rounded down leaves a remainder below the divisor's size.
proof fn lemma_euclid(x: int, d: int)
    requires
        d != 0,
    ensures
        0 <= x - d * (x / d) < spec_abs(d),
{
    assert(0 <= x - d * (x / d) < spec_abs(d)) by (nonlinear_arith)
        requires
            d != 0,
            spec_abs(d) == if d >= 0 {
                d
            } else {
                -d
            },
    ;
}

/// The size of a product is the product of the sizes.
proof fn lemma_abs_mul(x: int, y: int)
    ensures
        spec_abs(x * y) == spec_abs(x) * spec_abs(y),
{
    assert(spec_abs(x * y) == spec_abs(x) * spec_abs(y)) by (nonlinear_arith)
        requires
            spec_abs(x) == if x >= 0 {
                x
            } else {
                -x
            },
            spec_abs(y) == if y >= 0 {
                y
            } else {
                -y
            },
            spec_abs(x * y) == if x * y >= 0 {
                x * y
            } else {
                -(x * y)
            },
    ;
}

/// One entry of a transformation composed with its rounded inverse: `a` and
/// `b` are inverse entries, each the quotient of `p` and `q` by `det`
/// rounded down, and `out` the rounded entry `(u * a + v * b) / 1`. Where
/// `u * p + v * q` is `det * k + f`, the entry misses `k` (scaled by one)
/// by no more than `f` and the rounding of the three quotients allow.
proof fn lemma_entry_error(u: int, v: int, a: int, b: int, p: int, q: int, det: int, k: int, f: int, out: int)
    requires
        det != 0,
        0 <= p - a * det < spec_abs(det),
        0 <= q - b * det < spec_abs(det),
        u * p + v * q == det * k + f,
        out == (u * a + v * b) / (RATIO_ONE as int),
    ensures
        spec_abs(out * RATIO_ONE - k) * spec_abs(det) <= spec_abs(f) + (spec_abs(u) + spec_abs(v) + RATIO_ONE)
            * spec_abs(det),
{
    let one = RATIO_ONE as int;
    let r1 = p - a * det;
    let r2 = q - b * det;
    let x = u * a + v * b;
    lemma_euclid(x, one);
    let r = x - out * one;
    assert(r == x - one * (x / one));
    assert(u * r1 == u * p - u * (a * det)) by (nonlinear_arith)
        requires
            r1 == p - a * det,
    ;
    assert(v * r2 == v * q - v * (b * det)) by (nonlinear_arith)
        requires
            r2 == q - b * det,
    ;
    assert(det * r == det * x - det * (out * one)) by (nonlinear_arith)
        requires
            r == x - out * one,
    ;
    assert(det * x == det * (u * a) + det * (v * b)) by (nonlinear_arith)
        requires
            x == u * a + v * b,
    ;
    assert(u * (a * det) == det * (u * a)) by (nonlinear_arith);
    assert(v * (b * det) == det * (v * b)) by (nonlinear_arith);
    assert(det * (out * one - k) == det * (out * one) - det * k) by (nonlinear_arith);
    assert(det * (out * one - k) == f - u * r1 - v * r2 - det * r);
    lemma_abs_mul(det, out * one - k);
    lemma_abs_mul(u, r1);
    lemma_abs_mul(v, r2);
    lemma_abs_mul(det, r);
    assert(spec_abs(u) * spec_abs(r1) <= spec_abs(u) * spec_abs(det)) by (nonlinear_arith)
        requires
            0 <= spec_abs(r1) <= spec_abs(det),
            spec_abs(u) >= 0,
    ;
    assert(spec_abs(v) * spec_abs(r2) <= spec_abs(v) * spec_abs(det)) by (nonlinear_arith)
        requires
            0 <= spec_abs(r2) <= spec_abs(det),
            spec_abs(v) >= 0,
    ;
    assert(spec_abs(det) * spec_abs(r) <= one * spec_abs(det)) by (nonlinear_arith)
        requires
            0 <= spec_abs(r) <= one,
            spec_abs(det) >= 0,
    ;
    assert((spec_abs(u) + spec_abs(v) + one) * spec_abs(det) == spec_abs(u) * spec_abs(det) + spec_abs(v)
        * spec_abs(det) + one * spec_abs(det)) by (nonlinear_arith);
    assert(spec_abs(out * one - k) * spec_abs(det) == spec_abs(det) * spec_abs(out * one - k)) by (nonlinear_arith);
    let t1 = u * r1;
    let t2 = v * r2;
    let t3 = det * r;
    assert(spec_abs(f - t1 - t2 - t3) <= spec_abs(f) + spec_abs(t1) + spec_abs(t2) + spec_abs(t3));
    assert(spec_abs(r1) == r1 && spec_abs(r2) == r2 && spec_abs(r) == r);
}

/// From an error bound scaled by a non-zero determinant, the bound without
/// it where nothing else grows with the error.
proof fn lemma_cancel_det(e: int, det: int, c: int)
    requires
        det != 0,
        e * spec_abs(det) <= c * spec_abs(det),
    ensures
        e <= c,
{
    assert(e <= c) by (nonlinear_arith)
        requires
            spec_abs(det) > 0,
            e * spec_abs(det) <= c * spec_abs(det),
    ;
}

/// The scale entries of a matrix times the adjugate's column give the
/// determinant, split into its rounded part and the rest.
proof fn lemma_det_product(x1: int, y1: int, x2: int, y2: int, o: int, det: int, e: int)
    requires
        x1 * y1 - x2 * y2 == det * o + e,
    ensures
        x1 * (y1 * o) + x2 * (-y2 * o) == det * (o * o) + e * o,
{
    assert(x1 * (y1 * o) == (x1 * y1) * o) by (nonlinear_arith);
    assert(x2 * (-y2 * o) == -((x2 * y2) * o)) by (nonlinear_arith);
    assert((x1 * y1 - x2 * y2) * o == (x1 * y1) * o - (x2 * y2) * o) by (nonlinear_arith);
    assert((det * o + e) * o == det * (o * o) + e * o) by (nonlinear_arith);
}

/// Two entries of a matrix times the adjugate's column that cancel.
proof fn lemma_cancelling_product(x: int, y: int, o: int)
    ensures
        x * (y * o) + y * (-x * o) == 0,
        x * (-y * o) + y * (x * o) == 0,
{
    assert(x * (y * o) == (x * y) * o) by (nonlinear_arith);
    assert(y * (-x * o) == -((x * y) * o)) by (nonlinear_arith);
    assert(x * (-y * o) == -((x * y) * o)) by (nonlinear_arith);
    assert(y * (x * o) == (x * y) * o) by (nonlinear_arith);
}

/// The translation entries of a matrix times the adjugate's translation:
/// the translation times the determinant, negated.
proof fn lemma_translation_product(
    sx: int,
    ky: int,
    kx: int,
    sy: int,
    tx: int,
    ty: int,
    o: int,
    det: int,
    e: int,
)
    requires
        sx * sy - kx * ky == det * o + e,
    ensures
        sx * (kx * ty - sy * tx) + kx * (ky * tx - sx * ty) == det * (-tx * o) + -tx * e,
        ky * (kx * ty - sy * tx) + sy * (ky * tx - sx * ty) == det * (-ty * o) + -ty * e,
{
    assert(sx * (kx * ty - sy * tx) == (sx * kx) * ty - (sx * sy) * tx) by (nonlinear_arith);
    assert(kx * (ky * tx - sx * ty) == (kx * ky) * tx - (sx * kx) * ty) by (nonlinear_arith);
    assert(ky * (kx * ty - sy * tx) == (kx * ky) * ty - (ky * sy) * tx) by (nonlinear_arith);
    assert(sy * (ky * tx - sx * ty) == (ky * sy) * tx - (sx * sy) * ty) by (nonlinear_arith);
    assert((sx * sy) * tx - (kx * ky) * tx == (sx * sy - kx * ky) * tx) by (nonlinear_arith);
    assert((sx * sy) * ty - (kx * ky) * ty == (sx * sy - kx * ky) * ty) by (nonlinear_arith);
    assert((det * o + e) * tx == det * (tx * o) + tx * e) by (nonlinear_arith);
    assert((det * o + e) * ty == det * (ty * o) + ty * e) by (nonlinear_arith);
    assert(det * (-tx * o) == -(det * (tx * o))) by (nonlinear_arith);
    assert(det * (-ty * o) == -(det * (ty * o))) by (nonlinear_arith);
    assert(-tx * e == -(tx * e)) by (nonlinear_arith);
    assert(-ty * e == -(ty * e)) by (nonlinear_arith);
}

/// A transformation composed after its inverse gives the identity up to
/// rounding. The skews vanish for a scale-translate transformation and
/// otherwise stay within a unit plus the sizes of two entries over one;
/// the scales stay within a unit plus the size of the transformation's
/// scale over one of the whole ratio, and, with skew, plus one over the
/// (rounded) determinant; the translations stay within the same margins,
/// with skew plus the translation over the determinant. The identity's
/// inverse is the identity, and composing them gives it exactly.
pub proof fn lemma_invert_composes_to_identity(t: Transform)
    requires
        t.spec_invert() is Some,
        t.spec_invert_fits(),
        t.spec_pre_concat_fits(t.spec_invert()->0),
    ensures
        ({
            let one = RATIO_ONE as int;
            let c = t.spec_pre_concat(t.spec_invert()->0);
            let (sx, ky, kx, sy, tx, ty) = (
                t.sx.0 as int,
                t.ky.0 as int,
                t.kx.0 as int,
                t.sy.0 as int,
                t.tx.0 as int,
                t.ty.0 as int,
            );
            let det = spec_det(t);
            if t == Transform::spec_identity() {
                c == Transform::spec_identity()
            } else if kx == 0 && ky == 0 {
                &&& c.ky.0 == 0
                &&& c.kx.0 == 0
                &&& spec_abs(c.sx.0 - one) * one <= spec_abs(sx) + one
                &&& spec_abs(c.sy.0 - one) * one <= spec_abs(sy) + one
                &&& spec_abs(c.tx.0 as int) * one <= spec_abs(sx) + one
                &&& spec_abs(c.ty.0 as int) * one <= spec_abs(sy) + one
            } else {
                &&& det != 0
                &&& spec_abs(c.sx.0 - one) * one * spec_abs(det) <= one * one + (spec_abs(sx) + spec_abs(kx)
                    + one) * spec_abs(det)
                &&& spec_abs(c.ky.0 as int) * one <= spec_abs(ky) + spec_abs(sy) + one
                &&& spec_abs(c.kx.0 as int) * one <= spec_abs(sx) + spec_abs(kx) + one
                &&& spec_abs(c.sy.0 - one) * one * spec_abs(det) <= one * one + (spec_abs(ky) + spec_abs(sy)
                    + one) * spec_abs(det)
                &&& spec_abs(c.tx.0 as int) * one * spec_abs(det) <= spec_abs(tx) * one + (spec_abs(sx)
                    + spec_abs(kx) + one) * spec_abs(det)
                &&& spec_abs(c.ty.0 as int) * one * spec_abs(det) <= spec_abs(ty) * one + (spec_abs(ky)
                    + spec_abs(sy) + one) * spec_abs(det)
            }
        }),
{
    let one = RATIO_ONE as int;
    let i = t.spec_invert()->0;
    let raw = t.spec_invert_raw()->0;
    let (sx, ky, kx, sy, tx, ty) = (
        t.sx.0 as int,
        t.ky.0 as int,
        t.kx.0 as int,
        t.sy.0 as int,
        t.tx.0 as int,
        t.ty.0 as int,
    );
    assert(i.sx.0 == raw.0 && i.ky.0 == raw.1 && i.kx.0 == raw.2 && i.sy.0 == raw.3);
    assert(i.tx.0 == raw.4 && i.ty.0 == raw.5);
    let c = t.spec_pre_concat(i);
    let cr = t.spec_pre_concat_raw(i);
    assert(c.sx.0 == cr.0 && c.ky.0 == cr.1 && c.kx.0 == cr.2 && c.sy.0 == cr.3);
    assert(c.tx.0 == cr.4 && c.ty.0 == cr.5);
    if t == Transform::spec_identity() {
        lemma_identity_neutral(t);
    } else if kx == 0 && ky == 0 {
        let (a, d, itx, ity) = (raw.0, raw.3, raw.4, raw.5);
        lemma_euclid(one * one, sx);
        lemma_euclid(one * one, sy);
        lemma_euclid(-tx * one, sx);
        lemma_euclid(-ty * one, sy);
        lemma_entry_error(sx, 0, a, 0, one * one, 0, sx, one * one, 0, cr.0);
        assert(ky * a == 0 && sx * raw.2 == 0 && kx * d == 0 && sy * raw.1 == 0) by (nonlinear_arith)
            requires
                ky == 0,
                kx == 0,
                raw.1 == 0,
                raw.2 == 0,
        ;
        assert(kx * raw.1 == 0 && kx * ity == 0 && ky * itx == 0) by (nonlinear_arith)
            requires
                ky == 0,
                kx == 0,
        ;
        lemma_entry_error(0, sy, 0, d, 0, one * one, sy, one * one, 0, cr.3);
        lemma_entry_error(sx, 0, itx, 0, -tx * one, 0, sx, -tx * one, 0, cr.4 - tx);
        lemma_entry_error(sy, 0, ity, 0, -ty * one, 0, sy, -ty * one, 0, cr.5 - ty);
        assert(spec_abs(cr.0 * one - one * one) == spec_abs(cr.0 - one) * one) by {
            lemma_abs_mul(cr.0 - one, one);
        }
        assert(spec_abs(cr.3 * one - one * one) == spec_abs(cr.3 - one) * one) by {
            lemma_abs_mul(cr.3 - one, one);
        }
        assert(spec_abs((cr.4 - tx) * one - -tx * one) == spec_abs(cr.4) * one) by {
            lemma_abs_mul(cr.4, one);
        }
        assert(spec_abs((cr.5 - ty) * one - -ty * one) == spec_abs(cr.5) * one) by {
            lemma_abs_mul(cr.5, one);
        }
        lemma_cancel_det(spec_abs(cr.0 - one) * one, sx, spec_abs(sx) + one);
        lemma_cancel_det(spec_abs(cr.3 - one) * one, sy, spec_abs(sy) + one);
        lemma_cancel_det(spec_abs(cr.4) * one, sx, spec_abs(sx) + one);
        lemma_cancel_det(spec_abs(cr.5) * one, sy, spec_abs(sy) + one);
    } else {
        let det = spec_det(t);
        let dd = sx * sy - kx * ky;
        assert(det != 0);
        lemma_euclid(dd, one);
        let e = dd - det * one;
        let (a, b, cc, d, itx, ity) = (raw.0, raw.1, raw.2, raw.3, raw.4, raw.5);
        lemma_euclid(sy * one, det);
        lemma_euclid(-ky * one, det);
        lemma_euclid(-kx * one, det);
        lemma_euclid(sx * one, det);
        lemma_euclid(kx * ty - sy * tx, det);
        lemma_euclid(ky * tx - sx * ty, det);
        lemma_det_product(sx, sy, kx, ky, one, det, e);
        lemma_entry_error(sx, kx, a, b, sy * one, -ky * one, det, one * one, e * one, cr.0);
        lemma_cancelling_product(ky, sy, one);
        assert(det * 0 == 0);
        lemma_entry_error(ky, sy, a, b, sy * one, -ky * one, det, 0, 0, cr.1);
        lemma_cancelling_product(sx, kx, one);
        lemma_entry_error(sx, kx, cc, d, -kx * one, sx * one, det, 0, 0, cr.2);
        assert(sy * sx - kx * ky == det * one + e) by (nonlinear_arith)
            requires
                e == dd - det * one,
                dd == sx * sy - kx * ky,
        ;
        lemma_det_product(sy, sx, ky, kx, one, det, e);
        assert(sy * (sx * one) + ky * (-kx * one) == det * (one * one) + e * one);
        lemma_entry_error(ky, sy, cc, d, -kx * one, sx * one, det, one * one, e * one, cr.3);
        lemma_translation_product(sx, ky, kx, sy, tx, ty, one, det, e);
        lemma_entry_error(sx, kx, itx, ity, kx * ty - sy * tx, ky * tx - sx * ty, det, -tx * one, -tx * e, cr.4 - tx);
        lemma_entry_error(ky, sy, itx, ity, kx * ty - sy * tx, ky * tx - sx * ty, det, -ty * one, -ty * e, cr.5 - ty);
        // The errors in terms of the composed entries.
        lemma_abs_mul(cr.0 - one, one);
        lemma_abs_mul(cr.3 - one, one);
        lemma_abs_mul(cr.1, one);
        lemma_abs_mul(cr.2, one);
        lemma_abs_mul(cr.4, one);
        lemma_abs_mul(cr.5, one);
        assert(cr.0 * one - one * one == (cr.0 - one) * one) by (nonlinear_arith);
        assert(cr.3 * one - one * one == (cr.3 - one) * one) by (nonlinear_arith);
        assert((cr.4 - tx) * one - -tx * one == cr.4 * one) by (nonlinear_arith);
        assert((cr.5 - ty) * one - -ty * one == cr.5 * one) by (nonlinear_arith);
        lemma_abs_mul(e, one);
        lemma_abs_mul(tx, e);
        lemma_abs_mul(ty, e);
        assert(spec_abs(e * one) <= one * one) by (nonlinear_arith)
            requires
                0 <= e < one,
                spec_abs(e * one) == spec_abs(e) * spec_abs(one),
                spec_abs(e) == e,
                spec_abs(one) == one,
        ;
        assert(-tx * e == -(tx * e)) by (nonlinear_arith);
        assert(spec_abs(-tx * e) == spec_abs(tx * e));
        assert(spec_abs(-tx * e) <= spec_abs(tx) * one) by (nonlinear_arith)
            requires
                0 <= e < one,
                spec_abs(-tx * e) == spec_abs(tx * e),
                spec_abs(tx * e) == spec_abs(tx) * spec_abs(e),
                spec_abs(e) == e,
                spec_abs(tx) >= 0,
        ;
        assert(-ty * e == -(ty * e)) by (nonlinear_arith);
        assert(spec_abs(-ty * e) == spec_abs(ty * e));
        assert(spec_abs(-ty * e) <= spec_abs(ty) * one) by (nonlinear_arith)
            requires
                0 <= e < one,
                spec_abs(-ty * e) == spec_abs(ty * e),
                spec_abs(ty * e) == spec_abs(ty) * spec_abs(e),
                spec_abs(e) == e,
                spec_abs(ty) >= 0,
        ;
        assert(spec_abs(cr.1) * one * spec_abs(det) <= (spec_abs(ky) + spec_abs(sy) + one) * spec_abs(det));
        lemma_cancel_det(spec_abs(cr.1) * one, det, spec_abs(ky) + spec_abs(sy) + one);
        assert(spec_abs(cr.2) * one * spec_abs(det) <= (spec_abs(sx) + spec_abs(kx) + one) * spec_abs(det));
        lemma_cancel_det(spec_abs(cr.2) * one, det, spec_abs(sx) + spec_abs(kx) + one);
    }
}

/// The inverse of a translation is the translation by the negated offset.
pub proof fn lemma_invert_translate(tx: Abs, ty: Abs)
    requires
        tx.0 > i64::MIN,
        ty.0 > i64::MIN,
    ensures
        (Transform { tx, ty, ..Transform::spec_identity() }).spec_invert_fits(),
        (Transform { tx, ty, ..Transform::spec_identity() }).spec_invert() == Some(
            Transform { tx: Abs((-tx.0) as i64), ty: Abs((-ty.0) as i64), ..Transform::spec_identity() },
        ),
{
    let one = RATIO_ONE as int;
    assert(one * one / one == one) by (nonlinear_arith)
        requires
            one > 0,
    ;
    assert(-tx.0 * one / one == -tx.0) by (nonlinear_arith)
        requires
            one > 0,
    ;
    assert(-ty.0 * one / one == -ty.0) by (nonlinear_arith)
        requires
            one > 0,
    ;
}

/// The raw coordinates of a point transformed: the scaled and skewed parts
/// rounded down, then translated.
pub open spec fn spec_transform_raw(p: Point, ts: Transform) -> (int, int) {
    (
        spec_mul_add(ts.sx.0 as int, p.x.0 as int, ts.kx.0 as int, p.y.0 as int) + ts.tx.0,
        spec_mul_add(ts.ky.0 as int, p.x.0 as int, ts.sy.0 as int, p.y.0 as int) + ts.ty.0,
    )
}

/// Whether a transformed point stays in the range of lengths.
pub open spec fn spec_transform_fits(p: Point, ts: Transform) -> bool {
    &&& in_range(spec_mul_add(ts.sx.0 as int, p.x.0 as int, ts.kx.0 as int, p.y.0 as int))
    &&& in_range(spec_mul_add(ts.ky.0 as int, p.x.0 as int, ts.sy.0 as int, p.y.0 as int))
    &&& in_range(spec_transform_raw(p, ts).0)
    &&& in_range(spec_transform_raw(p, ts).1)
}

/// A point transformed.
pub open spec fn spec_transform(p: Point, ts: Transform) -> Point {
    let (x, y) = spec_transform_raw(p, ts);
    Point { x: Abs(x as i64), y: Abs(y as i64) }
}

impl Point {
    /// Transform the point with the given transformation.
    pub fn transform(self, ts: Transform) -> (r: Point)
        requires
            spec_transform_fits(self, ts),
        ensures
            r == spec_transform(self, ts),
    {
        let x = mul_add(ts.sx.0, self.x.0, ts.kx.0, self.y.0);
        let y = mul_add(ts.ky.0, self.x.0, ts.sy.0, self.y.0);
        Point { x: Abs(x + ts.tx.0), y: Abs(y + ts.ty.0) }
    }
}

/// The corners of an area of the given size: top left, top right, bottom
/// left, bottom right.
pub open spec fn spec_corners(size: Size) -> Seq<Point> {
    seq![
        Point { x: Abs(0), y: Abs(0) },
        Point { x: size.x, y: Abs(0) },
        Point { x: Abs(0), y: size.y },
        Point { x: size.x, y: size.y },
    ]
}

/// The smallest of four integers.
pub open spec fn min4(a: int, b: int, c: int, d: int) -> int {
    let ab = if a <= b { a } else { b };
    let abc = if ab <= c { ab } else { c };
    if abc <= d { abc } else { d }
}

/// The largest of four integers.
pub open spec fn max4(a: int, b: int, c: int, d: int) -> int {
    let ab = if a >= b { a } else { b };
    let abc = if ab >= c { ab } else { c };
    if abc >= d { abc } else { d }
}

/// The bounding box of an area of the given size transformed: the offset
/// that moves its top left corner to the origin, and its size.
pub open spec fn spec_bounding_box(size: Size, ts: Transform) -> (Point, Size) {
    let c = spec_corners(size);
    let (p0, p1, p2, p3) = (
        spec_transform(c[0], ts),
        spec_transform(c[1], ts),
        spec_transform(c[2], ts),
        spec_transform(c[3], ts),
    );
    let min_x = min4(p0.x.0 as int, p1.x.0 as int, p2.x.0 as int, p3.x.0 as int);
    let min_y = min4(p0.y.0 as int, p1.y.0 as int, p2.y.0 as int, p3.y.0 as int);
    let max_x = max4(p0.x.0 as int, p1.x.0 as int, p2.x.0 as int, p3.x.0 as int);
    let max_y = max4(p0.y.0 as int, p1.y.0 as int, p2.y.0 as int, p3.y.0 as int);
    (
        Point { x: Abs((-min_x) as i64), y: Abs((-min_y) as i64) },
        Axes { x: Abs((max_x - min_x) as i64), y: Abs((max_y - min_y) as i64) },
    )
}

/// Whether computing the bounding box stays in the range of lengths.
pub open spec fn spec_bounding_box_fits(size: Size, ts: Transform) -> bool {
    let c = spec_corners(size);
    let (p0, p1, p2, p3) = (
        spec_transform(c[0], ts),
        spec_transform(c[1], ts),
        spec_transform(c[2], ts),
        spec_transform(c[3], ts),
    );
    let min_x = min4(p0.x.0 as int, p1.x.0 as int, p2.x.0 as int, p3.x.0 as int);
    let min_y = min4(p0.y.0 as int, p1.y.0 as int, p2.y.0 as int, p3.y.0 as int);
    let max_x = max4(p0.x.0 as int, p1.x.0 as int, p2.x.0 as int, p3.x.0 as int);
    let max_y = max4(p0.y.0 as int, p1.y.0 as int, p2.y.0 as int, p3.y.0 as int);
    &&& forall|i: int| 0 <= i < 4 ==> spec_transform_fits(#[trigger] c[i], ts)
    &&& in_range(max_x - min_x)
    &&& in_range(max_y - min_y)
    &&& min_x > i64::MIN
    &&& min_y > i64::MIN
}

/// Computes the bounding box and offset of a transformed area.
pub fn compute_bounding_box(size: Size, ts: Transform) -> (r: (Point, Size))
    requires
        spec_bounding_box_fits(size, ts),
    ensures
        r == spec_bounding_box(size, ts),
{
    proof {
        let c = spec_corners(size);
        assert(spec_transform_fits(c[0], ts));
        assert(spec_transform_fits(c[1], ts));
        assert(spec_transform_fits(c[2], ts));
        assert(spec_transform_fits(c[3], ts));
    }
    let top_left = Point::zero().transform(ts);
    let top_right = Point::with_x(size.x).transform(ts);
    let bottom_left = Point::with_y(size.y).transform(ts);
    let bottom_right = size.to_point().transform(ts);
    let min_x = top_left.x.min(top_right.x).min(bottom_left.x).min(bottom_right.x);
    let min_y = top_left.y.min(top_right.y).min(bottom_left.y).min(bottom_right.y);
    let max_x = top_left.x.max(top_right.x).max(bottom_left.x).max(bottom_right.x);
    let max_y = top_left.y.max(top_right.y).max(bottom_left.y).max(bottom_right.y);
    let width = max_x.minus(min_x);
    let height = max_y.minus(min_y);
    (Point::new(min_x.neg(), min_y.neg()), Axes::new(width, height))
}

/// A bounding box always has a size of at least zero.
pub proof fn lemma_bounding_box_nonnegative(size: Size, ts: Transform)
    ensures
        spec_bounding_box_fits(size, ts) ==> spec_bounding_box(size, ts).1.x.0 >= 0
            && spec_bounding_box(size, ts).1.y.0 >= 0,
{
}

/// The identity transformation leaves every point where it is, so the
/// bounding box of an area of nonnegative size is the area itself.
pub proof fn lemma_identity_bounding_box(size: Size)
    requires
        size.x.0 >= 0,
        size.y.0 >= 0,
    ensures
        spec_bounding_box_fits(size, Transform::spec_identity()),
        spec_bounding_box(size, Transform::spec_identity()) == (
            Point { x: Abs(0), y: Abs(0) },
            size,
        ),
{
    let one = RATIO_ONE as int;
    assert forall|a: int, b: int| #![trigger spec_mul_add(one, a, 0, b)] spec_mul_add(one, a, 0, b) == a by {
        assert(one * a + 0 * b == a * one) by (nonlinear_arith);
        assert((a * one) / one == a) by (nonlinear_arith)
            requires
                one > 0,
        ;
    }
    assert forall|a: int, b: int| #![trigger spec_mul_add(0, a, one, b)] spec_mul_add(0, a, one, b) == b by {
        assert(0 * a + one * b == b * one) by (nonlinear_arith);
        assert((b * one) / one == b) by (nonlinear_arith)
            requires
                one > 0,
        ;
    }
    let c = spec_corners(size);
    assert forall|i: int| 0 <= i < 4 implies spec_transform_fits(#[trigger] c[i], Transform::spec_identity()) by {
        assert(spec_mul_add(one, c[i].x.0 as int, 0, c[i].y.0 as int) == c[i].x.0);
        assert(spec_mul_add(0, c[i].x.0 as int, one, c[i].y.0 as int) == c[i].y.0);
    }
    assert(spec_transform(c[3], Transform::spec_identity()) == c[3]);
    assert(spec_transform(c[0], Transform::spec_identity()) == c[0]);
    assert(spec_transform(c[1], Transform::spec_identity()) == c[1]);
    assert(spec_transform(c[2], Transform::spec_identity()) == c[2]);
}


/// Moves content without affecting layout.
#[derive(Clone, Copy, PartialEq, Eq, Structural, Hash, Debug)]
pub struct MoveElem {
    /// The horizontal displacement of the content.
    pub dx: Rel<Length>,
    /// The vertical displacement of the content.
    pub dy: Rel<Length>,
    /// The content to move.
    pub body: Content,
}

impl MoveElem {
    /// Content that is not moved.
    pub fn new(body: Content) -> (e: Self)
        ensures
            e == (MoveElem { dx: Rel::<Length>::spec_zero(), dy: Rel::<Length>::spec_zero(), body }),
    {
        MoveElem { dx: Rel::<Length>::zero(), dy: Rel::<Length>::zero(), body }
    }
}

/// The displacement of moved content in a region of the given size.
pub open spec fn spec_move_delta(elem: MoveElem, font_size: Abs, size: Size) -> Point {
    Point {
        x: Abs(elem.dx.spec_resolve(font_size).spec_relative_to(size.x) as i64),
        y: Abs(elem.dy.spec_resolve(font_size).spec_relative_to(size.y) as i64),
    }
}

/// Whether the displacement resolves within the range of lengths.
pub open spec fn spec_move_fits(elem: MoveElem, font_size: Abs, size: Size) -> bool {
    &&& elem.dx.abs.spec_at_fits(font_size)
    &&& elem.dy.abs.spec_at_fits(font_size)
    &&& (Axes { x: elem.dx.spec_resolve(font_size), y: elem.dy.spec_resolve(font_size) }).spec_resolvable(
        size,
    )
}

/// Move the frame of the body, laid out into the region, by the element's
/// displacement relative to the region's size.
pub fn layout_move(elem: &MoveElem, frame: Frame, font_size: Abs, region: Region) -> (r: Frame)
    requires
        spec_move_fits(*elem, font_size, region.size),
        spec_can_translate(frame@, spec_move_delta(*elem, font_size, region.size)),
    ensures
        r@ == spec_translate(frame@, spec_move_delta(*elem, font_size, region.size)),
{
    let delta = Axes::new(elem.dx.resolve(font_size), elem.dy.resolve(font_size)).relative_to(
        region.size,
    );
    let mut frame = frame;
    frame.translate(delta.to_point());
    frame
}

/// To what size something shall be scaled.
#[derive(Clone, Copy, PartialEq, Eq, Structural, Hash, Debug)]
pub enum ScaleAmount {
    /// A factor of the original size.
    Ratio(Ratio),
    /// An absolute size.
    Length(Length),
}

/// Scales content without affecting layout.
#[derive(Clone, Copy, PartialEq, Eq, Structural, Hash, Debug)]
pub struct ScaleElem {
    /// The horizontal scaling factor.
    pub x: Smart<ScaleAmount>,
    /// The vertical scaling factor.
    pub y: Smart<ScaleAmount>,
    /// The origin of the transformation.
    pub origin: Alignment,
    /// Whether the scaling impacts the layout.
    pub reflow: bool,
    /// The content to scale.
    pub body: Content,
}

impl ScaleElem {
    /// Content at its original size, scaled around its center, without
    /// reflow.
    pub fn new(body: Content) -> (e: Self)
        ensures
            e == (ScaleElem {
                x: Smart::Custom(ScaleAmount::Ratio(Ratio(RATIO_ONE))),
                y: Smart::Custom(ScaleAmount::Ratio(Ratio(RATIO_ONE))),
                origin: Alignment::Both(HAlignment::Center, VAlignment::Horizon),
                reflow: false,
                body,
            }),
    {
        ScaleElem {
            x: Smart::Custom(ScaleAmount::Ratio(Ratio::one())),
            y: Smart::Custom(ScaleAmount::Ratio(Ratio::one())),
            origin: Alignment::Both(HAlignment::Center, VAlignment::Horizon),
            reflow: false,
            body,
        }
    }
}


/// The translation by the given raw offsets.
pub open spec fn spec_translation(x: int, y: int) -> Transform {
    Transform { tx: Abs(x as i64), ty: Abs(y as i64), ..Transform::spec_identity() }
}

/// The transformation around the point of a frame of size `size` that the
/// alignment picks: moved there, transformed, and moved back.
pub open spec fn spec_origin_transform(size: Size, ts: Transform, align: Axes<FixedAlignment>) -> Transform {
    let x = align.x.spec_position(size.x);
    let y = align.y.spec_position(size.y);
    spec_translation(x, y).spec_pre_concat(ts).spec_pre_concat(spec_translation(-x, -y))
}

/// Whether the transformation around the aligned point stays in range.
pub open spec fn spec_origin_transform_fits(size: Size, ts: Transform, align: Axes<FixedAlignment>) -> bool {
    let x = align.x.spec_position(size.x);
    let y = align.y.spec_position(size.y);
    &&& x > i64::MIN
    &&& y > i64::MIN
    &&& spec_translation(x, y).spec_pre_concat_fits(ts)
    &&& spec_translation(x, y).spec_pre_concat(ts).spec_pre_concat_fits(spec_translation(-x, -y))
}

/// The frame with its contents transformed, unless it has none.
pub open spec fn spec_frame_transformed(frame: Frame, ts: Transform) -> FrameView {
    if frame@.items.len() == 0 {
        frame@
    } else {
        spec_wrapped(frame@, GroupItem { transform: ts, ..GroupItem::spec_new(frame) })
    }
}

/// The frame of a transformed body: transformed around the aligned point,
/// and with reflow moved and sized to the bounding box of the transformed
/// frame.
pub open spec fn spec_transformed_body(
    frame: Frame,
    transform: Transform,
    align: Axes<FixedAlignment>,
    reflow: bool,
) -> FrameView {
    let ts = spec_origin_transform(frame@.size, transform, align);
    if reflow {
        let (offset, size) = spec_bounding_box(frame@.size, ts);
        FrameView { size, ..spec_translate(spec_frame_transformed(frame, ts), offset) }
    } else {
        spec_frame_transformed(frame, ts)
    }
}

/// Whether transforming the body stays in the range of lengths.
pub open spec fn spec_transformed_body_fits(
    frame: Frame,
    transform: Transform,
    align: Axes<FixedAlignment>,
    reflow: bool,
) -> bool {
    let ts = spec_origin_transform(frame@.size, transform, align);
    &&& spec_origin_transform_fits(frame@.size, transform, align)
    &&& reflow ==> spec_bounding_box_fits(frame@.size, ts) && spec_can_translate(
        spec_frame_transformed(frame, ts),
        spec_bounding_box(frame@.size, ts).0,
    )
}

/// Transform the frame of a body laid out for a transformation: the
/// transformation applies around the point that the alignment picks; with
/// reflow, the frame takes the size of the transformed content's bounding
/// box, with the content moved into it.
pub fn transform_frame(frame: Frame, transform: Transform, align: Axes<FixedAlignment>, reflow: bool) -> (r: Frame)
    requires
        spec_transformed_body_fits(frame, transform, align, reflow),
    ensures
        r@ == spec_transformed_body(frame, transform, align, reflow),
{
    let ghost before = frame;
    let x = align.x.position(frame.size().x);
    let y = align.y.position(frame.size().y);
    let ts = Transform::translate(x, y).pre_concat(transform).pre_concat(
        Transform::translate(x.neg(), y.neg()),
    );
    assert(ts == spec_origin_transform(before@.size, transform, align));
    let mut frame = frame;
    if reflow {
        let (offset, size) = compute_bounding_box(frame.size(), ts);
        frame.transform(ts);
        assert(frame@ == spec_frame_transformed(before, ts));
        frame.translate(offset);
        frame.set_size(size);
    } else {
        frame.transform(ts);
    }
    frame
}


/// A length as a ratio of another, in millionths, rounded down.
pub open spec fn spec_ratio_of(part: int, whole: int) -> int {
    part * (RATIO_ONE as int) / whole
}

/// The ratio of `part` to `whole`, rounded down to a millionth.
fn ratio_of(part: Abs, whole: Abs) -> (r: Ratio)
    requires
        whole.0 != 0,
        in_range(spec_ratio_of(part.0 as int, whole.0 as int)),
    ensures
        r.0 == spec_ratio_of(part.0 as int, whole.0 as int),
{
    proof {
        assert(-0x100_0000_0000_0000_0000_0000_0000 <= part.0 * (RATIO_ONE as int)
            <= 0x100_0000_0000_0000_0000_0000_0000) by (nonlinear_arith)
            requires
                i64::MIN <= part.0 <= i64::MAX,
        ;
    }
    let prod: i128 = (part.0 as i128) * (RATIO_ONE as i128);
    let q = prod.checked_div_euclid(whole.0 as i128).unwrap();
    Ratio(q as i64)
}

/// The scaling factor along one axis: automatic, a given ratio, or the
/// ratio of a given length to the body's extent.
pub open spec fn spec_scale_axis(amount: Smart<ScaleAmount>, font_size: Abs, body: Abs) -> Smart<Ratio> {
    match amount {
        Smart::Auto => Smart::Auto,
        Smart::Custom(ScaleAmount::Ratio(r)) => Smart::Custom(r),
        Smart::Custom(ScaleAmount::Length(l)) => Smart::Custom(
            Ratio(spec_ratio_of(l.spec_at(font_size), body.0 as int) as i64),
        ),
    }
}

/// Whether the scaling factor along one axis can be resolved.
pub open spec fn spec_scale_axis_fits(amount: Smart<ScaleAmount>, font_size: Abs, body: Abs) -> bool {
    amount matches Smart::Custom(ScaleAmount::Length(l)) ==> {
        &&& l.spec_at_fits(font_size)
        &&& body.0 != 0
        &&& in_range(spec_ratio_of(l.spec_at(font_size), body.0 as int))
    }
}

/// Why scaling factors cannot be resolved.
#[derive(Clone, Copy, PartialEq, Eq, Structural, Hash, Debug)]
pub enum ScaleError {
    /// Neither factor is given.
    BothAuto,
}

impl ScaleError {
    /// The message of the error.
    pub fn message(&self) -> (r: &'static str)
        ensures
            r@ == "x and y cannot both be auto"@,
    {
        "x and y cannot both be auto"
    }
}

/// The resolved scaling factors: both as given, or one factor for both
/// axes when the other is automatic; an error when both are.
pub open spec fn spec_resolved_scale(
    x: Smart<Ratio>,
    y: Smart<Ratio>,
) -> Result<Axes<Ratio>, ScaleError> {
    match (x, y) {
        (Smart::Auto, Smart::Auto) => Err(ScaleError::BothAuto),
        (Smart::Custom(a), Smart::Custom(b)) => Ok(Axes { x: a, y: b }),
        (Smart::Auto, Smart::Custom(v)) => Ok(Axes { x: v, y: v }),
        (Smart::Custom(v), Smart::Auto) => Ok(Axes { x: v, y: v }),
    }
}

impl ScaleElem {
    /// Resolves the scaling factors, preserving the aspect ratio if one of
    /// them is automatic. A factor given as a length is relative to the
    /// body's size `body` when laid out into the container.
    pub fn resolve_scale(&self, font_size: Abs, body: Size) -> (r: Result<Axes<Ratio>, ScaleError>)
        requires
            spec_scale_axis_fits(self.x, font_size, body.x),
            spec_scale_axis_fits(self.y, font_size, body.y),
        ensures
            r == spec_resolved_scale(
                spec_scale_axis(self.x, font_size, body.x),
                spec_scale_axis(self.y, font_size, body.y),
            ),
    {
        let x = resolve_scale_axis(self.x, font_size, body.x);
        let y = resolve_scale_axis(self.y, font_size, body.y);
        match (x, y) {
            (Smart::Auto, Smart::Auto) => Err(ScaleError::BothAuto),
            (Smart::Custom(a), Smart::Custom(b)) => Ok(Axes::new(a, b)),
            (Smart::Auto, Smart::Custom(v)) => Ok(Axes::new(v, v)),
            (Smart::Custom(v), Smart::Auto) => Ok(Axes::new(v, v)),
        }
    }
}

/// The scaling factor along one axis.
fn resolve_scale_axis(amount: Smart<ScaleAmount>, font_size: Abs, body: Abs) -> (r: Smart<Ratio>)
    requires
        spec_scale_axis_fits(amount, font_size, body),
    ensures
        r == spec_scale_axis(amount, font_size, body),
{
    match amount {
        Smart::Auto => Smart::Auto,
        Smart::Custom(ScaleAmount::Ratio(r)) => Smart::Custom(r),
        Smart::Custom(ScaleAmount::Length(l)) => Smart::Custom(ratio_of(l.at(font_size), body)),
    }
}

/// A length divided by a scaling factor, as a length of the smallest unit,
/// rounded down and made positive.
pub open spec fn spec_unscaled(r: Abs, s: Ratio) -> int {
    let v = (r.0 as int) * (RATIO_ONE as int) / (s.0 as int);
    if v < 0 {
        -v
    } else {
        v
    }
}

/// The approximate size of the region for content that is scaled by
/// `scale` to fill a region of size `region`: each extent divided by its
/// factor.
pub fn scale_region_size(region: Size, scale: Axes<Ratio>) -> (r: Size)
    requires
        scale.x.0 != 0,
        scale.y.0 != 0,
        in_range(spec_unscaled(region.x, scale.x)),
        in_range(spec_unscaled(region.y, scale.y)),
    ensures
        r.x.0 == spec_unscaled(region.x, scale.x),
        r.y.0 == spec_unscaled(region.y, scale.y),
{
    Axes::new(unscaled(region.x, scale.x), unscaled(region.y, scale.y))
}

/// A length divided by a scaling factor, made positive.
fn unscaled(r: Abs, s: Ratio) -> (v: Abs)
    requires
        s.0 != 0,
        in_range(spec_unscaled(r, s)),
    ensures
        v.0 == spec_unscaled(r, s),
{
    proof {
        assert(-0x100_0000_0000_0000_0000_0000_0000 <= r.0 * (RATIO_ONE as int)
            <= 0x100_0000_0000_0000_0000_0000_0000) by (nonlinear_arith)
            requires
                i64::MIN <= r.0 <= i64::MAX,
        ;
    }
    let prod: i128 = (r.0 as i128) * (RATIO_ONE as i128);
    let q = prod.checked_div_euclid(s.0 as i128).unwrap();
    if q < 0 {
        Abs((-q) as i64)
    } else {
        Abs(q as i64)
    }
}

} // verus!
