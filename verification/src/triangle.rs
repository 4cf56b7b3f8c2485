//! Triangle rasterization: exact barycentric coordinates, the
//! bounding-box (barycentric) fill, and the sweep-line fill.

use vstd::prelude::*;
use crate::basetype::{Bbox2, Pixel, Point2, point_in_range};
use crate::num::{ceil_div, ceil_div_i64, floor_div, floor_div_i64, round_div, round_div_i64, COORD_LIMIT, PIXEL_SCALE};

verus! {

/// Exact barycentric coordinates of a point with respect to a triangle:
/// the weight triple `(alpha, beta, gamma)` is
/// `(alpha_num / denom, beta_num / denom, gamma_num / denom)`.
///
/// A degenerate (zero-area) triangle yields the sentinel `(-1, 1, 1)`
/// over denominator 1, which always fails the inside test.
#[derive(Clone, Copy, PartialEq, Eq, Structural, Debug)]
pub struct BaryCoord {
    pub alpha_num: i128,
    pub beta_num: i128,
    pub gamma_num: i128,
    pub denom: i128,
}

/// Dot product of two 2D integer vectors.
pub open spec fn dot2(ax: int, ay: int, bx: int, by: int) -> int {
    ax * bx + ay * by
}

/// The common denominator of the barycentric formulas:
/// `dot(v0,v0) * dot(v1,v1) - dot(v0,v1)^2` for `v0 = p1-p0, v1 = p2-p0`.
pub open spec fn bary_denom(p0: Point2, p1: Point2, p2: Point2) -> int {
    let d00 = dot2(p1.x - p0.x, p1.y - p0.y, p1.x - p0.x, p1.y - p0.y);
    let d01 = dot2(p1.x - p0.x, p1.y - p0.y, p2.x - p0.x, p2.y - p0.y);
    let d11 = dot2(p2.x - p0.x, p2.y - p0.y, p2.x - p0.x, p2.y - p0.y);
    d00 * d11 - d01 * d01
}

/// Numerator of the `beta` weight.
pub open spec fn bary_beta_num(p0: Point2, p1: Point2, p2: Point2, p: Point2) -> int {
    let d01 = dot2(p1.x - p0.x, p1.y - p0.y, p2.x - p0.x, p2.y - p0.y);
    let d02 = dot2(p1.x - p0.x, p1.y - p0.y, p.x - p0.x, p.y - p0.y);
    let d11 = dot2(p2.x - p0.x, p2.y - p0.y, p2.x - p0.x, p2.y - p0.y);
    let d12 = dot2(p2.x - p0.x, p2.y - p0.y, p.x - p0.x, p.y - p0.y);
    d11 * d02 - d01 * d12
}

/// Numerator of the `gamma` weight.
pub open spec fn bary_gamma_num(p0: Point2, p1: Point2, p2: Point2, p: Point2) -> int {
    let d00 = dot2(p1.x - p0.x, p1.y - p0.y, p1.x - p0.x, p1.y - p0.y);
    let d01 = dot2(p1.x - p0.x, p1.y - p0.y, p2.x - p0.x, p2.y - p0.y);
    let d02 = dot2(p1.x - p0.x, p1.y - p0.y, p.x - p0.x, p.y - p0.y);
    let d12 = dot2(p2.x - p0.x, p2.y - p0.y, p.x - p0.x, p.y - p0.y);
    d00 * d12 - d01 * d02
}

/// Twice the signed area of the triangle.
pub open spec fn cross2(p0: Point2, p1: Point2, p2: Point2) -> int {
    (p1.x - p0.x) * (p2.y - p0.y) - (p1.y - p0.y) * (p2.x - p0.x)
}

/// The exact barycentric coordinate of `p` in the triangle `p0 p1 p2`.
pub open spec fn bary_coord_spec(p0: Point2, p1: Point2, p2: Point2, p: Point2) -> BaryCoord {
    let den = bary_denom(p0, p1, p2);
    if den == 0 {
        BaryCoord { alpha_num: -1 as i128, beta_num: 1 as i128, gamma_num: 1 as i128, denom: 1 as i128 }
    } else {
        let b = bary_beta_num(p0, p1, p2, p);
        let g = bary_gamma_num(p0, p1, p2, p);
        BaryCoord {
            alpha_num: (den - b - g) as i128,
            beta_num: b as i128,
            gamma_num: g as i128,
            denom: den as i128,
        }
    }
}

/// All three weights are nonnegative (boundary-inclusive inside test).
pub open spec fn bary_inside(c: BaryCoord) -> bool {
    c.alpha_num >= 0 && c.beta_num >= 0 && c.gamma_num >= 0
}

/// By the Lagrange identity the denominator is the square of twice the
/// triangle's signed area; in particular it is zero exactly for a
/// degenerate triangle and positive otherwise.
#[verifier::rlimit(100)]
pub proof fn lemma_bary_denom_is_cross_squared(p0: Point2, p1: Point2, p2: Point2)
    ensures
        bary_denom(p0, p1, p2) == cross2(p0, p1, p2) * cross2(p0, p1, p2),
        bary_denom(p0, p1, p2) >= 0,
{
    let a = p1.x - p0.x;
    let b = p1.y - p0.y;
    let c = p2.x - p0.x;
    let d = p2.y - p0.y;
    let ac = a * c;
    let ad = a * d;
    let bc = b * c;
    let bd = b * d;
    assert((a * a + b * b) * (c * c + d * d) == (a * a) * (c * c) + (a * a) * (d * d) + (b * b)
        * (c * c) + (b * b) * (d * d)) by (nonlinear_arith);
    assert((a * a) * (c * c) == ac * ac) by (nonlinear_arith)
        requires
            ac == a * c,
    ;
    assert((a * a) * (d * d) == ad * ad) by (nonlinear_arith)
        requires
            ad == a * d,
    ;
    assert((b * b) * (c * c) == bc * bc) by (nonlinear_arith)
        requires
            bc == b * c,
    ;
    assert((b * b) * (d * d) == bd * bd) by (nonlinear_arith)
        requires
            bd == b * d,
    ;
    assert((ac + bd) * (ac + bd) == ac * ac + 2 * (ac * bd) + bd * bd) by (nonlinear_arith);
    assert((ad - bc) * (ad - bc) == ad * ad - 2 * (ad * bc) + bc * bc) by (nonlinear_arith);
    assert(ac * bd == ad * bc) by (nonlinear_arith)
        requires
            ac == a * c && ad == a * d && bc == b * c && bd == b * d,
    ;
    assert((ad - bc) * (ad - bc) >= 0) by (nonlinear_arith);
}

/// `|a * b| <= ma * mb` whenever `|a| <= ma` and `|b| <= mb`.
pub proof fn lemma_abs_mul_le(a: int, b: int, ma: int, mb: int)
    requires
        -ma <= a <= ma,
        -mb <= b <= mb,
    ensures
        -(ma * mb) <= a * b <= ma * mb,
{
    assert(-(ma * mb) <= a * b <= ma * mb) by (nonlinear_arith)
        requires
            -ma <= a <= ma && -mb <= b <= mb,
    ;
}

/// Computes the exact barycentric coordinate of `p` with respect to the
/// triangle `p_0 p_1 p_2` by the dot-product (Cramer's rule) formulas.
/// A zero denominator (degenerate triangle) yields the sentinel
/// `(-1, 1, 1)`.
pub fn compute_barycentric_coordinate(p_0: &Point2, p_1: &Point2, p_2: &Point2, p: &Point2) -> (r:
    BaryCoord)
    requires
        point_in_range(*p_0),
        point_in_range(*p_1),
        point_in_range(*p_2),
        point_in_range(*p),
    ensures
        r == bary_coord_spec(*p_0, *p_1, *p_2, *p),
{
    let v_0_x: i128 = (p_1.x - p_0.x) as i128;
    let v_0_y: i128 = (p_1.y - p_0.y) as i128;
    let v_1_x: i128 = (p_2.x - p_0.x) as i128;
    let v_1_y: i128 = (p_2.y - p_0.y) as i128;
    let v_2_x: i128 = (p.x - p_0.x) as i128;
    let v_2_y: i128 = (p.y - p_0.y) as i128;
    proof {
        let m: int = 0x200_0000;
        lemma_abs_mul_le(v_0_x as int, v_0_x as int, m, m);
        lemma_abs_mul_le(v_0_y as int, v_0_y as int, m, m);
        lemma_abs_mul_le(v_0_x as int, v_1_x as int, m, m);
        lemma_abs_mul_le(v_0_y as int, v_1_y as int, m, m);
        lemma_abs_mul_le(v_0_x as int, v_2_x as int, m, m);
        lemma_abs_mul_le(v_0_y as int, v_2_y as int, m, m);
        lemma_abs_mul_le(v_1_x as int, v_1_x as int, m, m);
        lemma_abs_mul_le(v_1_y as int, v_1_y as int, m, m);
        lemma_abs_mul_le(v_1_x as int, v_2_x as int, m, m);
        lemma_abs_mul_le(v_1_y as int, v_2_y as int, m, m);
    }

    let dot_00: i128 = v_0_x * v_0_x + v_0_y * v_0_y;
    let dot_01: i128 = v_0_x * v_1_x + v_0_y * v_1_y;
    let dot_02: i128 = v_0_x * v_2_x + v_0_y * v_2_y;
    let dot_11: i128 = v_1_x * v_1_x + v_1_y * v_1_y;
    let dot_12: i128 = v_1_x * v_2_x + v_1_y * v_2_y;
    proof {
        let md: int = 0x8_0000_0000_0000;
        lemma_abs_mul_le(dot_00 as int, dot_11 as int, md, md);
        lemma_abs_mul_le(dot_01 as int, dot_01 as int, md, md);
        lemma_abs_mul_le(dot_11 as int, dot_02 as int, md, md);
        lemma_abs_mul_le(dot_01 as int, dot_12 as int, md, md);
        lemma_abs_mul_le(dot_00 as int, dot_12 as int, md, md);
        lemma_abs_mul_le(dot_01 as int, dot_02 as int, md, md);
    }

    let denom: i128 = dot_00 * dot_11 - dot_01 * dot_01;

    if denom == 0 {
        return BaryCoord { alpha_num: -1, beta_num: 1, gamma_num: 1, denom: 1 };
    }
    let beta: i128 = dot_11 * dot_02 - dot_01 * dot_12;
    let gamma: i128 = dot_00 * dot_12 - dot_01 * dot_02;
    BaryCoord { alpha_num: denom - beta - gamma, beta_num: beta, gamma_num: gamma, denom }
}

/// A point is inside the triangle (boundary included) exactly when all
/// three of its barycentric weights are nonnegative.
pub fn is_barycentric_coordinate_inside(bary_coord: &BaryCoord) -> (r: bool)
    ensures
        r == bary_inside(*bary_coord),
{
    bary_coord.alpha_num >= 0 && bary_coord.beta_num >= 0 && bary_coord.gamma_num >= 0
}

/// The smallest of three values.
pub open spec fn min3_i64(a: i64, b: i64, c: i64) -> i64 {
    if a <= b && a <= c {
        a
    } else if b <= c {
        b
    } else {
        c
    }
}

/// The largest of three values.
pub open spec fn max3_i64(a: i64, b: i64, c: i64) -> i64 {
    if a >= b && a >= c {
        a
    } else if b >= c {
        b
    } else {
        c
    }
}

/// The minimal axis-aligned box enclosing the three vertices.
pub open spec fn triangle_bbox(p0: Point2, p1: Point2, p2: Point2) -> Bbox2 {
    Bbox2 {
        left: min3_i64(p0.x, p1.x, p2.x),
        right: max3_i64(p0.x, p1.x, p2.x),
        bottom: min3_i64(p0.y, p1.y, p2.y),
        top: max3_i64(p0.y, p1.y, p2.y),
    }
}

/// The fixed-point position of the center of pixel `(x, y)`.
pub open spec fn pixel_center(x: int, y: int) -> Point2 {
    Point2 { x: (x * (PIXEL_SCALE as int)) as i64, y: (y * (PIXEL_SCALE as int)) as i64 }
}

/// What the barycentric fill emits for the single pixel `(x, y)`: the
/// pixel with its weights when the inside test passes, nothing otherwise.
pub open spec fn bary_cell(p0: Point2, p1: Point2, p2: Point2, x: int, y: int) -> Seq<
    (Pixel, BaryCoord),
> {
    let c = bary_coord_spec(p0, p1, p2, pixel_center(x, y));
    if bary_inside(c) {
        seq![(Pixel { x: x as i32, y: y as i32 }, c)]
    } else {
        Seq::empty()
    }
}

/// What the barycentric fill emits for column `x`, rows `ylo..=yhi`.
pub open spec fn bary_column(
    p0: Point2,
    p1: Point2,
    p2: Point2,
    x: int,
    ylo: int,
    yhi: int,
) -> Seq<(Pixel, BaryCoord)>
    decreases yhi + 1 - ylo,
{
    if ylo > yhi {
        Seq::empty()
    } else {
        bary_cell(p0, p1, p2, x, ylo) + bary_column(p0, p1, p2, x, ylo + 1, yhi)
    }
}

/// What the barycentric fill emits for the whole box, columns outer.
pub open spec fn bary_box(
    p0: Point2,
    p1: Point2,
    p2: Point2,
    xlo: int,
    xhi: int,
    ylo: int,
    yhi: int,
) -> Seq<(Pixel, BaryCoord)>
    decreases xhi + 1 - xlo,
{
    if xlo > xhi {
        Seq::empty()
    } else {
        bary_column(p0, p1, p2, xlo, ylo, yhi) + bary_box(p0, p1, p2, xlo + 1, xhi, ylo, yhi)
    }
}

/// Everything the barycentric fill emits for a triangle restricted to
/// `viewport`: one entry per inside pixel whose center lies in the
/// intersection of the triangle's bounding box with `viewport` (the box
/// is snapped inward to whole pixels, so no pixel outside it is ever
/// visited).
pub open spec fn bary_pixels_spec(p0: Point2, p1: Point2, p2: Point2, viewport: Bbox2) -> Seq<
    (Pixel, BaryCoord),
> {
    let ib = triangle_bbox(p0, p1, p2).spec_intersect(viewport);
    if ib.spec_nonempty() {
        bary_box(
            p0,
            p1,
            p2,
            ceil_div(ib.left as int, PIXEL_SCALE as int),
            floor_div(ib.right as int, PIXEL_SCALE as int),
            ceil_div(ib.bottom as int, PIXEL_SCALE as int),
            floor_div(ib.top as int, PIXEL_SCALE as int),
        )
    } else {
        Seq::empty()
    }
}

proof fn lemma_bary_box_empty_rows(
    p0: Point2,
    p1: Point2,
    p2: Point2,
    xlo: int,
    xhi: int,
    ylo: int,
    yhi: int,
)
    requires
        ylo > yhi,
    ensures
        bary_box(p0, p1, p2, xlo, xhi, ylo, yhi) == Seq::<(Pixel, BaryCoord)>::empty(),
    decreases xhi + 1 - xlo,
{
    if xlo <= xhi {
        lemma_bary_box_empty_rows(p0, p1, p2, xlo + 1, xhi, ylo, yhi);
        assert(bary_box(p0, p1, p2, xlo, xhi, ylo, yhi) =~= Seq::<(Pixel, BaryCoord)>::empty());
    }
}

proof fn lemma_bary_column_snoc(p0: Point2, p1: Point2, p2: Point2, x: int, ylo: int, yhi: int)
    requires
        ylo <= yhi,
    ensures
        bary_column(p0, p1, p2, x, ylo, yhi) == bary_column(p0, p1, p2, x, ylo, yhi - 1)
            + bary_cell(p0, p1, p2, x, yhi),
    decreases yhi - ylo,
{
    if ylo == yhi {
        assert(bary_column(p0, p1, p2, x, ylo + 1, yhi) == Seq::<(Pixel, BaryCoord)>::empty());
        assert(bary_column(p0, p1, p2, x, ylo, yhi - 1) == Seq::<(Pixel, BaryCoord)>::empty());
        assert(bary_column(p0, p1, p2, x, ylo, yhi) =~= bary_column(p0, p1, p2, x, ylo, yhi - 1)
            + bary_cell(p0, p1, p2, x, yhi));
    } else {
        lemma_bary_column_snoc(p0, p1, p2, x, ylo + 1, yhi);
        assert(bary_column(p0, p1, p2, x, ylo, yhi) == bary_cell(p0, p1, p2, x, ylo)
            + bary_column(p0, p1, p2, x, ylo + 1, yhi));
        assert(bary_column(p0, p1, p2, x, ylo, yhi - 1) == bary_cell(p0, p1, p2, x, ylo)
            + bary_column(p0, p1, p2, x, ylo + 1, yhi - 1));
        assert(bary_column(p0, p1, p2, x, ylo, yhi) =~= bary_column(p0, p1, p2, x, ylo, yhi - 1)
            + bary_cell(p0, p1, p2, x, yhi));
    }
}

proof fn lemma_bary_box_snoc(
    p0: Point2,
    p1: Point2,
    p2: Point2,
    xlo: int,
    xhi: int,
    ylo: int,
    yhi: int,
)
    requires
        xlo <= xhi,
    ensures
        bary_box(p0, p1, p2, xlo, xhi, ylo, yhi) == bary_box(p0, p1, p2, xlo, xhi - 1, ylo, yhi)
            + bary_column(p0, p1, p2, xhi, ylo, yhi),
    decreases xhi - xlo,
{
    if xlo == xhi {
        assert(bary_box(p0, p1, p2, xlo + 1, xhi, ylo, yhi) == Seq::<(Pixel, BaryCoord)>::empty());
        assert(bary_box(p0, p1, p2, xlo, xhi - 1, ylo, yhi) == Seq::<(Pixel, BaryCoord)>::empty());
        assert(bary_box(p0, p1, p2, xlo, xhi, ylo, yhi) =~= bary_box(p0, p1, p2, xlo, xhi - 1, ylo, yhi)
            + bary_column(p0, p1, p2, xhi, ylo, yhi));
    } else {
        lemma_bary_box_snoc(p0, p1, p2, xlo + 1, xhi, ylo, yhi);
        assert(bary_box(p0, p1, p2, xlo, xhi, ylo, yhi) == bary_column(p0, p1, p2, xlo, ylo, yhi)
            + bary_box(p0, p1, p2, xlo + 1, xhi, ylo, yhi));
        assert(bary_box(p0, p1, p2, xlo, xhi - 1, ylo, yhi) == bary_column(p0, p1, p2, xlo, ylo, yhi)
            + bary_box(p0, p1, p2, xlo + 1, xhi - 1, ylo, yhi));
        assert(bary_box(p0, p1, p2, xlo, xhi, ylo, yhi) =~= bary_box(p0, p1, p2, xlo, xhi - 1, ylo, yhi)
            + bary_column(p0, p1, p2, xhi, ylo, yhi));
    }
}

proof fn lemma_bary_column_degenerate(
    p0: Point2,
    p1: Point2,
    p2: Point2,
    x: int,
    ylo: int,
    yhi: int,
)
    requires
        bary_denom(p0, p1, p2) == 0,
    ensures
        bary_column(p0, p1, p2, x, ylo, yhi) == Seq::<(Pixel, BaryCoord)>::empty(),
    decreases yhi + 1 - ylo,
{
    if ylo <= yhi {
        lemma_bary_column_degenerate(p0, p1, p2, x, ylo + 1, yhi);
        assert(bary_column(p0, p1, p2, x, ylo, yhi) =~= Seq::<(Pixel, BaryCoord)>::empty());
    }
}

/// A zero-area triangle yields no pixels at all, whatever the box.
proof fn lemma_bary_box_degenerate(
    p0: Point2,
    p1: Point2,
    p2: Point2,
    xlo: int,
    xhi: int,
    ylo: int,
    yhi: int,
)
    requires
        bary_denom(p0, p1, p2) == 0,
    ensures
        bary_box(p0, p1, p2, xlo, xhi, ylo, yhi) == Seq::<(Pixel, BaryCoord)>::empty(),
    decreases xhi + 1 - xlo,
{
    if xlo <= xhi {
        lemma_bary_column_degenerate(p0, p1, p2, xlo, ylo, yhi);
        lemma_bary_box_degenerate(p0, p1, p2, xlo + 1, xhi, ylo, yhi);
        assert(bary_box(p0, p1, p2, xlo, xhi, ylo, yhi) =~= Seq::<(Pixel, BaryCoord)>::empty());
    }
}

/// Intersects the triangle's bounding box with `viewport` and, when the
/// intersection is nonempty, emits every pixel center within it whose
/// center passes the boundary-inclusive barycentric inside test, columns
/// outer and rows inner, together with its exact weights. A zero-area
/// triangle emits nothing.
pub fn travel_triangle_barycentric(
    p_0: &Point2,
    p_1: &Point2,
    p_2: &Point2,
    viewport: &Bbox2,
) -> (r: Vec<(Pixel, BaryCoord)>)
    requires
        point_in_range(*p_0),
        point_in_range(*p_1),
        point_in_range(*p_2),
    ensures
        r@ == bary_pixels_spec(*p_0, *p_1, *p_2, *viewport),
        bary_denom(*p_0, *p_1, *p_2) == 0 ==> r@ == Seq::<(Pixel, BaryCoord)>::empty(),
{
    let mut pts: Vec<Point2> = Vec::new();
    pts.push(*p_0);
    pts.push(*p_1);
    pts.push(*p_2);
    let tb: Bbox2 = match Bbox2::from_points(&pts) {
        Some(t) => t,
        None => {
            proof {
                assert(false);
            }
            Bbox2::new(0, -1, 0, -1)
        },
    };
    proof {
        assert(pts@[0] == *p_0 && pts@[1] == *p_1 && pts@[2] == *p_2);
        assert(tb.left <= pts@[0].x <= tb.right && tb.bottom <= pts@[0].y <= tb.top);
        assert(tb.left <= pts@[1].x <= tb.right && tb.bottom <= pts@[1].y <= tb.top);
        assert(tb.left <= pts@[2].x <= tb.right && tb.bottom <= pts@[2].y <= tb.top);
        assert(tb == triangle_bbox(*p_0, *p_1, *p_2));
    }
    let mut out: Vec<(Pixel, BaryCoord)> = Vec::new();
    let clipped = tb.intersect(viewport);
    if clipped.is_none() {
        return out;
    }
    let bbox = clipped.unwrap();
    let ghost p0 = *p_0;
    let ghost p1 = *p_1;
    let ghost p2 = *p_2;
    proof {
        assert(-COORD_LIMIT <= tb.left && tb.right <= COORD_LIMIT && -COORD_LIMIT <= tb.bottom
            && tb.top <= COORD_LIMIT);
        assert(-COORD_LIMIT <= bbox.left <= bbox.right <= COORD_LIMIT);
        assert(-COORD_LIMIT <= bbox.bottom <= bbox.top <= COORD_LIMIT);
        crate::num::lemma_div_range(bbox.left as int, PIXEL_SCALE as int, -0x1_0000, 0x1_0000);
        crate::num::lemma_div_range(bbox.right as int, PIXEL_SCALE as int, -0x1_0000, 0x1_0000);
        crate::num::lemma_div_range(bbox.bottom as int, PIXEL_SCALE as int, -0x1_0000, 0x1_0000);
        crate::num::lemma_div_range(bbox.top as int, PIXEL_SCALE as int, -0x1_0000, 0x1_0000);
    }
    let x_lo: i64 = ceil_div_i64(bbox.left, PIXEL_SCALE);
    let x_hi: i64 = floor_div_i64(bbox.right, PIXEL_SCALE);
    let y_lo: i64 = ceil_div_i64(bbox.bottom, PIXEL_SCALE);
    let y_hi: i64 = floor_div_i64(bbox.top, PIXEL_SCALE);
    if x_lo > x_hi || y_lo > y_hi {
        // the intersection is narrower than one whole pixel on some axis
        proof {
            if y_lo > y_hi {
                lemma_bary_box_empty_rows(
                    p0,
                    p1,
                    p2,
                    x_lo as int,
                    x_hi as int,
                    y_lo as int,
                    y_hi as int,
                );
            }
        }
        return out;
    }
    let mut x: i64 = x_lo;
    while x <= x_hi
        invariant
            p0 == *p_0 && p1 == *p_1 && p2 == *p_2,
            point_in_range(p0) && point_in_range(p1) && point_in_range(p2),
            -0x1_0000 <= x_lo <= x_hi <= 0x1_0000,
            -0x1_0000 <= y_lo <= y_hi <= 0x1_0000,
            x_lo <= x <= x_hi + 1,
            out@ == bary_box(p0, p1, p2, x_lo as int, x - 1, y_lo as int, y_hi as int),
        decreases x_hi + 1 - x,
    {
        let mut y: i64 = y_lo;
        while y <= y_hi
            invariant
                p0 == *p_0 && p1 == *p_1 && p2 == *p_2,
                point_in_range(p0) && point_in_range(p1) && point_in_range(p2),
                -0x1_0000 <= x_lo <= x_hi <= 0x1_0000,
                -0x1_0000 <= y_lo <= y_hi <= 0x1_0000,
                x_lo <= x <= x_hi,
                y_lo <= y <= y_hi + 1,
                out@ == bary_box(p0, p1, p2, x_lo as int, x - 1, y_lo as int, y_hi as int)
                    + bary_column(p0, p1, p2, x as int, y_lo as int, y - 1),
            decreases y_hi + 1 - y,
        {
            let center = Point2 { x: x * PIXEL_SCALE, y: y * PIXEL_SCALE };
            let c = compute_barycentric_coordinate(p_0, p_1, p_2, &center);
            let ghost before = out@;
            if is_barycentric_coordinate_inside(&c) {
                out.push((Pixel { x: x as i32, y: y as i32 }, c));
            }
            proof {
                assert(center == pixel_center(x as int, y as int));
                assert(out@ =~= before + bary_cell(p0, p1, p2, x as int, y as int));
                lemma_bary_column_snoc(p0, p1, p2, x as int, y_lo as int, y as int);
                assert(out@ =~= bary_box(p0, p1, p2, x_lo as int, x - 1, y_lo as int, y_hi as int)
                    + bary_column(p0, p1, p2, x as int, y_lo as int, y as int));
            }
            y = y + 1;
        }
        proof {
            lemma_bary_box_snoc(p0, p1, p2, x_lo as int, x as int, y_lo as int, y_hi as int);
            assert(out@ =~= bary_box(p0, p1, p2, x_lo as int, x as int, y_lo as int, y_hi as int));
        }
        x = x + 1;
    }
    proof {
        if bary_denom(p0, p1, p2) == 0 {
            lemma_bary_box_degenerate(
                p0,
                p1,
                p2,
                x_lo as int,
                x_hi as int,
                y_lo as int,
                y_hi as int,
            );
        }
    }
    out
}

/// A fixed-point coordinate rounded to its nearest integer pixel.
pub open spec fn round_coord(c: i64) -> int {
    round_div(c as int, PIXEL_SCALE as int)
}

/// The three vertices sorted by ascending `y`, ties keeping input order
/// (the order a stable sort produces).
pub open spec fn sort3_by_y(p0: Point2, p1: Point2, p2: Point2) -> (Point2, Point2, Point2) {
    if p0.y <= p1.y {
        if p1.y <= p2.y {
            (p0, p1, p2)
        } else if p0.y <= p2.y {
            (p0, p2, p1)
        } else {
            (p2, p0, p1)
        }
    } else {
        if p0.y <= p2.y {
            (p1, p0, p2)
        } else if p1.y <= p2.y {
            (p1, p2, p0)
        } else {
            (p2, p1, p0)
        }
    }
}

/// The rounded span bounds of scanline `y`, for rounded vertices sorted by
/// ascending `y` with `y0 < y2`: the long-edge intersection and the
/// applicable short-edge intersection, in ascending order.
pub open spec fn sweep_span(x0: int, y0: int, x1: int, y1: int, x2: int, y2: int, y: int) -> (
    int,
    int,
)
    recommends
        y0 < y2,
{
    let xl = round_div(x0 * (y2 - y0) + (x2 - x0) * (y - y0), y2 - y0);
    let second = y > y1 || y0 == y1;
    let xr = if second {
        round_div(x1 * (y2 - y1) + (x2 - x1) * (y - y1), y2 - y1)
    } else {
        round_div(x0 * (y1 - y0) + (x1 - x0) * (y - y0), y1 - y0)
    };
    if xl <= xr {
        (xl, xr)
    } else {
        (xr, xl)
    }
}

/// The pixels of one horizontal run, `x` from `xl` to `xr` inclusive.
pub open spec fn span_row(xl: int, xr: int, y: int) -> Seq<Pixel>
    decreases xr + 1 - xl,
{
    if xl > xr {
        Seq::empty()
    } else {
        seq![Pixel { x: xl as i32, y: y as i32 }] + span_row(xl + 1, xr, y)
    }
}

/// The pixels the sweep emits for scanline `y`.
pub open spec fn sweep_row(x0: int, y0: int, x1: int, y1: int, x2: int, y2: int, y: int) -> Seq<
    Pixel,
> {
    let span = sweep_span(x0, y0, x1, y1, x2, y2, y);
    span_row(span.0, span.1, y)
}

/// The pixels the sweep emits for scanlines `y..=yend`, in order.
pub open spec fn sweep_rows(
    x0: int,
    y0: int,
    x1: int,
    y1: int,
    x2: int,
    y2: int,
    y: int,
    yend: int,
) -> Seq<Pixel>
    decreases yend + 1 - y,
{
    if y > yend {
        Seq::empty()
    } else {
        sweep_row(x0, y0, x1, y1, x2, y2, y) + sweep_rows(x0, y0, x1, y1, x2, y2, y + 1, yend)
    }
}

/// Everything the sweep-line fill emits for a triangle: vertices sorted by
/// `y` and rounded to pixels, then one contiguous span per scanline from
/// the lowest to the highest rounded `y`; nothing when the three rounded
/// `y` coordinates coincide.
pub open spec fn sweep_pixels_spec(p0: Point2, p1: Point2, p2: Point2) -> Seq<Pixel> {
    let sorted = sort3_by_y(p0, p1, p2);
    let x0 = round_coord(sorted.0.x);
    let y0 = round_coord(sorted.0.y);
    let x1 = round_coord(sorted.1.x);
    let y1 = round_coord(sorted.1.y);
    let x2 = round_coord(sorted.2.x);
    let y2 = round_coord(sorted.2.y);
    if y0 == y1 && y1 == y2 {
        Seq::empty()
    } else {
        sweep_rows(x0, y0, x1, y1, x2, y2, y0, y2)
    }
}

proof fn lemma_span_row_snoc(xl: int, xr: int, y: int)
    requires
        xl <= xr,
    ensures
        span_row(xl, xr, y) == span_row(xl, xr - 1, y) + seq![Pixel { x: xr as i32, y: y as i32 }],
    decreases xr - xl,
{
    if xl == xr {
        assert(span_row(xl + 1, xr, y) == Seq::<Pixel>::empty());
        assert(span_row(xl, xr - 1, y) == Seq::<Pixel>::empty());
        assert(span_row(xl, xr, y) =~= span_row(xl, xr - 1, y) + seq![
            Pixel { x: xr as i32, y: y as i32 },
        ]);
    } else {
        lemma_span_row_snoc(xl + 1, xr, y);
        assert(span_row(xl, xr, y) == seq![Pixel { x: xl as i32, y: y as i32 }] + span_row(
            xl + 1,
            xr,
            y,
        ));
        assert(span_row(xl, xr - 1, y) == seq![Pixel { x: xl as i32, y: y as i32 }] + span_row(
            xl + 1,
            xr - 1,
            y,
        ));
        assert(span_row(xl, xr, y) =~= span_row(xl, xr - 1, y) + seq![
            Pixel { x: xr as i32, y: y as i32 },
        ]);
    }
}

proof fn lemma_sweep_rows_snoc(
    x0: int,
    y0: int,
    x1: int,
    y1: int,
    x2: int,
    y2: int,
    y: int,
    yend: int,
)
    requires
        y <= yend,
    ensures
        sweep_rows(x0, y0, x1, y1, x2, y2, y, yend) == sweep_rows(
            x0,
            y0,
            x1,
            y1,
            x2,
            y2,
            y,
            yend - 1,
        ) + sweep_row(x0, y0, x1, y1, x2, y2, yend),
    decreases yend - y,
{
    if y == yend {
        assert(sweep_rows(x0, y0, x1, y1, x2, y2, y + 1, yend) == Seq::<Pixel>::empty());
        assert(sweep_rows(x0, y0, x1, y1, x2, y2, y, yend - 1) == Seq::<Pixel>::empty());
        assert(sweep_rows(x0, y0, x1, y1, x2, y2, y, yend) =~= sweep_rows(
            x0,
            y0,
            x1,
            y1,
            x2,
            y2,
            y,
            yend - 1,
        ) + sweep_row(x0, y0, x1, y1, x2, y2, yend));
    } else {
        lemma_sweep_rows_snoc(x0, y0, x1, y1, x2, y2, y + 1, yend);
        assert(sweep_rows(x0, y0, x1, y1, x2, y2, y, yend) == sweep_row(x0, y0, x1, y1, x2, y2, y)
            + sweep_rows(x0, y0, x1, y1, x2, y2, y + 1, yend));
        assert(sweep_rows(x0, y0, x1, y1, x2, y2, y, yend - 1) == sweep_row(
            x0,
            y0,
            x1,
            y1,
            x2,
            y2,
            y,
        ) + sweep_rows(x0, y0, x1, y1, x2, y2, y + 1, yend - 1));
        assert(sweep_rows(x0, y0, x1, y1, x2, y2, y, yend) =~= sweep_rows(
            x0,
            y0,
            x1,
            y1,
            x2,
            y2,
            y,
            yend - 1,
        ) + sweep_row(x0, y0, x1, y1, x2, y2, yend));
    }
}

/// Rounding a fixed-point coordinate within [`COORD_LIMIT`] lands in
/// `[-65536, 65536]`.
proof fn lemma_round_coord_range(c: i64)
    requires
        -COORD_LIMIT <= c <= COORD_LIMIT,
    ensures
        -0x1_0000 <= round_coord(c) <= 0x1_0000,
{
    crate::num::lemma_round_div_bounds(c as int, PIXEL_SCALE as int, -0x1_0000, 0x1_0000);
}

/// Sorts the vertices by ascending `y` (stable), rounds them to integer
/// pixels, and emits one contiguous horizontal span per scanline between
/// the lowest and highest rounded `y`, bottom row first, left to right.
/// A triangle whose three rounded `y` coordinates coincide emits nothing.
pub fn travel_triangle_sweep_line(p_0: &Point2, p_1: &Point2, p_2: &Point2) -> (r: Vec<Pixel>)
    requires
        point_in_range(*p_0),
        point_in_range(*p_1),
        point_in_range(*p_2),
    ensures
        r@ == sweep_pixels_spec(*p_0, *p_1, *p_2),
        round_coord(p_0.y) == round_coord(p_1.y) && round_coord(p_1.y) == round_coord(p_2.y)
            ==> r@ == Seq::<Pixel>::empty(),
{
    let sorted: (Point2, Point2, Point2) = if p_0.y <= p_1.y {
        if p_1.y <= p_2.y {
            (*p_0, *p_1, *p_2)
        } else if p_0.y <= p_2.y {
            (*p_0, *p_2, *p_1)
        } else {
            (*p_2, *p_0, *p_1)
        }
    } else {
        if p_0.y <= p_2.y {
            (*p_1, *p_0, *p_2)
        } else if p_1.y <= p_2.y {
            (*p_1, *p_2, *p_0)
        } else {
            (*p_2, *p_1, *p_0)
        }
    };
    proof {
        assert(sorted == sort3_by_y(*p_0, *p_1, *p_2));
        lemma_round_coord_range(sorted.0.x);
        lemma_round_coord_range(sorted.0.y);
        lemma_round_coord_range(sorted.1.x);
        lemma_round_coord_range(sorted.1.y);
        lemma_round_coord_range(sorted.2.x);
        lemma_round_coord_range(sorted.2.y);
    }
    let x_0: i64 = round_div_i64(sorted.0.x, PIXEL_SCALE);
    let y_0: i64 = round_div_i64(sorted.0.y, PIXEL_SCALE);
    let x_1: i64 = round_div_i64(sorted.1.x, PIXEL_SCALE);
    let y_1: i64 = round_div_i64(sorted.1.y, PIXEL_SCALE);
    let x_2: i64 = round_div_i64(sorted.2.x, PIXEL_SCALE);
    let y_2: i64 = round_div_i64(sorted.2.y, PIXEL_SCALE);
    let mut out: Vec<Pixel> = Vec::new();
    if y_0 == y_1 && y_1 == y_2 {
        return out;
    }
    proof {
        crate::num::lemma_round_div_monotone(sorted.0.y as int, sorted.1.y as int, PIXEL_SCALE as int);
        crate::num::lemma_round_div_monotone(sorted.1.y as int, sorted.2.y as int, PIXEL_SCALE as int);
    }
    let mut y: i64 = y_0;
    while y <= y_2
        invariant
            sorted == sort3_by_y(*p_0, *p_1, *p_2),
            x_0 == round_coord(sorted.0.x) && y_0 == round_coord(sorted.0.y),
            x_1 == round_coord(sorted.1.x) && y_1 == round_coord(sorted.1.y),
            x_2 == round_coord(sorted.2.x) && y_2 == round_coord(sorted.2.y),
            -0x1_0000 <= x_0 <= 0x1_0000 && -0x1_0000 <= y_0 <= 0x1_0000,
            -0x1_0000 <= x_1 <= 0x1_0000 && -0x1_0000 <= y_1 <= 0x1_0000,
            -0x1_0000 <= x_2 <= 0x1_0000 && -0x1_0000 <= y_2 <= 0x1_0000,
            y_0 <= y_1 <= y_2,
            y_0 < y_2,
            y_0 <= y <= y_2 + 1,
            out@ == sweep_rows(
                x_0 as int,
                y_0 as int,
                x_1 as int,
                y_1 as int,
                x_2 as int,
                y_2 as int,
                y_0 as int,
                y - 1,
            ),
        decreases y_2 + 1 - y,
    {
        proof {
            lemma_abs_mul_le(x_0 as int, y_2 as int - y_0 as int, 0x1_0000, 0x2_0000);
            lemma_abs_mul_le(x_2 as int - x_0 as int, y as int - y_0 as int, 0x2_0000, 0x2_0000);
            lemma_abs_mul_le(x_1 as int, y_2 as int - y_1 as int, 0x1_0000, 0x2_0000);
            lemma_abs_mul_le(x_2 as int - x_1 as int, y as int - y_1 as int, 0x2_0000, 0x2_0000);
            lemma_abs_mul_le(x_0 as int, y_1 as int - y_0 as int, 0x1_0000, 0x2_0000);
            lemma_abs_mul_le(x_1 as int - x_0 as int, y as int - y_0 as int, 0x2_0000, 0x2_0000);
        }
        let x_l: i64 = round_div_i64(x_0 * (y_2 - y_0) + (x_2 - x_0) * (y - y_0), y_2 - y_0);
        let second = y > y_1 || y_0 == y_1;
        let x_r: i64 = if second {
            round_div_i64(x_1 * (y_2 - y_1) + (x_2 - x_1) * (y - y_1), y_2 - y_1)
        } else {
            round_div_i64(x_0 * (y_1 - y_0) + (x_1 - x_0) * (y - y_0), y_1 - y_0)
        };
        proof {
            let lo = if x_0 <= x_2 { x_0 as int } else { x_2 as int };
            let hi = if x_0 <= x_2 { x_2 as int } else { x_0 as int };
            assert(lo * (y_2 - y_0) <= x_0 * (y_2 - y_0) + (x_2 - x_0) * (y - y_0) <= hi * (y_2
                - y_0)) by (nonlinear_arith)
                requires
                    y_0 < y_2 && y_0 <= y <= y_2 && lo <= x_0 as int <= hi && lo <= x_2 as int
                        <= hi && x_0 as int + (x_2 as int - x_0 as int) == x_2 as int,
            ;
            crate::num::lemma_round_div_bounds(
                x_0 * (y_2 - y_0) + (x_2 - x_0) * (y - y_0),
                y_2 as int - y_0 as int,
                lo,
                hi,
            );
            if second {
                let lo2 = if x_1 <= x_2 { x_1 as int } else { x_2 as int };
                let hi2 = if x_1 <= x_2 { x_2 as int } else { x_1 as int };
                assert(lo2 * (y_2 - y_1) <= x_1 * (y_2 - y_1) + (x_2 - x_1) * (y - y_1) <= hi2 * (
                y_2 - y_1)) by (nonlinear_arith)
                    requires
                        y_1 < y_2 && y_1 <= y <= y_2 && lo2 <= x_1 as int <= hi2 && lo2
                            <= x_2 as int <= hi2,
                ;
                crate::num::lemma_round_div_bounds(
                    x_1 * (y_2 - y_1) + (x_2 - x_1) * (y - y_1),
                    y_2 as int - y_1 as int,
                    lo2,
                    hi2,
                );
            } else {
                let lo2 = if x_0 <= x_1 { x_0 as int } else { x_1 as int };
                let hi2 = if x_0 <= x_1 { x_1 as int } else { x_0 as int };
                assert(lo2 * (y_1 - y_0) <= x_0 * (y_1 - y_0) + (x_1 - x_0) * (y - y_0) <= hi2 * (
                y_1 - y_0)) by (nonlinear_arith)
                    requires
                        y_0 < y_1 && y_0 <= y <= y_1 && lo2 <= x_0 as int <= hi2 && lo2
                            <= x_1 as int <= hi2,
                ;
                crate::num::lemma_round_div_bounds(
                    x_0 * (y_1 - y_0) + (x_1 - x_0) * (y - y_0),
                    y_1 as int - y_0 as int,
                    lo2,
                    hi2,
                );
            }
        }
        let (span_l, span_r): (i64, i64) = if x_l <= x_r {
            (x_l, x_r)
        } else {
            (x_r, x_l)
        };
        let ghost row_start = out@;
        let ghost span = sweep_span(
            x_0 as int,
            y_0 as int,
            x_1 as int,
            y_1 as int,
            x_2 as int,
            y_2 as int,
            y as int,
        );
        proof {
            assert(span.0 == span_l as int && span.1 == span_r as int);
        }
        let mut x: i64 = span_l;
        while x <= span_r
            invariant
                -0x1_0000 <= span_l <= span_r <= 0x1_0000,
                -0x1_0000 <= y <= 0x1_0000 + 1,
                span_l <= x <= span_r + 1,
                out@ == row_start + span_row(span_l as int, x - 1, y as int),
            decreases span_r + 1 - x,
        {
            out.push(Pixel { x: x as i32, y: y as i32 });
            proof {
                lemma_span_row_snoc(span_l as int, x as int, y as int);
                assert(out@ =~= row_start + span_row(span_l as int, x as int, y as int));
            }
            x = x + 1;
        }
        proof {
            assert(out@ == row_start + span_row(span.0, span.1, y as int));
            assert(out@ == row_start + sweep_row(
                x_0 as int,
                y_0 as int,
                x_1 as int,
                y_1 as int,
                x_2 as int,
                y_2 as int,
                y as int,
            ));
            lemma_sweep_rows_snoc(
                x_0 as int,
                y_0 as int,
                x_1 as int,
                y_1 as int,
                x_2 as int,
                y_2 as int,
                y_0 as int,
                y as int,
            );
        }
        y = y + 1;
    }
    out
}

/// An entry of the barycentric fill: an inside pixel whose weights have a
/// positive denominator and sum to it.
pub open spec fn bary_entry_wf(e: (Pixel, BaryCoord)) -> bool {
    &&& bary_inside(e.1)
    &&& e.1.denom >= 1
    &&& e.1.alpha_num + e.1.beta_num + e.1.gamma_num == e.1.denom
    &&& e.1.denom <= 0x40_0000_0000_0000_0000_0000_0000
}

/// Bounds on the barycentric terms of in-range points: every numerator
/// and the denominator stay far inside `i128`.
proof fn lemma_bary_term_bounds(p0: Point2, p1: Point2, p2: Point2, p: Point2)
    requires
        point_in_range(p0),
        point_in_range(p1),
        point_in_range(p2),
        point_in_range(p),
    ensures
        -0x1_0000_0000_0000_0000_0000_0000_0000 <= bary_denom(p0, p1, p2)
            <= 0x1_0000_0000_0000_0000_0000_0000_0000,
        -0x1_0000_0000_0000_0000_0000_0000_0000 <= bary_beta_num(p0, p1, p2, p)
            <= 0x1_0000_0000_0000_0000_0000_0000_0000,
        -0x1_0000_0000_0000_0000_0000_0000_0000 <= bary_gamma_num(p0, p1, p2, p)
            <= 0x1_0000_0000_0000_0000_0000_0000_0000,
{
    let m: int = 0x200_0000;
    let md: int = 0x8_0000_0000_0000;
    lemma_abs_mul_le(p1.x - p0.x, p1.x - p0.x, m, m);
    lemma_abs_mul_le(p1.y - p0.y, p1.y - p0.y, m, m);
    lemma_abs_mul_le(p1.x - p0.x, p2.x - p0.x, m, m);
    lemma_abs_mul_le(p1.y - p0.y, p2.y - p0.y, m, m);
    lemma_abs_mul_le(p1.x - p0.x, p.x - p0.x, m, m);
    lemma_abs_mul_le(p1.y - p0.y, p.y - p0.y, m, m);
    lemma_abs_mul_le(p2.x - p0.x, p2.x - p0.x, m, m);
    lemma_abs_mul_le(p2.y - p0.y, p2.y - p0.y, m, m);
    lemma_abs_mul_le(p2.x - p0.x, p.x - p0.x, m, m);
    lemma_abs_mul_le(p2.y - p0.y, p.y - p0.y, m, m);
    let d00 = dot2(p1.x - p0.x, p1.y - p0.y, p1.x - p0.x, p1.y - p0.y);
    let d01 = dot2(p1.x - p0.x, p1.y - p0.y, p2.x - p0.x, p2.y - p0.y);
    let d02 = dot2(p1.x - p0.x, p1.y - p0.y, p.x - p0.x, p.y - p0.y);
    let d11 = dot2(p2.x - p0.x, p2.y - p0.y, p2.x - p0.x, p2.y - p0.y);
    let d12 = dot2(p2.x - p0.x, p2.y - p0.y, p.x - p0.x, p.y - p0.y);
    lemma_abs_mul_le(d00, d11, md, md);
    lemma_abs_mul_le(d01, d01, md, md);
    lemma_abs_mul_le(d11, d02, md, md);
    lemma_abs_mul_le(d01, d12, md, md);
    lemma_abs_mul_le(d00, d12, md, md);
    lemma_abs_mul_le(d01, d02, md, md);
}

proof fn lemma_bary_cell_wf(p0: Point2, p1: Point2, p2: Point2, x: int, y: int)
    requires
        point_in_range(p0),
        point_in_range(p1),
        point_in_range(p2),
        -0x1_0000 <= x <= 0x1_0000,
        -0x1_0000 <= y <= 0x1_0000,
    ensures
        forall|k: int|
            0 <= k < bary_cell(p0, p1, p2, x, y).len() ==> bary_entry_wf(
                #[trigger] bary_cell(p0, p1, p2, x, y)[k],
            ),
{
    let p = pixel_center(x, y);
    assert(point_in_range(p));
    lemma_bary_term_bounds(p0, p1, p2, p);
    lemma_bary_denom_is_cross_squared(p0, p1, p2);
    lemma_abs_mul_le(p1.x - p0.x, p2.y - p0.y, 0x200_0000, 0x200_0000);
    lemma_abs_mul_le(p1.y - p0.y, p2.x - p0.x, 0x200_0000, 0x200_0000);
    let cr = cross2(p0, p1, p2);
    lemma_abs_mul_le(cr, cr, 0x8_0000_0000_0000, 0x8_0000_0000_0000);
    let c = bary_coord_spec(p0, p1, p2, p);
    assert(c.denom >= 1 && c.alpha_num + c.beta_num + c.gamma_num == c.denom && c.denom
        <= 0x40_0000_0000_0000_0000_0000_0000);
}

proof fn lemma_bary_column_wf(p0: Point2, p1: Point2, p2: Point2, x: int, ylo: int, yhi: int)
    requires
        point_in_range(p0),
        point_in_range(p1),
        point_in_range(p2),
        -0x1_0000 <= x <= 0x1_0000,
        -0x1_0000 <= ylo,
        yhi <= 0x1_0000,
    ensures
        forall|k: int|
            0 <= k < bary_column(p0, p1, p2, x, ylo, yhi).len() ==> bary_entry_wf(
                #[trigger] bary_column(p0, p1, p2, x, ylo, yhi)[k],
            ),
    decreases yhi + 1 - ylo,
{
    if ylo <= yhi {
        lemma_bary_cell_wf(p0, p1, p2, x, ylo);
        lemma_bary_column_wf(p0, p1, p2, x, ylo + 1, yhi);
        let cell = bary_cell(p0, p1, p2, x, ylo);
        let rest = bary_column(p0, p1, p2, x, ylo + 1, yhi);
        assert forall|k: int|
            0 <= k < bary_column(p0, p1, p2, x, ylo, yhi).len() implies bary_entry_wf(
            #[trigger] bary_column(p0, p1, p2, x, ylo, yhi)[k],
        ) by {
            if k < cell.len() {
                assert(bary_column(p0, p1, p2, x, ylo, yhi)[k] == cell[k]);
            } else {
                assert(bary_column(p0, p1, p2, x, ylo, yhi)[k] == rest[k - cell.len()]);
            }
        }
    }
}

proof fn lemma_bary_box_wf(
    p0: Point2,
    p1: Point2,
    p2: Point2,
    xlo: int,
    xhi: int,
    ylo: int,
    yhi: int,
)
    requires
        point_in_range(p0),
        point_in_range(p1),
        point_in_range(p2),
        -0x1_0000 <= xlo,
        xhi <= 0x1_0000,
        -0x1_0000 <= ylo,
        yhi <= 0x1_0000,
    ensures
        forall|k: int|
            0 <= k < bary_box(p0, p1, p2, xlo, xhi, ylo, yhi).len() ==> bary_entry_wf(
                #[trigger] bary_box(p0, p1, p2, xlo, xhi, ylo, yhi)[k],
            ),
    decreases xhi + 1 - xlo,
{
    if xlo <= xhi {
        lemma_bary_column_wf(p0, p1, p2, xlo, ylo, yhi);
        lemma_bary_box_wf(p0, p1, p2, xlo + 1, xhi, ylo, yhi);
        let col = bary_column(p0, p1, p2, xlo, ylo, yhi);
        let rest = bary_box(p0, p1, p2, xlo + 1, xhi, ylo, yhi);
        assert forall|k: int|
            0 <= k < bary_box(p0, p1, p2, xlo, xhi, ylo, yhi).len() implies bary_entry_wf(
            #[trigger] bary_box(p0, p1, p2, xlo, xhi, ylo, yhi)[k],
        ) by {
            if k < col.len() {
                assert(bary_box(p0, p1, p2, xlo, xhi, ylo, yhi)[k] == col[k]);
            } else {
                assert(bary_box(p0, p1, p2, xlo, xhi, ylo, yhi)[k] == rest[k - col.len()]);
            }
        }
    }
}

/// Every entry the barycentric fill emits is an inside pixel whose
/// weights are well-formed.
pub proof fn lemma_bary_pixels_wf(p0: Point2, p1: Point2, p2: Point2, viewport: Bbox2)
    requires
        point_in_range(p0),
        point_in_range(p1),
        point_in_range(p2),
    ensures
        forall|k: int|
            0 <= k < bary_pixels_spec(p0, p1, p2, viewport).len() ==> bary_entry_wf(
                #[trigger] bary_pixels_spec(p0, p1, p2, viewport)[k],
            ),
{
    let tb = triangle_bbox(p0, p1, p2);
    let ib = tb.spec_intersect(viewport);
    if ib.spec_nonempty() {
        assert(-COORD_LIMIT <= ib.left <= ib.right <= COORD_LIMIT);
        assert(-COORD_LIMIT <= ib.bottom <= ib.top <= COORD_LIMIT);
        crate::num::lemma_div_range(ib.left as int, PIXEL_SCALE as int, -0x1_0000, 0x1_0000);
        crate::num::lemma_div_range(ib.right as int, PIXEL_SCALE as int, -0x1_0000, 0x1_0000);
        crate::num::lemma_div_range(ib.bottom as int, PIXEL_SCALE as int, -0x1_0000, 0x1_0000);
        crate::num::lemma_div_range(ib.top as int, PIXEL_SCALE as int, -0x1_0000, 0x1_0000);
        lemma_bary_box_wf(
            p0,
            p1,
            p2,
            ceil_div(ib.left as int, PIXEL_SCALE as int),
            floor_div(ib.right as int, PIXEL_SCALE as int),
            ceil_div(ib.bottom as int, PIXEL_SCALE as int),
            floor_div(ib.top as int, PIXEL_SCALE as int),
        );
    }
}

/// The computed weights really are barycentric coordinates: weighted by
/// them, the three vertices reproduce the queried point exactly (scaled
/// by the common denominator), on both axes. With the weights summing to
/// the denominator, this pins the dot-product formulas to their
/// geometric meaning.
#[verifier::rlimit(100)]
pub proof fn lemma_barycentric_reproduces_point(p0: Point2, p1: Point2, p2: Point2, p: Point2)
    ensures
        ({
            let den = bary_denom(p0, p1, p2);
            let beta = bary_beta_num(p0, p1, p2, p);
            let gamma = bary_gamma_num(p0, p1, p2, p);
            let alpha = den - beta - gamma;
            &&& alpha * p0.x + beta * p1.x + gamma * p2.x == den * p.x
            &&& alpha * p0.y + beta * p1.y + gamma * p2.y == den * p.y
        }),
{
    let a1 = p1.x - p0.x;
    let a2 = p1.y - p0.y;
    let b1 = p2.x - p0.x;
    let b2 = p2.y - p0.y;
    let c1 = p.x - p0.x;
    let c2 = p.y - p0.y;
    let xab = a1 * b2 - a2 * b1;
    let xcb = c1 * b2 - c2 * b1;
    let xac = a1 * c2 - a2 * c1;
    let den = bary_denom(p0, p1, p2);
    let beta = bary_beta_num(p0, p1, p2, p);
    let gamma = bary_gamma_num(p0, p1, p2, p);
    lemma_bary_denom_is_cross_squared(p0, p1, p2);
    assert(beta == xab * xcb) by {
        assert((b1 * b1 + b2 * b2) * (a1 * c1 + a2 * c2) == (b1 * b1) * (a1 * c1) + (b1 * b1) * (a2
            * c2) + (b2 * b2) * (a1 * c1) + (b2 * b2) * (a2 * c2)) by (nonlinear_arith);
        assert((a1 * b1 + a2 * b2) * (b1 * c1 + b2 * c2) == (a1 * b1) * (b1 * c1) + (a1 * b1) * (b2
            * c2) + (a2 * b2) * (b1 * c1) + (a2 * b2) * (b2 * c2)) by (nonlinear_arith);
        assert((a1 * b2 - a2 * b1) * (c1 * b2 - c2 * b1) == (a1 * b2) * (c1 * b2) - (a1 * b2) * (c2
            * b1) - (a2 * b1) * (c1 * b2) + (a2 * b1) * (c2 * b1)) by (nonlinear_arith);
        assert((b1 * b1) * (a1 * c1) == (a1 * b1) * (b1 * c1)) by (nonlinear_arith);
        assert((b1 * b1) * (a2 * c2) == (a2 * b1) * (c2 * b1)) by (nonlinear_arith);
        assert((b2 * b2) * (a1 * c1) == (a1 * b2) * (c1 * b2)) by (nonlinear_arith);
        assert((b2 * b2) * (a2 * c2) == (a2 * b2) * (b2 * c2)) by (nonlinear_arith);
        assert((a1 * b1) * (b2 * c2) == (a1 * b2) * (c2 * b1)) by (nonlinear_arith);
        assert((a2 * b2) * (b1 * c1) == (a2 * b1) * (c1 * b2)) by (nonlinear_arith);
    }
    assert(gamma == xab * xac) by {
        assert((a1 * a1 + a2 * a2) * (b1 * c1 + b2 * c2) == (a1 * a1) * (b1 * c1) + (a1 * a1) * (b2
            * c2) + (a2 * a2) * (b1 * c1) + (a2 * a2) * (b2 * c2)) by (nonlinear_arith);
        assert((a1 * b1 + a2 * b2) * (a1 * c1 + a2 * c2) == (a1 * b1) * (a1 * c1) + (a1 * b1) * (a2
            * c2) + (a2 * b2) * (a1 * c1) + (a2 * b2) * (a2 * c2)) by (nonlinear_arith);
        assert((a1 * b2 - a2 * b1) * (a1 * c2 - a2 * c1) == (a1 * b2) * (a1 * c2) - (a1 * b2) * (a2
            * c1) - (a2 * b1) * (a1 * c2) + (a2 * b1) * (a2 * c1)) by (nonlinear_arith);
        assert((a1 * a1) * (b1 * c1) == (a1 * b1) * (a1 * c1)) by (nonlinear_arith);
        assert((a1 * a1) * (b2 * c2) == (a1 * b2) * (a1 * c2)) by (nonlinear_arith);
        assert((a2 * a2) * (b1 * c1) == (a2 * b1) * (a2 * c1)) by (nonlinear_arith);
        assert((a2 * a2) * (b2 * c2) == (a2 * b2) * (a2 * c2)) by (nonlinear_arith);
        assert((a1 * b1) * (a2 * c2) == (a2 * b1) * (a1 * c2)) by (nonlinear_arith);
        assert((a2 * b2) * (a1 * c1) == (a1 * b2) * (a2 * c1)) by (nonlinear_arith);
    }
    assert(xcb * a1 + xac * b1 == xab * c1 && xcb * a2 + xac * b2 == xab * c2)
        by (nonlinear_arith)
        requires
            xab == a1 * b2 - a2 * b1 && xcb == c1 * b2 - c2 * b1 && xac == a1 * c2 - a2 * c1,
    ;
    assert(beta * a1 + gamma * b1 == den * c1) by (nonlinear_arith)
        requires
            beta == xab * xcb && gamma == xab * xac && den == xab * xab && xcb * a1 + xac * b1
                == xab * c1,
    ;
    assert(beta * a2 + gamma * b2 == den * c2) by (nonlinear_arith)
        requires
            beta == xab * xcb && gamma == xab * xac && den == xab * xab && xcb * a2 + xac * b2
                == xab * c2,
    ;
    let alpha = den - beta - gamma;
    assert(alpha * p0.x + beta * p1.x + gamma * p2.x == den * p.x) by (nonlinear_arith)
        requires
            alpha == den - beta - gamma && beta * a1 + gamma * b1 == den * c1 && a1 == p1.x - p0.x
                && b1 == p2.x - p0.x && c1 == p.x - p0.x,
    ;
    assert(alpha * p0.y + beta * p1.y + gamma * p2.y == den * p.y) by (nonlinear_arith)
        requires
            alpha == den - beta - gamma && beta * a2 + gamma * b2 == den * c2 && a2 == p1.y - p0.y
                && b2 == p2.y - p0.y && c2 == p.y - p0.y,
    ;
}

} // verus!
