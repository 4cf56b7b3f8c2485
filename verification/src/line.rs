//! Line rasterization: parametric clipping against a box and integer
//! line traversal (Bresenham).

use vstd::prelude::*;
use crate::basetype::{Bbox2, Pixel, Point2, point_in_range};
use crate::num::{round_div, round_div_i64, PIXEL_SCALE, COORD_LIMIT};
use crate::triangle::{lemma_abs_mul_le, round_coord};

verus! {

/// Magnitude of an integer.
pub open spec fn abs_int(a: int) -> int {
    if a >= 0 {
        a
    } else {
        -a
    }
}

/// Sign of an integer: `-1`, `0` or `1`.
pub open spec fn sign_int(a: int) -> int {
    if a > 0 {
        1int
    } else if a < 0 {
        -1int
    } else {
        0int
    }
}

/// Number of steps of the traversal: the larger of the two coordinate
/// distances between the rounded endpoints.
pub open spec fn bres_steps(x0: int, y0: int, x1: int, y1: int) -> int {
    let dx = abs_int(x1 - x0);
    let dy = abs_int(y1 - y0);
    if dx >= dy {
        dx
    } else {
        dy
    }
}

/// The `i`-th pixel of the traversal: the major coordinate advances one
/// pixel per step toward the far endpoint, the minor coordinate is the
/// nearest integer to the exact line at that step.
pub open spec fn bres_point(x0: int, y0: int, x1: int, y1: int, i: int) -> Pixel {
    let dx = abs_int(x1 - x0);
    let dy = abs_int(y1 - y0);
    let sx = sign_int(x1 - x0);
    let sy = sign_int(y1 - y0);
    if dx >= dy {
        Pixel { x: (x0 + sx * i) as i32, y: (y0 + sy * round_div(i * dy, dx)) as i32 }
    } else {
        Pixel { x: (x0 + sx * round_div(i * dx, dy)) as i32, y: (y0 + sy * i) as i32 }
    }
}

/// Everything the traversal visits between the rounded endpoints, in
/// order from the first endpoint to the second.
pub open spec fn bres_pixels_spec(p0: Point2, p1: Point2) -> Seq<Pixel> {
    let x0 = round_coord(p0.x);
    let y0 = round_coord(p0.y);
    let x1 = round_coord(p1.x);
    let y1 = round_coord(p1.y);
    Seq::new((bres_steps(x0, y0, x1, y1) + 1) as nat, |i: int| bres_point(x0, y0, x1, y1, i))
}

/// The minor offset of step `i` lies between `0` and the full minor
/// distance.
proof fn lemma_bres_minor_range(i: int, dmin: int, dmax: int)
    requires
        0 <= i <= dmax,
        0 <= dmin <= dmax,
        0 < dmax,
    ensures
        0 <= round_div(i * dmin, dmax) <= dmin,
{
    assert(0 * dmax <= i * dmin && i * dmin <= dmin * dmax) by (nonlinear_arith)
        requires
            0 <= i <= dmax && 0 <= dmin,
    ;
    crate::num::lemma_round_div_bounds(i * dmin, dmax, 0, dmin);
}

/// Rounding a fixed-point coordinate within range lands within
/// `[-65536, 65536]`.
proof fn lemma_round_coord_bound(c: i64)
    requires
        -COORD_LIMIT <= c <= COORD_LIMIT,
    ensures
        -0x1_0000 <= round_coord(c) <= 0x1_0000,
{
    crate::num::lemma_round_div_bounds(c as int, PIXEL_SCALE as int, -0x1_0000, 0x1_0000);
}

/// The traversal of a segment visits exactly
/// `max(|x1 - x0|, |y1 - y0|) + 1` pixels (distances between the rounded
/// endpoints), each exactly once, starting at the first endpoint, ending
/// at the second, monotonically along the major axis.
pub proof fn lemma_bresenham_visits(p0: Point2, p1: Point2)
    requires
        point_in_range(p0),
        point_in_range(p1),
    ensures
        ({
            let s = bres_pixels_spec(p0, p1);
            let x0 = round_coord(p0.x);
            let y0 = round_coord(p0.y);
            let x1 = round_coord(p1.x);
            let y1 = round_coord(p1.y);
            &&& s.len() == bres_steps(x0, y0, x1, y1) + 1
            &&& s[0] == (Pixel { x: x0 as i32, y: y0 as i32 })
            &&& s[s.len() - 1] == (Pixel { x: x1 as i32, y: y1 as i32 })
            &&& forall|i: int, j: int| 0 <= i < j < s.len() ==> s[i] != s[j]
        }),
{
    let s = bres_pixels_spec(p0, p1);
    let x0 = round_coord(p0.x);
    let y0 = round_coord(p0.y);
    let x1 = round_coord(p1.x);
    let y1 = round_coord(p1.y);
    lemma_round_coord_bound(p0.x);
    lemma_round_coord_bound(p0.y);
    lemma_round_coord_bound(p1.x);
    lemma_round_coord_bound(p1.y);
    let dx = abs_int(x1 - x0);
    let dy = abs_int(y1 - y0);
    let sx = sign_int(x1 - x0);
    let sy = sign_int(y1 - y0);
    let n = bres_steps(x0, y0, x1, y1);
    // first pixel: both offsets are zero
    assert(s[0] == (Pixel { x: x0 as i32, y: y0 as i32 })) by {
        assert(sx * 0 == 0 && sy * 0 == 0) by (nonlinear_arith);
        if dx >= dy {
            if dx > 0 {
                vstd::arithmetic::div_mod::lemma_div_multiples_vanish_fancy(0, dx, 2 * dx);
                assert(0 * dy == 0);
                assert(2 * (0 * dy) + dx == 2 * dx * 0 + dx);
                assert(round_div(0 * dy, dx) == 0);
                assert(sy * round_div(0 * dy, dx) == 0) by (nonlinear_arith)
                    requires
                        round_div(0 * dy, dx) == 0,
                ;
            } else {
                assert(sy == 0);
                assert(sy * round_div(0 * dy, dx) == 0) by (nonlinear_arith)
                    requires
                        sy == 0,
                ;
            }
        } else {
            vstd::arithmetic::div_mod::lemma_div_multiples_vanish_fancy(0, dy, 2 * dy);
            assert(0 * dx == 0);
            assert(2 * (0 * dx) + dy == 2 * dy * 0 + dy);
            assert(round_div(0 * dx, dy) == 0);
            assert(sx * round_div(0 * dx, dy) == 0) by (nonlinear_arith)
                requires
                    round_div(0 * dx, dy) == 0,
            ;
        }
    }
    // last pixel: the full distances are reached exactly
    assert(s[s.len() - 1] == (Pixel { x: x1 as i32, y: y1 as i32 })) by {
        if dx >= dy {
            assert(sx * dx == x1 - x0) by (nonlinear_arith)
                requires
                    sx == sign_int(x1 - x0) && dx == abs_int(x1 - x0),
            ;
            if dx > 0 {
                crate::num::lemma_round_div_exact(dy, dx);
                assert(dx * dy == dy * dx) by (nonlinear_arith);
                assert(round_div(dx * dy, dx) == dy);
                assert(sy * dy == y1 - y0) by (nonlinear_arith)
                    requires
                        sy == sign_int(y1 - y0) && dy == abs_int(y1 - y0),
                ;
            } else {
                assert(dy == 0 && sy == 0 && sx == 0);
                assert(sy * round_div(n * dy, dx) == 0) by (nonlinear_arith)
                    requires
                        sy == 0,
                ;
            }
        } else {
            assert(sy * dy == y1 - y0) by (nonlinear_arith)
                requires
                    sy == sign_int(y1 - y0) && dy == abs_int(y1 - y0),
            ;
            crate::num::lemma_round_div_exact(dx, dy);
            assert(dy * dx == dx * dy) by (nonlinear_arith);
            assert(round_div(dy * dx, dy) == dx);
            assert(sx * dx == x1 - x0) by (nonlinear_arith)
                requires
                    sx == sign_int(x1 - x0) && dx == abs_int(x1 - x0),
            ;
        }
    }
    // each pixel is visited once: the major coordinate is strictly monotone
    assert forall|i: int, j: int| 0 <= i < j < s.len() implies s[i] != s[j] by {
        if dx >= dy {
            assert(dx > 0);
            lemma_bres_minor_range(i, dy, dx);
            lemma_bres_minor_range(j, dy, dx);
            assert(x0 + sx * i != x0 + sx * j) by (nonlinear_arith)
                requires
                    (sx == 1 || sx == -1) && i != j,
            ;
            assert(-0x2_0000 <= sx * i <= 0x2_0000 && -0x2_0000 <= sx * j <= 0x2_0000)
                by (nonlinear_arith)
                requires
                    -1 <= sx <= 1 && 0 <= i <= 0x2_0000 && 0 <= j <= 0x2_0000,
            ;
        } else {
            assert(dy > 0);
            lemma_bres_minor_range(i, dx, dy);
            lemma_bres_minor_range(j, dx, dy);
            assert(y0 + sy * i != y0 + sy * j) by (nonlinear_arith)
                requires
                    (sy == 1 || sy == -1) && i != j,
            ;
            assert(-0x2_0000 <= sy * i <= 0x2_0000 && -0x2_0000 <= sy * j <= 0x2_0000)
                by (nonlinear_arith)
                requires
                    -1 <= sy <= 1 && 0 <= i <= 0x2_0000 && 0 <= j <= 0x2_0000,
            ;
        }
    }
}

/// Rounds both endpoints to integer pixels, then visits, in order from
/// the first endpoint to the second, every pixel of the segment: the
/// major coordinate advances one pixel per step, the minor coordinate is
/// the nearest integer to the exact line. Both endpoints are included; a
/// zero-length segment yields its single pixel.
pub fn travel_line_bresenham(p_0: &Point2, p_1: &Point2) -> (r: Vec<Pixel>)
    requires
        point_in_range(*p_0),
        point_in_range(*p_1),
    ensures
        r@ == bres_pixels_spec(*p_0, *p_1),
{
    proof {
        lemma_round_coord_bound(p_0.x);
        lemma_round_coord_bound(p_0.y);
        lemma_round_coord_bound(p_1.x);
        lemma_round_coord_bound(p_1.y);
    }
    let x_0: i64 = round_div_i64(p_0.x, PIXEL_SCALE);
    let y_0: i64 = round_div_i64(p_0.y, PIXEL_SCALE);
    let x_1: i64 = round_div_i64(p_1.x, PIXEL_SCALE);
    let y_1: i64 = round_div_i64(p_1.y, PIXEL_SCALE);
    let dx: i64 = if x_1 >= x_0 {
        x_1 - x_0
    } else {
        x_0 - x_1
    };
    let dy: i64 = if y_1 >= y_0 {
        y_1 - y_0
    } else {
        y_0 - y_1
    };
    let sx: i64 = if x_1 > x_0 {
        1
    } else if x_1 < x_0 {
        -1
    } else {
        0
    };
    let sy: i64 = if y_1 > y_0 {
        1
    } else if y_1 < y_0 {
        -1
    } else {
        0
    };
    let n: i64 = if dx >= dy {
        dx
    } else {
        dy
    };
    let mut out: Vec<Pixel> = Vec::new();
    let mut i: i64 = 0;
    while i <= n
        invariant
            x_0 == round_coord(p_0.x) && y_0 == round_coord(p_0.y),
            x_1 == round_coord(p_1.x) && y_1 == round_coord(p_1.y),
            -0x1_0000 <= x_0 <= 0x1_0000 && -0x1_0000 <= y_0 <= 0x1_0000,
            -0x1_0000 <= x_1 <= 0x1_0000 && -0x1_0000 <= y_1 <= 0x1_0000,
            dx == abs_int(x_1 as int - x_0 as int) && dy == abs_int(y_1 as int - y_0 as int),
            sx == sign_int(x_1 as int - x_0 as int) && sy == sign_int(y_1 as int - y_0 as int),
            n == bres_steps(x_0 as int, y_0 as int, x_1 as int, y_1 as int),
            0 <= i <= n + 1,
            out@.len() == i,
            forall|k: int|
                0 <= k < i ==> out@[k] == bres_point(
                    x_0 as int,
                    y_0 as int,
                    x_1 as int,
                    y_1 as int,
                    k,
                ),
        decreases n + 1 - i,
    {
        proof {
            lemma_abs_mul_le(i as int, dy as int, 0x2_0000, 0x2_0000);
            lemma_abs_mul_le(i as int, dx as int, 0x2_0000, 0x2_0000);
            lemma_abs_mul_le(sx as int, i as int, 1, 0x2_0000);
            lemma_abs_mul_le(sy as int, i as int, 1, 0x2_0000);
        }
        let p: Pixel = if dx >= dy {
            let minor: i64 = if dx == 0 {
                0
            } else {
                round_div_i64(i * dy, dx)
            };
            proof {
                if dx == 0 {
                    assert(sy == 0);
                    assert(sy as int * round_div(i as int * dy as int, dx as int) == 0)
                        by (nonlinear_arith)
                        requires
                            sy == 0,
                    ;
                } else {
                    lemma_bres_minor_range(i as int, dy as int, dx as int);
                    lemma_abs_mul_le(sy as int, minor as int, 1, 0x2_0000);
                }
            }
            let py: i64 = if dx == 0 {
                y_0
            } else {
                y_0 + sy * minor
            };
            Pixel { x: (x_0 + sx * i) as i32, y: py as i32 }
        } else {
            let minor: i64 = round_div_i64(i * dx, dy);
            proof {
                lemma_bres_minor_range(i as int, dx as int, dy as int);
                lemma_abs_mul_le(sx as int, minor as int, 1, 0x2_0000);
            }
            Pixel { x: (x_0 + sx * minor) as i32, y: (y_0 + sy * i) as i32 }
        };
        out.push(p);
        i = i + 1;
    }
    proof {
        assert(out@ =~= bres_pixels_spec(*p_0, *p_1));
    }
    out
}

/// `a/b < c/d` for fractions with positive denominators, by
/// cross-multiplication.
pub open spec fn frac_lt(an: int, ad: int, bn: int, bd: int) -> bool
    recommends
        ad > 0,
        bd > 0,
{
    an * bd < bn * ad
}

/// One step of the parametric clip: `p` is the direction against the
/// boundary, `q` the signed distance to it. The state holds whether the
/// segment is still accepted and the entering and leaving parameters as
/// fractions with positive denominators.
pub open spec fn clip_step(
    s: (bool, (int, int), (int, int)),
    p: int,
    q: int,
) -> (bool, (int, int), (int, int)) {
    if p == 0 {
        if q < 0 {
            (false, s.1, s.2)
        } else {
            s
        }
    } else if p < 0 {
        if frac_lt(s.1.0, s.1.1, -q, -p) {
            (s.0, (-q, -p), s.2)
        } else {
            s
        }
    } else {
        if frac_lt(q, p, s.2.0, s.2.1) {
            (s.0, s.1, (q, p))
        } else {
            s
        }
    }
}

/// The clip state after folding the four boundaries of `b` over the
/// segment `p0 p1`, starting from the parameter interval `[0, 1]`.
pub open spec fn clip_fold(p0: Point2, p1: Point2, b: Bbox2) -> (bool, (int, int), (int, int)) {
    let dx = p1.x - p0.x;
    let dy = p1.y - p0.y;
    let s0 = (true, (0int, 1int), (1int, 1int));
    let s1 = clip_step(s0, -dx, p0.x - b.left);
    let s2 = clip_step(s1, dx, b.right - p0.x);
    let s3 = clip_step(s2, -dy, p0.y - b.bottom);
    clip_step(s3, dy, b.top - p0.y)
}

/// The point of the segment at parameter `t`, each coordinate rounded to
/// the nearest fixed-point unit.
pub open spec fn clip_point(p0: Point2, p1: Point2, t: (int, int)) -> Point2 {
    Point2 {
        x: round_div(p0.x * t.1 + t.0 * (p1.x - p0.x), t.1) as i64,
        y: round_div(p0.y * t.1 + t.0 * (p1.y - p0.y), t.1) as i64,
    }
}

/// The clipped segment: `None` when a boundary rejects it outright or the
/// entering parameter exceeds the leaving one, otherwise the two clip
/// points.
pub open spec fn clip_line_spec(p0: Point2, p1: Point2, b: Bbox2) -> Option<(Point2, Point2)> {
    let s = clip_fold(p0, p1, b);
    if s.0 && !frac_lt(s.2.0, s.2.1, s.1.0, s.1.1) {
        Some((clip_point(p0, p1, s.1), clip_point(p0, p1, s.2)))
    } else {
        None
    }
}

/// Cross-multiplied fraction comparison on machine integers.
fn frac_lt_exec(an: i64, ad: i64, bn: i64, bd: i64) -> (r: bool)
    ensures
        r == frac_lt(an as int, ad as int, bn as int, bd as int),
{
    proof {
        lemma_abs_mul_le(an as int, bd as int, 0x8000_0000_0000_0000, 0x8000_0000_0000_0000);
        lemma_abs_mul_le(bn as int, ad as int, 0x8000_0000_0000_0000, 0x8000_0000_0000_0000);
    }
    (an as i128) * (bd as i128) < (bn as i128) * (ad as i128)
}

/// Once a boundary has rejected the segment, later boundaries keep it
/// rejected.
proof fn lemma_clip_step_keeps_reject(s: (bool, (int, int), (int, int)), p: int, q: int)
    requires
        !s.0,
    ensures
        !clip_step(s, p, q).0,
{
}

/// Applies one boundary to the clip interval held in the four scalars;
/// returns `false` when the boundary rejects the segment outright.
fn clip_apply(t0n: &mut i64, t0d: &mut i64, t1n: &mut i64, t1d: &mut i64, p: i64, q: i64) -> (ok:
    bool)
    requires
        0 < *old(t0d) <= 0x200_0000,
        0 < *old(t1d) <= 0x200_0000,
        -0x400_0000 <= *old(t0n) <= 0x400_0000,
        -0x400_0000 <= *old(t1n) <= 0x400_0000,
        -0x200_0000 <= p <= 0x200_0000,
        -0x400_0000 <= q <= 0x400_0000,
        0 <= *old(t0n),
        *old(t1n) <= *old(t1d),
    ensures
        ({
            let s = clip_step(
                (true, (*old(t0n) as int, *old(t0d) as int), (*old(t1n) as int, *old(t1d) as int)),
                p as int,
                q as int,
            );
            &&& ok == s.0
            &&& s.1 == (*final(t0n) as int, *final(t0d) as int)
            &&& s.2 == (*final(t1n) as int, *final(t1d) as int)
        }),
        0 < *final(t0d) <= 0x200_0000,
        0 < *final(t1d) <= 0x200_0000,
        -0x400_0000 <= *final(t0n) <= 0x400_0000,
        -0x400_0000 <= *final(t1n) <= 0x400_0000,
        0 <= *final(t0n),
        *final(t1n) <= *final(t1d),
{
    if p == 0 {
        return q >= 0;
    }
    if p < 0 {
        if frac_lt_exec(*t0n, *t0d, -q, -p) {
            proof {
                assert(-q > 0) by (nonlinear_arith)
                    requires
                        *t0n >= 0 && *t0d > 0 && -p > 0 && (*t0n as int) * ((-p) as int) < ((-q)
                            as int) * (*t0d as int),
                ;
            }
            *t0n = -q;
            *t0d = -p;
        }
        return true;
    }
    if frac_lt_exec(q, p, *t1n, *t1d) {
        proof {
            assert(q <= p) by (nonlinear_arith)
                requires
                    *t1n <= *t1d && *t1d > 0 && p > 0 && (q as int) * (*t1d as int) < (*t1n as int)
                        * (p as int),
            ;
        }
        *t1n = q;
        *t1d = p;
    }
    true
}

/// Clips the segment `p_0 p_1` against `bbox` with the parametric
/// (Liang-Barsky) method: `None` when the clip interval comes up empty,
/// otherwise the clipped endpoints, each coordinate rounded to the
/// nearest fixed-point unit. A segment wholly inside comes back
/// unchanged; a degenerate segment inside the box comes back as itself.
#[verifier::rlimit(100)]
pub fn clip_line(p_0: &Point2, p_1: &Point2, bbox: &Bbox2) -> (r: Option<(Point2, Point2)>)
    requires
        point_in_range(*p_0),
        point_in_range(*p_1),
        -COORD_LIMIT <= bbox.left <= COORD_LIMIT,
        -COORD_LIMIT <= bbox.right <= COORD_LIMIT,
        -COORD_LIMIT <= bbox.bottom <= COORD_LIMIT,
        -COORD_LIMIT <= bbox.top <= COORD_LIMIT,
    ensures
        r == clip_line_spec(*p_0, *p_1, *bbox),
        r is Some ==> point_in_range(r->Some_0.0) && point_in_range(r->Some_0.1),
{
    let dx: i64 = p_1.x - p_0.x;
    let dy: i64 = p_1.y - p_0.y;
    let mut t0n: i64 = 0;
    let mut t0d: i64 = 1;
    let mut t1n: i64 = 1;
    let mut t1d: i64 = 1;
    let ghost s0 = (true, (0int, 1int), (1int, 1int));
    let ghost s1 = clip_step(s0, -(dx as int), p_0.x - bbox.left);
    let ghost s2 = clip_step(s1, dx as int, bbox.right - p_0.x);
    let ghost s3 = clip_step(s2, -(dy as int), p_0.y - bbox.bottom);
    let ghost s4 = clip_step(s3, dy as int, bbox.top - p_0.y);

    if !clip_apply(&mut t0n, &mut t0d, &mut t1n, &mut t1d, -dx, p_0.x - bbox.left) {
        proof {
            lemma_clip_step_keeps_reject(s1, dx as int, bbox.right - p_0.x);
            lemma_clip_step_keeps_reject(s2, -(dy as int), p_0.y - bbox.bottom);
            lemma_clip_step_keeps_reject(s3, dy as int, bbox.top - p_0.y);
        }
        return None;
    }
    if !clip_apply(&mut t0n, &mut t0d, &mut t1n, &mut t1d, dx, bbox.right - p_0.x) {
        proof {
            lemma_clip_step_keeps_reject(s2, -(dy as int), p_0.y - bbox.bottom);
            lemma_clip_step_keeps_reject(s3, dy as int, bbox.top - p_0.y);
        }
        return None;
    }
    if !clip_apply(&mut t0n, &mut t0d, &mut t1n, &mut t1d, -dy, p_0.y - bbox.bottom) {
        proof {
            lemma_clip_step_keeps_reject(s3, dy as int, bbox.top - p_0.y);
        }
        return None;
    }
    if !clip_apply(&mut t0n, &mut t0d, &mut t1n, &mut t1d, dy, bbox.top - p_0.y) {
        return None;
    }

    if frac_lt_exec(t1n, t1d, t0n, t0d) {
        return None;
    }

    proof {
        // the clip interval is a subinterval of [0, 1]
        assert(t0n <= t0d && 0 <= t1n) by (nonlinear_arith)
            requires
                0 <= t0n && t0d > 0 && t1d > 0 && t1n <= t1d && (t1n as int) * (t0d as int) >= (
                t0n as int) * (t1d as int),
        ;
    }
    let ghost lox: int = if p_0.x <= p_1.x { p_0.x as int } else { p_1.x as int };
    let ghost hix: int = if p_0.x <= p_1.x { p_1.x as int } else { p_0.x as int };
    let ghost loy: int = if p_0.y <= p_1.y { p_0.y as int } else { p_1.y as int };
    let ghost hiy: int = if p_0.y <= p_1.y { p_1.y as int } else { p_0.y as int };
    proof {
        assert(lox * t0d <= p_0.x * t0d + t0n * dx <= hix * t0d && lox * t1d <= p_0.x * t1d + t1n
            * dx <= hix * t1d) by (nonlinear_arith)
            requires
                0 <= t0n <= t0d && 0 <= t1n <= t1d && lox <= p_0.x as int <= hix && lox <= p_0.x
                    as int + dx as int <= hix,
        ;
        assert(loy * t0d <= p_0.y * t0d + t0n * dy <= hiy * t0d && loy * t1d <= p_0.y * t1d + t1n
            * dy <= hiy * t1d) by (nonlinear_arith)
            requires
                0 <= t0n <= t0d && 0 <= t1n <= t1d && loy <= p_0.y as int <= hiy && loy <= p_0.y
                    as int + dy as int <= hiy,
        ;
        crate::num::lemma_round_div_bounds(p_0.x * t0d + t0n * dx, t0d as int, lox, hix);
        crate::num::lemma_round_div_bounds(p_0.y * t0d + t0n * dy, t0d as int, loy, hiy);
        crate::num::lemma_round_div_bounds(p_0.x * t1d + t1n * dx, t1d as int, lox, hix);
        crate::num::lemma_round_div_bounds(p_0.y * t1d + t1n * dy, t1d as int, loy, hiy);
    }
    proof {
        lemma_abs_mul_le(p_0.x as int, t0d as int, 0x100_0000, 0x200_0000);
        lemma_abs_mul_le(t0n as int, dx as int, 0x400_0000, 0x200_0000);
        lemma_abs_mul_le(p_0.y as int, t0d as int, 0x100_0000, 0x200_0000);
        lemma_abs_mul_le(t0n as int, dy as int, 0x400_0000, 0x200_0000);
        lemma_abs_mul_le(p_0.x as int, t1d as int, 0x100_0000, 0x200_0000);
        lemma_abs_mul_le(t1n as int, dx as int, 0x400_0000, 0x200_0000);
        lemma_abs_mul_le(p_0.y as int, t1d as int, 0x100_0000, 0x200_0000);
        lemma_abs_mul_le(t1n as int, dy as int, 0x400_0000, 0x200_0000);
    }
    let n0x: i128 = (p_0.x as i128) * (t0d as i128) + (t0n as i128) * (dx as i128);
    let n0y: i128 = (p_0.y as i128) * (t0d as i128) + (t0n as i128) * (dy as i128);
    let n1x: i128 = (p_0.x as i128) * (t1d as i128) + (t1n as i128) * (dx as i128);
    let n1y: i128 = (p_0.y as i128) * (t1d as i128) + (t1n as i128) * (dy as i128);
    let c0x: i128 = crate::num::round_div_i128(n0x, t0d as i128);
    let c0y: i128 = crate::num::round_div_i128(n0y, t0d as i128);
    let c1x: i128 = crate::num::round_div_i128(n1x, t1d as i128);
    let c1y: i128 = crate::num::round_div_i128(n1y, t1d as i128);
    proof {
        lemma_round_div_small(n0x as int, t0d as int);
        lemma_round_div_small(n0y as int, t0d as int);
        lemma_round_div_small(n1x as int, t1d as int);
        lemma_round_div_small(n1y as int, t1d as int);
    }
    Some(
        (
            Point2 { x: c0x as i64, y: c0y as i64 },
            Point2 { x: c1x as i64, y: c1y as i64 },
        ),
    )
}

/// The rounded quotient is no larger in magnitude than the numerator.
proof fn lemma_round_div_small(n: int, d: int)
    requires
        d > 0,
    ensures
        n >= 0 ==> 0 <= round_div(n, d) <= n,
        n < 0 ==> n <= round_div(n, d) <= 0,
{
    if n >= 0 {
        crate::num::lemma_round_div_magnitude(n, d);
    } else {
        crate::num::lemma_round_div_magnitude(-n, d);
    }
}

/// A segment whose endpoints both lie strictly inside the box is
/// returned unchanged.
pub proof fn lemma_clip_line_inside(p0: Point2, p1: Point2, b: Bbox2)
    requires
        b.left < p0.x < b.right,
        b.bottom < p0.y < b.top,
        b.left < p1.x < b.right,
        b.bottom < p1.y < b.top,
    ensures
        clip_line_spec(p0, p1, b) == Some((p0, p1)),
{
    let dx = p1.x - p0.x;
    let dy = p1.y - p0.y;
    let s0 = (true, (0int, 1int), (1int, 1int));
    let s1 = clip_step(s0, -dx, p0.x - b.left);
    let s2 = clip_step(s1, dx, b.right - p0.x);
    let s3 = clip_step(s2, -dy, p0.y - b.bottom);
    let s4 = clip_step(s3, dy, b.top - p0.y);
    assert(s1 == s0);
    assert(s2 == s0);
    assert(s3 == s0);
    assert(s4 == s0);
    assert(!frac_lt(1int, 1int, 0int, 1int));
    crate::num::lemma_round_div_exact(p0.x as int, 1);
    crate::num::lemma_round_div_exact(p0.y as int, 1);
    crate::num::lemma_round_div_exact(p0.x + dx, 1);
    crate::num::lemma_round_div_exact(p0.y + dy, 1);
    assert(clip_point(p0, p1, (0int, 1int)) == p0);
    assert(clip_point(p0, p1, (1int, 1int)) == p1);
}

/// Fraction comparison is transitive: `a <= b <= c` gives `a <= c`.
proof fn lemma_frac_le_trans(an: int, ad: int, bn: int, bd: int, cn: int, cd: int)
    requires
        ad > 0,
        bd > 0,
        cd > 0,
        an * bd <= bn * ad,
        bn * cd <= cn * bd,
    ensures
        an * cd <= cn * ad,
{
    assert(an * cd <= cn * ad) by (nonlinear_arith)
        requires
            ad > 0 && bd > 0 && cd > 0 && an * bd <= bn * ad && bn * cd <= cn * bd,
    ;
}

/// Each boundary only raises the entering parameter and only lowers the
/// leaving one, and never below or above its own candidate.
proof fn lemma_clip_step_monotone(s: (bool, (int, int), (int, int)), p: int, q: int)
    requires
        s.1.1 > 0,
        s.2.1 > 0,
    ensures
        ({
            let t = clip_step(s, p, q);
            &&& t.1.1 > 0 && t.2.1 > 0
            &&& s.1.0 * t.1.1 <= t.1.0 * s.1.1
            &&& t.2.0 * s.2.1 <= s.2.0 * t.2.1
            &&& p < 0 ==> (-q) * t.1.1 <= t.1.0 * (-p)
            &&& p > 0 ==> t.2.0 * p <= q * t.2.1
        }),
{
}

/// A segment lying wholly beyond one boundary of the box — both
/// endpoints strictly left of it, right of it, below it or above it —
/// lies strictly outside everywhere and is rejected.
pub proof fn lemma_clip_line_outside(p0: Point2, p1: Point2, b: Bbox2)
    requires
        (p0.x < b.left && p1.x < b.left) || (p0.x > b.right && p1.x > b.right) || (p0.y < b.bottom
            && p1.y < b.bottom) || (p0.y > b.top && p1.y > b.top),
    ensures
        clip_line_spec(p0, p1, b) is None,
{
    assert forall|tn: int, td: int| 0 < td && 0 <= tn <= td implies #[trigger] segment_point_outside(
        p0,
        p1,
        b,
        tn,
        td,
    ) by {
        if p0.x < b.left && p1.x < b.left {
            assert(p0.x * td + tn * (p1.x - p0.x) < b.left * td) by (nonlinear_arith)
                requires
                    0 < td && 0 <= tn <= td && p0.x < b.left && p1.x < b.left,
            ;
        } else if p0.x > b.right && p1.x > b.right {
            assert(p0.x * td + tn * (p1.x - p0.x) > b.right * td) by (nonlinear_arith)
                requires
                    0 < td && 0 <= tn <= td && p0.x > b.right && p1.x > b.right,
            ;
        } else if p0.y < b.bottom && p1.y < b.bottom {
            assert(p0.y * td + tn * (p1.y - p0.y) < b.bottom * td) by (nonlinear_arith)
                requires
                    0 < td && 0 <= tn <= td && p0.y < b.bottom && p1.y < b.bottom,
            ;
        } else {
            assert(p0.y * td + tn * (p1.y - p0.y) > b.top * td) by (nonlinear_arith)
                requires
                    0 < td && 0 <= tn <= td && p0.y > b.top && p1.y > b.top,
            ;
        }
    }
    lemma_clip_line_outside_segment(p0, p1, b);
}

/// The point of the segment at rational parameter `tn / td` (coordinates
/// scaled by `td`) lies strictly outside the box.
pub open spec fn segment_point_outside(p0: Point2, p1: Point2, b: Bbox2, tn: int, td: int) -> bool
    recommends
        td > 0,
{
    let x = p0.x * td + tn * (p1.x - p0.x);
    let y = p0.y * td + tn * (p1.y - p0.y);
    x < b.left * td || x > b.right * td || y < b.bottom * td || y > b.top * td
}

/// A segment that lies strictly outside the box everywhere — every point
/// of it, at every rational parameter in `[0, 1]` — is rejected, corner
/// passers included: were it accepted, the point at the entering
/// parameter would satisfy all four box constraints.
#[verifier::rlimit(100)]
pub proof fn lemma_clip_line_outside_segment(p0: Point2, p1: Point2, b: Bbox2)
    requires
        forall|tn: int, td: int|
            0 < td && 0 <= tn <= td ==> #[trigger] segment_point_outside(p0, p1, b, tn, td),
    ensures
        clip_line_spec(p0, p1, b) is None,
{
    let dx = p1.x - p0.x;
    let dy = p1.y - p0.y;
    let s0 = (true, (0int, 1int), (1int, 1int));
    let s1 = clip_step(s0, -dx, p0.x - b.left);
    let s2 = clip_step(s1, dx, b.right - p0.x);
    let s3 = clip_step(s2, -dy, p0.y - b.bottom);
    let s4 = clip_step(s3, dy, b.top - p0.y);
    lemma_clip_step_monotone(s0, -dx, p0.x - b.left);
    lemma_clip_step_monotone(s1, dx, b.right - p0.x);
    lemma_clip_step_monotone(s2, -dy, p0.y - b.bottom);
    lemma_clip_step_monotone(s3, dy, b.top - p0.y);
    if s4.0 && !frac_lt(s4.2.0, s4.2.1, s4.1.0, s4.1.1) {
        let t0n = s4.1.0;
        let t0d = s4.1.1;
        let t1n = s4.2.0;
        let t1d = s4.2.1;
        // every boundary accepted along the way
        if !s1.0 {
            lemma_clip_step_keeps_reject(s1, dx, b.right - p0.x);
            lemma_clip_step_keeps_reject(s2, -dy, p0.y - b.bottom);
            lemma_clip_step_keeps_reject(s3, dy, b.top - p0.y);
        }
        if !s2.0 {
            lemma_clip_step_keeps_reject(s2, -dy, p0.y - b.bottom);
            lemma_clip_step_keeps_reject(s3, dy, b.top - p0.y);
        }
        if !s3.0 {
            lemma_clip_step_keeps_reject(s3, dy, b.top - p0.y);
        }
        assert(s1.0 && s2.0 && s3.0);
        // the entering parameter only grows, the leaving one only shrinks
        lemma_frac_le_trans(s0.1.0, s0.1.1, s1.1.0, s1.1.1, s2.1.0, s2.1.1);
        lemma_frac_le_trans(s0.1.0, s0.1.1, s2.1.0, s2.1.1, s3.1.0, s3.1.1);
        lemma_frac_le_trans(s0.1.0, s0.1.1, s3.1.0, s3.1.1, s4.1.0, s4.1.1);
        lemma_frac_le_trans(s1.1.0, s1.1.1, s2.1.0, s2.1.1, s3.1.0, s3.1.1);
        lemma_frac_le_trans(s1.1.0, s1.1.1, s3.1.0, s3.1.1, s4.1.0, s4.1.1);
        lemma_frac_le_trans(s2.1.0, s2.1.1, s3.1.0, s3.1.1, s4.1.0, s4.1.1);
        lemma_frac_le_trans(s4.2.0, s4.2.1, s3.2.0, s3.2.1, s2.2.0, s2.2.1);
        lemma_frac_le_trans(s4.2.0, s4.2.1, s2.2.0, s2.2.1, s1.2.0, s1.2.1);
        lemma_frac_le_trans(s4.2.0, s4.2.1, s1.2.0, s1.2.1, s0.2.0, s0.2.1);
        // the accepted interval is a subinterval of [0, 1]
        assert(0 <= t0n && t1n <= t1d);
        assert(t0n <= t0d) by (nonlinear_arith)
            requires
                0 <= t0n && t0d > 0 && t1d > 0 && t1n <= t1d && t0n * t1d <= t1n * t0d,
        ;
        // the point at the entering parameter meets the left constraint
        assert(b.left * t0d <= p0.x * t0d + t0n * dx) by {
            if dx == 0 {
                assert(p0.x - b.left >= 0);
                assert(b.left * t0d <= p0.x * t0d + t0n * dx) by (nonlinear_arith)
                    requires
                        dx == 0 && p0.x - b.left >= 0 && t0d > 0,
                ;
            } else if dx > 0 {
                lemma_frac_le_trans(b.left - p0.x, dx, s1.1.0, s1.1.1, s4.1.0, s4.1.1);
                assert(b.left * t0d <= p0.x * t0d + t0n * dx) by (nonlinear_arith)
                    requires
                        (b.left - p0.x) * t0d <= t0n * dx,
                ;
            } else {
                lemma_frac_le_trans(s4.2.0, s4.2.1, s1.2.0, s1.2.1, p0.x - b.left, -dx);
                lemma_frac_le_trans(t0n, t0d, t1n, t1d, p0.x - b.left, -dx);
                assert(b.left * t0d <= p0.x * t0d + t0n * dx) by (nonlinear_arith)
                    requires
                        t0n * (-dx) <= (p0.x - b.left) * t0d,
                ;
            }
        }
        // ... and the right constraint
        assert(p0.x * t0d + t0n * dx <= b.right * t0d) by {
            if dx == 0 {
                assert(b.right - p0.x >= 0);
                assert(p0.x * t0d + t0n * dx <= b.right * t0d) by (nonlinear_arith)
                    requires
                        dx == 0 && b.right - p0.x >= 0 && t0d > 0,
                ;
            } else if dx > 0 {
                lemma_frac_le_trans(s4.2.0, s4.2.1, s2.2.0, s2.2.1, b.right - p0.x, dx);
                lemma_frac_le_trans(t0n, t0d, t1n, t1d, b.right - p0.x, dx);
                assert(p0.x * t0d + t0n * dx <= b.right * t0d) by (nonlinear_arith)
                    requires
                        t0n * dx <= (b.right - p0.x) * t0d,
                ;
            } else {
                lemma_frac_le_trans(p0.x - b.right, -dx, s2.1.0, s2.1.1, s4.1.0, s4.1.1);
                assert(p0.x * t0d + t0n * dx <= b.right * t0d) by (nonlinear_arith)
                    requires
                        (p0.x - b.right) * t0d <= t0n * (-dx),
                ;
            }
        }
        // ... and the bottom constraint
        assert(b.bottom * t0d <= p0.y * t0d + t0n * dy) by {
            if dy == 0 {
                assert(p0.y - b.bottom >= 0);
                assert(b.bottom * t0d <= p0.y * t0d + t0n * dy) by (nonlinear_arith)
                    requires
                        dy == 0 && p0.y - b.bottom >= 0 && t0d > 0,
                ;
            } else if dy > 0 {
                lemma_frac_le_trans(b.bottom - p0.y, dy, s3.1.0, s3.1.1, s4.1.0, s4.1.1);
                assert(b.bottom * t0d <= p0.y * t0d + t0n * dy) by (nonlinear_arith)
                    requires
                        (b.bottom - p0.y) * t0d <= t0n * dy,
                ;
            } else {
                lemma_frac_le_trans(s4.2.0, s4.2.1, s3.2.0, s3.2.1, p0.y - b.bottom, -dy);
                lemma_frac_le_trans(t0n, t0d, t1n, t1d, p0.y - b.bottom, -dy);
                assert(b.bottom * t0d <= p0.y * t0d + t0n * dy) by (nonlinear_arith)
                    requires
                        t0n * (-dy) <= (p0.y - b.bottom) * t0d,
                ;
            }
        }
        // ... and the top constraint
        assert(p0.y * t0d + t0n * dy <= b.top * t0d) by {
            if dy == 0 {
                assert(b.top - p0.y >= 0);
                assert(p0.y * t0d + t0n * dy <= b.top * t0d) by (nonlinear_arith)
                    requires
                        dy == 0 && b.top - p0.y >= 0 && t0d > 0,
                ;
            } else if dy > 0 {
                assert(t1n * dy <= (b.top - p0.y) * t1d);
                lemma_frac_le_trans(t0n, t0d, t1n, t1d, b.top - p0.y, dy);
                assert(p0.y * t0d + t0n * dy <= b.top * t0d) by (nonlinear_arith)
                    requires
                        t0n * dy <= (b.top - p0.y) * t0d,
                ;
            } else {
                assert((p0.y - b.top) * t0d <= t0n * (-dy));
                assert(p0.y * t0d + t0n * dy <= b.top * t0d) by (nonlinear_arith)
                    requires
                        (p0.y - b.top) * t0d <= t0n * (-dy),
                ;
            }
        }
        // the hypothesis puts that very point strictly outside
        assert(segment_point_outside(p0, p1, b, t0n, t0d));
        assert(false);
    }
}

} // verus!
