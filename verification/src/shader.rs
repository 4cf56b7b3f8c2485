//! The shading contract: a vertex stage producing positioned attribute
//! bundles, a fragment stage producing colors, and barycentric
//! interpolation of attributes across a triangle's inside pixels.

use vstd::prelude::*;
use crate::basetype::{Point2, Point3, coord_in_range};
use crate::color::{Color, CHANNEL_ONE};
use crate::num::{round_div, round_div_i128};
use crate::triangle::{
    bary_entry_wf, bary_pixels_spec, lemma_bary_pixels_wf, travel_triangle_barycentric,
    triangle_bbox, BaryCoord,
};

verus! {

/// The weighted combination of three values by a triple of barycentric
/// weights summing to one: `alpha * v0 + beta * v1 + gamma * v2`.
/// Attribute types implement this to ride through the pipeline.
pub trait Interpolate: Sized {
    fn interpolate3(v0: &Self, v1: &Self, v2: &Self, w: &BaryCoord) -> Self;
}

/// One interpolated channel over weights scaled to `CHANNEL_ONE`: the
/// truncated weighted average, saturating at the largest channel value.
pub open spec fn combined_channel_spec(c0: u32, c1: u32, c2: u32, wa: int, wb: int, wc: int) -> u32
    recommends
        0 <= wa,
        0 <= wb,
        0 <= wc,
{
    let v = (wa * c0 + wb * c1 + wc * c2) / (CHANNEL_ONE as int);
    if v > 0xffff_ffff {
        0xffff_ffffu32
    } else {
        v as u32
    }
}

/// One interpolated channel: the weighted average of the three channel
/// values by weights already scaled to `CHANNEL_ONE`.
fn combine_channel(c0: u32, c1: u32, c2: u32, wa: i64, wb: i64, wc: i64) -> (r: u32)
    requires
        0 <= wa <= 0x1_0000,
        0 <= wb <= 0x1_0000,
        0 <= wc <= 0x1_0000,
    ensures
        r == combined_channel_spec(c0, c1, c2, wa as int, wb as int, wc as int),
{
    proof {
        crate::triangle::lemma_abs_mul_le(wa as int, c0 as int, 0x1_0000, 0x1_0000_0000);
        crate::triangle::lemma_abs_mul_le(wb as int, c1 as int, 0x1_0000, 0x1_0000_0000);
        crate::triangle::lemma_abs_mul_le(wc as int, c2 as int, 0x1_0000, 0x1_0000_0000);
    }
    let sum: u64 = (wa as u64) * (c0 as u64) + (wb as u64) * (c1 as u64) + (wc as u64) * (
    c2 as u64);
    let avg: u64 = sum / (CHANNEL_ONE as u64);
    if avg > 0xffff_ffff {
        0xffff_ffff
    } else {
        avg as u32
    }
}

impl Interpolate for Color {
    /// Channel-wise weighted average: each channel is the combination of
    /// the three inputs' channels by the weights, scaled to
    /// `CHANNEL_ONE` and rounded, then truncated back. Weights outside
    /// the unit simplex (which the rasterization pipeline never
    /// produces) fall back to the first vertex's color.
    fn interpolate3(v0: &Self, v1: &Self, v2: &Self, w: &BaryCoord) -> (r: Self)
        ensures
            ({
                let simplex = 1 <= w.denom <= 0x40_0000_0000_0000_0000_0000_0000 && 0
                    <= w.alpha_num <= w.denom && 0 <= w.beta_num <= w.denom && 0 <= w.gamma_num
                    <= w.denom;
                let wa = round_div(w.alpha_num * 0x1_0000, w.denom as int);
                let wb = round_div(w.beta_num * 0x1_0000, w.denom as int);
                let wc = round_div(w.gamma_num * 0x1_0000, w.denom as int);
                if simplex {
                    r == (Color {
                        r: combined_channel_spec(v0.r, v1.r, v2.r, wa, wb, wc),
                        g: combined_channel_spec(v0.g, v1.g, v2.g, wa, wb, wc),
                        b: combined_channel_spec(v0.b, v1.b, v2.b, wa, wb, wc),
                        a: combined_channel_spec(v0.a, v1.a, v2.a, wa, wb, wc),
                    })
                } else {
                    r == *v0
                }
            }),
    {
        if w.denom >= 1 && w.denom <= 0x40_0000_0000_0000_0000_0000_0000 && 0 <= w.alpha_num
            && w.alpha_num <= w.denom && 0 <= w.beta_num && w.beta_num <= w.denom && 0
            <= w.gamma_num && w.gamma_num <= w.denom {
            proof {
                crate::triangle::lemma_abs_mul_le(
                    w.alpha_num as int,
                    0x1_0000,
                    0x40_0000_0000_0000_0000_0000_0000,
                    0x1_0000,
                );
                crate::triangle::lemma_abs_mul_le(
                    w.beta_num as int,
                    0x1_0000,
                    0x40_0000_0000_0000_0000_0000_0000,
                    0x1_0000,
                );
                crate::triangle::lemma_abs_mul_le(
                    w.gamma_num as int,
                    0x1_0000,
                    0x40_0000_0000_0000_0000_0000_0000,
                    0x1_0000,
                );
            }
            let wa128: i128 = round_div_i128(w.alpha_num * 0x1_0000, w.denom);
            let wb128: i128 = round_div_i128(w.beta_num * 0x1_0000, w.denom);
            let wc128: i128 = round_div_i128(w.gamma_num * 0x1_0000, w.denom);
            proof {
                lemma_scaled_weight_range(w.alpha_num as int, w.denom as int);
                lemma_scaled_weight_range(w.beta_num as int, w.denom as int);
                lemma_scaled_weight_range(w.gamma_num as int, w.denom as int);
            }
            let wa: i64 = wa128 as i64;
            let wb: i64 = wb128 as i64;
            let wc: i64 = wc128 as i64;
            Color {
                r: combine_channel(v0.r, v1.r, v2.r, wa, wb, wc),
                g: combine_channel(v0.g, v1.g, v2.g, wa, wb, wc),
                b: combine_channel(v0.b, v1.b, v2.b, wa, wb, wc),
                a: combine_channel(v0.a, v1.a, v2.a, wa, wb, wc),
            }
        } else {
            *v0
        }
    }
}

/// A weight scaled to `CHANNEL_ONE` stays within `[0, CHANNEL_ONE]`.
proof fn lemma_scaled_weight_range(n: int, d: int)
    requires
        d >= 1,
        0 <= n <= d,
    ensures
        0 <= round_div(n * 0x1_0000, d) <= 0x1_0000,
{
    assert(0 * d <= n * 0x1_0000 && n * 0x1_0000 <= 0x1_0000 * d) by (nonlinear_arith)
        requires
            d >= 1 && 0 <= n <= d,
    ;
    crate::num::lemma_round_div_bounds(n * 0x1_0000, d, 0, 0x1_0000);
}

/// A per-vertex bundle: a 3D position (x and y place the vertex on the
/// raster; z is reserved) and an attribute for the fragment stage.
pub struct VertexFs<V> {
    pub position: Point3,
    pub attribute: V,
}

/// The two user-supplied stages of the shading pipeline. The vertex
/// stage is a pure function of an index into a flat vertex stream; the
/// fragment stage turns one interpolated bundle into a color.
pub trait Shader<V: Interpolate> {
    fn vertex_shader(&self, index: usize) -> VertexFs<V>;

    fn fragment_shader(&self, vertex: VertexFs<V>) -> Color;
}

/// Every coordinate of the position is within the supported range.
pub open spec fn position_in_range(p: Point3) -> bool {
    coord_in_range(p.x as int) && coord_in_range(p.y as int) && coord_in_range(p.z as int)
}

/// Tests whether a position is within the supported coordinate range.
pub fn position_within_range(p: &Point3) -> (r: bool)
    ensures
        r == position_in_range(*p),
{
    -crate::num::COORD_LIMIT <= p.x && p.x <= crate::num::COORD_LIMIT
        && -crate::num::COORD_LIMIT <= p.y && p.y <= crate::num::COORD_LIMIT
        && -crate::num::COORD_LIMIT <= p.z && p.z <= crate::num::COORD_LIMIT
}

/// One coordinate interpolated by exact barycentric weights, rounded to
/// the nearest fixed-point unit.
pub open spec fn interp_coord(c0: i64, c1: i64, c2: i64, w: BaryCoord) -> int {
    round_div(w.alpha_num * c0 + w.beta_num * c1 + w.gamma_num * c2, w.denom as int)
}

/// The position interpolated by exact barycentric weights.
pub open spec fn interp_position(p0: Point3, p1: Point3, p2: Point3, w: BaryCoord) -> Point3 {
    Point3 {
        x: interp_coord(p0.x, p1.x, p2.x, w) as i64,
        y: interp_coord(p0.y, p1.y, p2.y, w) as i64,
        z: interp_coord(p0.z, p1.z, p2.z, w) as i64,
    }
}

fn interp_coord_exec(c0: i64, c1: i64, c2: i64, w: &BaryCoord) -> (r: i64)
    requires
        coord_in_range(c0 as int),
        coord_in_range(c1 as int),
        coord_in_range(c2 as int),
        1 <= w.denom <= 0x40_0000_0000_0000_0000_0000_0000,
        0 <= w.alpha_num <= w.denom,
        0 <= w.beta_num <= w.denom,
        0 <= w.gamma_num <= w.denom,
        w.alpha_num + w.beta_num + w.gamma_num == w.denom,
    ensures
        r == interp_coord(c0, c1, c2, *w),
        coord_in_range(r as int),
{
    let ghost lo: int = if c0 <= c1 && c0 <= c2 {
        c0 as int
    } else if c1 <= c2 {
        c1 as int
    } else {
        c2 as int
    };
    let ghost hi: int = if c0 >= c1 && c0 >= c2 {
        c0 as int
    } else if c1 >= c2 {
        c1 as int
    } else {
        c2 as int
    };
    proof {
        crate::triangle::lemma_abs_mul_le(
            w.alpha_num as int,
            c0 as int,
            0x40_0000_0000_0000_0000_0000_0000,
            0x100_0000,
        );
        crate::triangle::lemma_abs_mul_le(
            w.beta_num as int,
            c1 as int,
            0x40_0000_0000_0000_0000_0000_0000,
            0x100_0000,
        );
        crate::triangle::lemma_abs_mul_le(
            w.gamma_num as int,
            c2 as int,
            0x40_0000_0000_0000_0000_0000_0000,
            0x100_0000,
        );
        assert(lo * w.denom <= w.alpha_num * c0 + w.beta_num * c1 + w.gamma_num * c2 && w.alpha_num
            * c0 + w.beta_num * c1 + w.gamma_num * c2 <= hi * w.denom) by (nonlinear_arith)
            requires
                w.alpha_num >= 0 && w.beta_num >= 0 && w.gamma_num >= 0 && w.alpha_num + w.beta_num
                    + w.gamma_num == w.denom && lo <= c0 as int <= hi && lo <= c1 as int <= hi && lo
                    <= c2 as int <= hi,
        ;
        assert(-(w.denom * 0x100_0000) <= w.alpha_num * c0 + w.beta_num * c1 && w.alpha_num * c0
            + w.beta_num * c1 <= w.denom * 0x100_0000) by (nonlinear_arith)
            requires
                w.alpha_num >= 0 && w.beta_num >= 0 && w.alpha_num + w.beta_num <= w.denom
                    && -0x100_0000 <= c0 as int <= 0x100_0000 && -0x100_0000 <= c1 as int
                    <= 0x100_0000,
        ;
        assert(-(w.denom * 0x100_0000) <= lo * w.denom && hi * w.denom <= w.denom * 0x100_0000)
            by (nonlinear_arith)
            requires
                w.denom >= 1 && -0x100_0000 <= lo <= 0x100_0000 && -0x100_0000 <= hi <= 0x100_0000,
        ;
        crate::num::lemma_round_div_bounds(
            w.alpha_num * c0 + w.beta_num * c1 + w.gamma_num * c2,
            w.denom as int,
            lo,
            hi,
        );
    }
    let num: i128 = w.alpha_num * (c0 as i128) + w.beta_num * (c1 as i128) + w.gamma_num * (
    c2 as i128);
    let r128: i128 = round_div_i128(num, w.denom);
    r128 as i64
}

impl<V: Interpolate> VertexFs<V> {
    /// Rasterizes the triangle of the three bundles with the barycentric
    /// fill over its own bounding box and interpolates position and
    /// attribute for every inside pixel, in the fill's order.
    pub fn collect_triangle_barycentric(
        v_0: &VertexFs<V>,
        v_1: &VertexFs<V>,
        v_2: &VertexFs<V>,
    ) -> (r: Vec<VertexFs<V>>)
        requires
            position_in_range(v_0.position),
            position_in_range(v_1.position),
            position_in_range(v_2.position),
        ensures
            ({
                let p0 = Point2 { x: v_0.position.x, y: v_0.position.y };
                let p1 = Point2 { x: v_1.position.x, y: v_1.position.y };
                let p2 = Point2 { x: v_2.position.x, y: v_2.position.y };
                let cells = bary_pixels_spec(p0, p1, p2, triangle_bbox(p0, p1, p2));
                &&& r@.len() == cells.len()
                &&& forall|k: int|
                    0 <= k < cells.len() ==> (#[trigger] r@[k]).position == interp_position(
                        v_0.position,
                        v_1.position,
                        v_2.position,
                        cells[k].1,
                    )
                &&& forall|k: int|
                    0 <= k < cells.len() ==> position_in_range((#[trigger] r@[k]).position)
            }),
    {
        let p_0 = Point2 { x: v_0.position.x, y: v_0.position.y };
        let p_1 = Point2 { x: v_1.position.x, y: v_1.position.y };
        let p_2 = Point2 { x: v_2.position.x, y: v_2.position.y };
        let mut pts: Vec<Point2> = Vec::new();
        pts.push(p_0);
        pts.push(p_1);
        pts.push(p_2);
        let bbox = match crate::basetype::Bbox2::from_points(&pts) {
            Some(b) => b,
            None => {
                proof {
                    assert(false);
                }
                crate::basetype::Bbox2::new(0, -1, 0, -1)
            },
        };
        proof {
            assert(pts@[0] == p_0 && pts@[1] == p_1 && pts@[2] == p_2);
            assert(bbox == triangle_bbox(p_0, p_1, p_2));
            lemma_bary_pixels_wf(p_0, p_1, p_2, bbox);
        }
        let cells = travel_triangle_barycentric(&p_0, &p_1, &p_2, &bbox);
        let ghost cells_spec = bary_pixels_spec(p_0, p_1, p_2, triangle_bbox(p_0, p_1, p_2));
        let mut out: Vec<VertexFs<V>> = Vec::new();
        let mut i: usize = 0;
        while i < cells.len()
            invariant
                cells@ == cells_spec,
                forall|k: int| 0 <= k < cells@.len() ==> bary_entry_wf(#[trigger] cells@[k]),
                position_in_range(v_0.position),
                position_in_range(v_1.position),
                position_in_range(v_2.position),
                i <= cells@.len(),
                out@.len() == i,
                forall|k: int|
                    0 <= k < i ==> (#[trigger] out@[k]).position == interp_position(
                        v_0.position,
                        v_1.position,
                        v_2.position,
                        cells@[k].1,
                    ),
                forall|k: int| 0 <= k < i ==> position_in_range((#[trigger] out@[k]).position),
            decreases cells@.len() - i,
        {
            let w = cells[i].1;
            let px = interp_coord_exec(v_0.position.x, v_1.position.x, v_2.position.x, &w);
            let py = interp_coord_exec(v_0.position.y, v_1.position.y, v_2.position.y, &w);
            let pz = interp_coord_exec(v_0.position.z, v_1.position.z, v_2.position.z, &w);
            let attribute = V::interpolate3(&v_0.attribute, &v_1.attribute, &v_2.attribute, &w);
            out.push(VertexFs { position: Point3 { x: px, y: py, z: pz }, attribute });
            i = i + 1;
        }
        out
    }
}

} // verus!
