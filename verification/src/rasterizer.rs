//! The framebuffer and its drawing API: an owned RGBA8 byte buffer,
//! clipped pixel writes with a vertical flip, line drawing, and the
//! shaded-triangle pipeline.

use vstd::prelude::*;
use crate::basetype::{Bbox2, Pixel, Point2, Viewport, point_in_range};
use crate::color::{channel_byte, Color};
use crate::line::{bres_pixels_spec, clip_line, clip_line_spec, travel_line_bresenham};
use crate::num::PIXEL_SCALE;

verus! {

/// Whether pixel `p` lies within the viewport rectangle
/// `[offset, offset + extent)` on both axes.
pub open spec fn pixel_in_viewport(vp: Viewport, p: Pixel) -> bool {
    &&& vp.offset_x <= p.x < vp.offset_x + vp.width
    &&& vp.offset_y <= p.y < vp.offset_y + vp.height
}

/// The pixel's index into the buffer, after translating to local
/// coordinates and flipping the row: rows are stored top-to-bottom.
pub open spec fn pixel_index(vp: Viewport, p: Pixel) -> int {
    (p.x - vp.offset_x) + (vp.height - 1 - (p.y - vp.offset_y)) * vp.width
}

/// The buffer after writing `color` at `p`: four bytes at the pixel's
/// index when `p` is inside the viewport, unchanged otherwise.
pub open spec fn write_pixel_spec(vp: Viewport, buf: Seq<u8>, p: Pixel, color: Color) -> Seq<u8> {
    if pixel_in_viewport(vp, p) {
        let i = 4 * pixel_index(vp, p);
        buf.update(i, channel_byte(color.r)).update(i + 1, channel_byte(color.g)).update(
            i + 2,
            channel_byte(color.b),
        ).update(i + 3, channel_byte(color.a))
    } else {
        buf
    }
}

/// The buffer after writing `color` at each of `pixels`, in order.
pub open spec fn write_pixels_spec(vp: Viewport, buf: Seq<u8>, pixels: Seq<Pixel>, color: Color)
    -> Seq<u8>
    decreases pixels.len(),
{
    if pixels.len() == 0 {
        buf
    } else {
        write_pixels_spec(vp, write_pixel_spec(vp, buf, pixels[0], color), pixels.skip(1), color)
    }
}

/// The viewport rectangle in fixed-point coordinates.
pub open spec fn viewport_bbox_spec(vp: Viewport) -> Bbox2 {
    Bbox2 {
        left: (vp.offset_x * (PIXEL_SCALE as i32)) as i64,
        right: ((vp.offset_x + vp.width as i32) as i64 * (PIXEL_SCALE as i64)) as i64,
        bottom: (vp.offset_y * (PIXEL_SCALE as i32)) as i64,
        top: ((vp.offset_y + vp.height as i32) as i64 * (PIXEL_SCALE as i64)) as i64,
    }
}

/// The rasterization target: a viewport and the RGBA8 buffer it owns,
/// `width * height * 4` bytes, rows stored from the top row down.
pub struct Rasterizer {
    pub viewport: Viewport,
    pub frame_buffer: Vec<u8>,
}

impl Rasterizer {
    /// The buffer has exactly the size the viewport calls for.
    pub open spec fn wf(self) -> bool {
        self.viewport.wf() && self.frame_buffer@.len() == self.viewport.width
            * self.viewport.height * 4
    }

    /// A rasterizer over a fresh, zeroed buffer.
    pub fn new(viewport: Viewport) -> (r: Rasterizer)
        requires
            viewport.wf(),
        ensures
            r.wf(),
            r.viewport == viewport,
            r.frame_buffer@ == Seq::new((viewport.width * viewport.height * 4) as nat, |i: int| 0u8),
    {
        proof {
            assert(viewport.width * viewport.height * 4 <= 0x2000_0000 * 4) by (nonlinear_arith)
                requires
                    viewport.width * viewport.height <= 0x2000_0000,
            ;
        }
        let count: usize = (viewport.width as usize) * (viewport.height as usize) * 4;
        let mut buf: Vec<u8> = Vec::new();
        let mut i: usize = 0;
        while i < count
            invariant
                i <= count,
                buf@.len() == i,
                forall|k: int| 0 <= k < i ==> buf@[k] == 0u8,
            decreases count - i,
        {
            buf.push(0);
            i = i + 1;
        }
        proof {
            assert(buf@ =~= Seq::new((viewport.width * viewport.height * 4) as nat, |i: int| 0u8));
        }
        Rasterizer { viewport, frame_buffer: buf }
    }

    /// Zeroes the whole buffer (opaque black with zero alpha).
    pub fn clear(&mut self)
        requires
            old(self).wf(),
        ensures
            final(self).wf(),
            final(self).viewport == old(self).viewport,
            final(self).frame_buffer@ == Seq::new(
                old(self).frame_buffer@.len(),
                |i: int| 0u8,
            ),
    {
        let count: usize = self.frame_buffer.len();
        let mut i: usize = 0;
        while i < count
            invariant
                i <= count,
                self.viewport == old(self).viewport,
                self.frame_buffer@.len() == count,
                old(self).frame_buffer@.len() == count,
                forall|k: int| 0 <= k < i ==> self.frame_buffer@[k] == 0u8,
            decreases count - i,
        {
            self.frame_buffer[i] = 0;
            i = i + 1;
        }
        proof {
            assert(self.frame_buffer@ =~= Seq::new(old(self).frame_buffer@.len(), |i: int| 0u8));
        }
    }

    /// Writes `color` at pixel `p`: a silent no-op when `p` lies outside
    /// the viewport, otherwise exactly the pixel's four bytes change, to
    /// the channels' byte values.
    pub fn draw_pixel(&mut self, p: &Pixel, color: &Color)
        requires
            old(self).wf(),
        ensures
            final(self).wf(),
            final(self).viewport == old(self).viewport,
            final(self).frame_buffer@ == write_pixel_spec(
                old(self).viewport,
                old(self).frame_buffer@,
                *p,
                *color,
            ),
            !pixel_in_viewport(old(self).viewport, *p) ==> final(self).frame_buffer@ == old(
                self,
            ).frame_buffer@,
    {
        let vp = self.viewport;
        let x: i64 = p.x as i64;
        let y: i64 = p.y as i64;
        let ox: i64 = vp.offset_x as i64;
        let oy: i64 = vp.offset_y as i64;
        let w: i64 = vp.width as i64;
        let h: i64 = vp.height as i64;
        if x < ox || x >= ox + w || y < oy || y >= oy + h {
            return;
        }
        let lx: i64 = x - ox;
        let ly: i64 = h - 1 - (y - oy);
        proof {
            assert(0 <= lx < w && 0 <= ly < h);
            assert(ly * w <= (h - 1) * w) by (nonlinear_arith)
                requires
                    ly <= h - 1 && w >= 0,
            ;
            assert(0 <= ly * w) by (nonlinear_arith)
                requires
                    ly >= 0 && w >= 0,
            ;
            assert((h - 1) * w + w == h * w && h * w == w * h) by (nonlinear_arith);
        }
        let index: usize = (lx + ly * w) as usize * 4;
        self.frame_buffer[index] = Color::to_byte(color.r);
        self.frame_buffer[index + 1] = Color::to_byte(color.g);
        self.frame_buffer[index + 2] = Color::to_byte(color.b);
        self.frame_buffer[index + 3] = Color::to_byte(color.a);
    }

    /// Clips the segment against the viewport rectangle; when anything is
    /// left, traverses it and writes `color` at every visited pixel.
    pub fn draw_line(&mut self, p_0: &Point2, p_1: &Point2, color: &Color)
        requires
            old(self).wf(),
            point_in_range(*p_0),
            point_in_range(*p_1),
        ensures
            final(self).wf(),
            final(self).viewport == old(self).viewport,
            ({
                let clip = clip_line_spec(*p_0, *p_1, viewport_bbox_spec(old(self).viewport));
                match clip {
                    Option::None => final(self).frame_buffer@ == old(self).frame_buffer@,
                    Option::Some(seg) => final(self).frame_buffer@ == write_pixels_spec(
                        old(self).viewport,
                        old(self).frame_buffer@,
                        bres_pixels_spec(seg.0, seg.1),
                        *color,
                    ),
                }
            }),
    {
        let vp = self.viewport;
        let bbox = Bbox2::new(
            (vp.offset_x as i64) * PIXEL_SCALE,
            ((vp.offset_x as i64) + (vp.width as i64)) * PIXEL_SCALE,
            (vp.offset_y as i64) * PIXEL_SCALE,
            ((vp.offset_y as i64) + (vp.height as i64)) * PIXEL_SCALE,
        );
        proof {
            assert(bbox == viewport_bbox_spec(vp));
        }
        let clip_result = clip_line(p_0, p_1, &bbox);
        if clip_result.is_none() {
            return;
        }
        let (q_0, q_1) = clip_result.unwrap();
        let pts = travel_line_bresenham(&q_0, &q_1);
        let ghost target = write_pixels_spec(
            self.viewport,
            self.frame_buffer@,
            pts@,
            *color,
        );
        proof {
            assert(pts@.skip(0) =~= pts@);
        }
        let mut i: usize = 0;
        while i < pts.len()
            invariant
                i <= pts@.len(),
                self.wf(),
                self.viewport == old(self).viewport,
                target == write_pixels_spec(
                    self.viewport,
                    self.frame_buffer@,
                    pts@.skip(i as int),
                    *color,
                ),
            decreases pts@.len() - i,
        {
            let ghost before = self.frame_buffer@;
            self.draw_pixel(&pts[i], color);
            proof {
                let rest = pts@.skip(i as int);
                assert(rest[0] == pts@[i as int]);
                assert(rest.skip(1) =~= pts@.skip(i as int + 1));
                assert(write_pixels_spec(self.viewport, before, rest, *color)
                    == write_pixels_spec(
                    self.viewport,
                    write_pixel_spec(self.viewport, before, rest[0], *color),
                    rest.skip(1),
                    *color,
                ));
            }
            i = i + 1;
        }
        proof {
            assert(pts@.skip(i as int) =~= Seq::<Pixel>::empty());
            assert(write_pixels_spec(self.viewport, self.frame_buffer@, pts@.skip(i as int), *color)
                == self.frame_buffer@);
        }
    }

    /// Runs the shading pipeline: one vertex-stage call per index in
    /// `0..times`, then every complete triple of consecutive vertices is
    /// rasterized barycentrically, its attributes interpolated per inside
    /// pixel, and each fragment color written at the truncated
    /// interpolated position. An incomplete trailing group is skipped, as
    /// is a triangle whose positions leave the supported coordinate
    /// range.
    pub fn draw<V: crate::shader::Interpolate, S: crate::shader::Shader<V>>(
        &mut self,
        shader: &S,
        times: usize,
    )
        requires
            old(self).wf(),
        ensures
            final(self).wf(),
            final(self).viewport == old(self).viewport,
            times < 3 ==> final(self).frame_buffer@ == old(self).frame_buffer@,
    {
        let mut vertices: Vec<crate::shader::VertexFs<V>> = Vec::new();
        let mut i: usize = 0;
        while i < times
            invariant
                i <= times,
                vertices@.len() == i,
                self.wf(),
                self.viewport == old(self).viewport,
                self == old(self),
            decreases times - i,
        {
            vertices.push(shader.vertex_shader(i));
            i = i + 1;
        }
        if times < 3 {
            return;
        }
        let mut base: usize = 0;
        while base <= times - 3
            invariant
                times >= 3,
                vertices@.len() == times,
                self.wf(),
                self.viewport == old(self).viewport,
            decreases times - base,
        {
            let in_range = crate::shader::position_within_range(&vertices[base].position)
                && crate::shader::position_within_range(&vertices[base + 1].position)
                && crate::shader::position_within_range(&vertices[base + 2].position);
            if in_range {
                let mut collection = crate::shader::VertexFs::collect_triangle_barycentric(
                    &vertices[base],
                    &vertices[base + 1],
                    &vertices[base + 2],
                );
                while collection.len() > 0
                    invariant
                        self.wf(),
                        self.viewport == old(self).viewport,
                        forall|k: int|
                            0 <= k < collection@.len() ==> crate::shader::position_in_range(
                                (#[trigger] collection@[k]).position,
                            ),
                    decreases collection@.len(),
                {
                    let v = collection.pop().unwrap();
                    let px: i64 = crate::num::trunc_div_i64(v.position.x, PIXEL_SCALE);
                    let py: i64 = crate::num::trunc_div_i64(v.position.y, PIXEL_SCALE);
                    let pixel = Pixel { x: px as i32, y: py as i32 };
                    let color = shader.fragment_shader(v);
                    self.draw_pixel(&pixel, &color);
                }
            }
            base = base + 3;
        }
    }
}

/// Writing a color whose channels lie below one and reading the pixel's
/// bytes back yields exactly `floor(channel * 255 / CHANNEL_ONE)` for
/// each channel: the truncating conversion, the same on every call with
/// the same inputs.
pub proof fn lemma_color_roundtrip(vp: Viewport, buf: Seq<u8>, p: Pixel, color: Color)
    requires
        vp.wf(),
        buf.len() == vp.width * vp.height * 4,
        pixel_in_viewport(vp, p),
        color.r < crate::color::CHANNEL_ONE,
        color.g < crate::color::CHANNEL_ONE,
        color.b < crate::color::CHANNEL_ONE,
        color.a < crate::color::CHANNEL_ONE,
    ensures
        ({
            let out = write_pixel_spec(vp, buf, p, color);
            let i = 4 * pixel_index(vp, p);
            &&& out.len() == buf.len()
            &&& out[i] == ((color.r * 255) / (crate::color::CHANNEL_ONE as int)) as u8
            &&& out[i + 1] == ((color.g * 255) / (crate::color::CHANNEL_ONE as int)) as u8
            &&& out[i + 2] == ((color.b * 255) / (crate::color::CHANNEL_ONE as int)) as u8
            &&& out[i + 3] == ((color.a * 255) / (crate::color::CHANNEL_ONE as int)) as u8
        }),
{
    let lx = p.x - vp.offset_x;
    let ly = vp.height - 1 - (p.y - vp.offset_y);
    assert(0 <= lx < vp.width && 0 <= ly < vp.height);
    assert(0 <= ly * vp.width && ly * vp.width <= (vp.height - 1) * vp.width) by (nonlinear_arith)
        requires
            0 <= ly <= vp.height - 1 && vp.width >= 0,
    ;
    assert((vp.height - 1) * vp.width + vp.width == vp.height * vp.width && vp.height * vp.width
        == vp.width * vp.height) by (nonlinear_arith);
    assert(0 <= pixel_index(vp, p) < vp.width * vp.height);
}

} // verus!
