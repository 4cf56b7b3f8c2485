//! Base geometric types: fixed-point points, integer pixel positions,
//! axis-aligned bounding boxes and the viewport description.

use vstd::prelude::*;
use crate::num::COORD_LIMIT;

verus! {

/// A 2D position in fixed-point coordinates (units of 1/256 pixel).
#[derive(Clone, Copy, PartialEq, Eq, Structural, Debug)]
pub struct Point2 {
    pub x: i64,
    pub y: i64,
}

/// A 3D position in fixed-point coordinates; `z` is reserved for a depth
/// stage and never read by the rasterization routines.
#[derive(Clone, Copy, PartialEq, Eq, Structural, Debug)]
pub struct Point3 {
    pub x: i64,
    pub y: i64,
    pub z: i64,
}

/// An integer pixel position.
#[derive(Clone, Copy, PartialEq, Eq, Structural, Debug)]
pub struct Pixel {
    pub x: i32,
    pub y: i32,
}

/// A coordinate small enough that the barycentric products stay in `i128`.
pub open spec fn coord_in_range(c: int) -> bool {
    -COORD_LIMIT <= c <= COORD_LIMIT
}

/// Both coordinates of `p` are within [`COORD_LIMIT`].
pub open spec fn point_in_range(p: Point2) -> bool {
    coord_in_range(p.x as int) && coord_in_range(p.y as int)
}

impl Point2 {
    pub fn new(x: i64, y: i64) -> (r: Point2)
        ensures
            r == (Point2 { x, y }),
    {
        Point2 { x, y }
    }
}

impl Point3 {
    pub fn new(x: i64, y: i64, z: i64) -> (r: Point3)
        ensures
            r == (Point3 { x, y, z }),
    {
        Point3 { x, y, z }
    }

    /// The 2D projection used for raster placement.
    pub fn xy(&self) -> (r: Point2)
        ensures
            r == (Point2 { x: self.x, y: self.y }),
    {
        Point2 { x: self.x, y: self.y }
    }
}

impl Pixel {
    pub fn new(x: i32, y: i32) -> (r: Pixel)
        ensures
            r == (Pixel { x, y }),
    {
        Pixel { x, y }
    }
}

/// An axis-aligned rectangle over fixed-point coordinates, used both as a
/// clip region and as a triangle's bounding box. It is empty when
/// `left > right` or `bottom > top`.
#[derive(Clone, Copy, PartialEq, Eq, Structural, Debug)]
pub struct Bbox2 {
    pub left: i64,
    pub right: i64,
    pub bottom: i64,
    pub top: i64,
}

impl Bbox2 {
    /// The box holds at least one point.
    pub open spec fn spec_nonempty(self) -> bool {
        self.left <= self.right && self.bottom <= self.top
    }

    /// The intersection of two boxes, before the emptiness test.
    pub open spec fn spec_intersect(self, other: Bbox2) -> Bbox2 {
        Bbox2 {
            left: if self.left >= other.left { self.left } else { other.left },
            right: if self.right <= other.right { self.right } else { other.right },
            bottom: if self.bottom >= other.bottom { self.bottom } else { other.bottom },
            top: if self.top <= other.top { self.top } else { other.top },
        }
    }

    pub fn new(left: i64, right: i64, bottom: i64, top: i64) -> (r: Bbox2)
        ensures
            r == (Bbox2 { left, right, bottom, top }),
    {
        Bbox2 { left, right, bottom, top }
    }

    /// The overlapping rectangle of `self` and `other`, or `None` when the
    /// two do not overlap. An empty result means there is nothing to
    /// rasterize, never an error.
    pub fn intersect(&self, other: &Bbox2) -> (r: Option<Bbox2>)
        ensures
            self.spec_intersect(*other).spec_nonempty() ==> r
                == Some(self.spec_intersect(*other)),
            !self.spec_intersect(*other).spec_nonempty() ==> r is None,
    {
        let left = if self.left >= other.left { self.left } else { other.left };
        let right = if self.right <= other.right { self.right } else { other.right };
        let bottom = if self.bottom >= other.bottom { self.bottom } else { other.bottom };
        let top = if self.top <= other.top { self.top } else { other.top };
        if left <= right && bottom <= top {
            Some(Bbox2 { left, right, bottom, top })
        } else {
            None
        }
    }

    /// The minimal rectangle enclosing `points`, or `None` for an empty
    /// input set (for which no enclosing box exists).
    pub fn from_points(points: &Vec<Point2>) -> (r: Option<Bbox2>)
        ensures
            points@.len() == 0 <==> r is None,
            r is Some ==> {
                let b = r->Some_0;
                &&& forall|i: int|
                    0 <= i < points@.len() ==> b.left <= #[trigger] points@[i].x <= b.right
                        && b.bottom <= points@[i].y <= b.top
                &&& exists|i: int| 0 <= i < points@.len() && points@[i].x == b.left
                &&& exists|i: int| 0 <= i < points@.len() && points@[i].x == b.right
                &&& exists|i: int| 0 <= i < points@.len() && points@[i].y == b.bottom
                &&& exists|i: int| 0 <= i < points@.len() && points@[i].y == b.top
            },
    {
        if points.len() == 0 {
            return None;
        }
        let first = points[0];
        let mut b = Bbox2 {
            left: first.x,
            right: first.x,
            bottom: first.y,
            top: first.y,
        };
        let mut k: usize = 1;
        while k < points.len()
            invariant
                1 <= k <= points@.len(),
                forall|i: int|
                    0 <= i < k ==> b.left <= #[trigger] points@[i].x <= b.right && b.bottom
                        <= points@[i].y <= b.top,
                exists|i: int| 0 <= i < k && points@[i].x == b.left,
                exists|i: int| 0 <= i < k && points@[i].x == b.right,
                exists|i: int| 0 <= i < k && points@[i].y == b.bottom,
                exists|i: int| 0 <= i < k && points@[i].y == b.top,
            decreases points@.len() - k,
        {
            let p = points[k];
            if p.x < b.left {
                b.left = p.x;
            }
            if p.x > b.right {
                b.right = p.x;
            }
            if p.y < b.bottom {
                b.bottom = p.y;
            }
            if p.y > b.top {
                b.top = p.y;
            }
            k = k + 1;
        }
        Some(b)
    }
}

/// The rectangular target region of the pixel buffer: a positive extent
/// and an integer offset for each axis.
#[derive(Clone, Copy, PartialEq, Eq, Structural, Debug)]
pub struct Viewport {
    pub width: u32,
    pub height: u32,
    pub offset_x: i32,
    pub offset_y: i32,
}

/// The reason a viewport description was rejected.
#[derive(Clone, Copy, PartialEq, Eq, Structural, Debug)]
pub enum ViewportError {
    /// `width` or `height` was zero.
    ZeroDimension,
    /// An extent exceeds the largest supported viewport dimension.
    TooLarge,
    /// An offset lies outside the supported coordinate range.
    OffsetOutOfRange,
}

impl Viewport {
    /// A viewport every drawing routine can rely on: positive extents, a
    /// buffer size that fits comfortably in a `usize`, and offsets small
    /// enough that the viewport rectangle stays within the fixed-point
    /// coordinate range.
    pub open spec fn wf(self) -> bool {
        &&& self.width > 0 && self.height > 0
        &&& self.width <= 0x8000 && self.height <= 0x8000
        &&& self.width * self.height <= 0x2000_0000
        &&& -0x8000 <= self.offset_x <= 0x8000
        &&& -0x8000 <= self.offset_y <= 0x8000
    }

    /// Validates and builds a viewport. A zero extent is the one input
    /// this library treats as a hard error, since all downstream
    /// arithmetic assumes positive dimensions; an oversized extent is
    /// rejected too, since its buffer could not be allocated.
    pub fn new(width: u32, height: u32, offset_x: i32, offset_y: i32) -> (r: Result<
        Viewport,
        ViewportError,
    >)
        ensures
            width == 0 || height == 0 ==> r == Err::<Viewport, ViewportError>(
                ViewportError::ZeroDimension,
            ),
            width > 0 && height > 0 && (width > 0x8000 || height > 0x8000 || width * height
                > 0x2000_0000) ==> r == Err::<Viewport, ViewportError>(ViewportError::TooLarge),
            width > 0 && height > 0 && width <= 0x8000 && height <= 0x8000 && width * height
                <= 0x2000_0000 && !(-0x8000
                <= offset_x <= 0x8000 && -0x8000 <= offset_y <= 0x8000) ==> r == Err::<
                Viewport,
                ViewportError,
            >(ViewportError::OffsetOutOfRange),
            (Viewport { width, height, offset_x, offset_y }).wf() ==> r == Ok::<
                Viewport,
                ViewportError,
            >(Viewport { width, height, offset_x, offset_y }),
            r is Ok ==> r->Ok_0.wf(),
    {
        proof {
            assert((width as int) * (height as int) <= 0xffff_ffff * 0xffff_ffff)
                by (nonlinear_arith)
                requires
                    width <= 0xffff_ffffu32 && height <= 0xffff_ffffu32,
            ;
        }
        if width == 0 || height == 0 {
            Err(ViewportError::ZeroDimension)
        } else if width > 0x8000 || height > 0x8000 || (width as u128) * (height as u128)
            > 0x2000_0000 {
            Err(ViewportError::TooLarge)
        } else if offset_x < -0x8000 || offset_x > 0x8000 || offset_y < -0x8000 || offset_y
            > 0x8000 {
            Err(ViewportError::OffsetOutOfRange)
        } else {
            proof {
                assert((width as int) * (height as int) <= 0x8000 * 0x8000) by (nonlinear_arith)
                    requires
                        width <= 0x8000u32 && height <= 0x8000u32,
                ;
            }
            Ok(Viewport { width, height, offset_x, offset_y })
        }
    }
}

} // verus!
