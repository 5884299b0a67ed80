use vstd::prelude::*;
use crate::fixed::{fxmul, tdiv, tdiv_i64, lemma_fxmul_bound, lemma_fxmul_self_nonneg,
    lemma_tdiv_bound, lemma_tdiv_cancel};
use crate::math::{vadd, vscale, vsub, Ray, Vector3};

verus! {

/// Largest viewport height or width the camera accepts (half the coordinate
/// range), which keeps every generated ray inside the coordinate range.
pub const VIEW_MAX: i64 = 0x200_0000;

/// The image plane a pinhole camera shoots through: span vectors for the two
/// viewport axes, the eye point, and the lower-left corner of the viewport,
/// one focal unit in front of the eye.  All derived once and held immutable.
#[derive(Debug, Clone, Copy, PartialEq, Eq, Structural)]
pub struct Plane {
    pub width: Vector3,
    pub height: Vector3,
    pub origin: Vector3,
    pub lower_left_corner: Vector3,
}

impl Plane {
    /// The shape every plane built by `with_height_and_width` has: the eye at
    /// the world origin, axis-aligned span vectors no longer than `VIEW_MAX`,
    /// and the lower-left corner half a span down and left, one unit forward.
    pub open spec fn valid(&self) -> bool {
        &&& self.origin == (Vector3 { x: 0, y: 0, z: 0 })
        &&& self.width.y == 0 && self.width.z == 0
        &&& 0 <= self.width.x <= VIEW_MAX
        &&& self.height.x == 0 && self.height.z == 0
        &&& 0 <= self.height.y <= VIEW_MAX
        &&& self.lower_left_corner == (Vector3 {
            x: (-tdiv(self.width.x as int, 2)) as i64,
            y: (-tdiv(self.height.y as int, 2)) as i64,
            z: -65536i64,
        })
    }

    pub fn with_height_and_width(height: i64, width: i64) -> (p: Plane)
        requires
            0 <= height <= VIEW_MAX,
            0 <= width <= VIEW_MAX,
        ensures
            p.height == (Vector3 { x: 0, y: height, z: 0 }),
            p.width == (Vector3 { x: width, y: 0, z: 0 }),
            p.origin == (Vector3 { x: 0, y: 0, z: 0 }),
            p.valid(),
    {
        proof {
            lemma_tdiv_bound(width as int, 2);
            lemma_tdiv_bound(height as int, 2);
        }
        let half_w: i64 = tdiv_i64(width, 2);
        let half_h: i64 = tdiv_i64(height, 2);
        Plane {
            height: Vector3 { x: 0, y: height, z: 0 },
            width: Vector3 { x: width, y: 0, z: 0 },
            origin: Vector3 { x: 0, y: 0, z: 0 },
            lower_left_corner: Vector3 { x: -half_w, y: -half_h, z: -65536 },
        }
    }

    pub fn get_height(&self) -> (r: Vector3)
        ensures
            r == self.height,
    {
        self.height
    }

    pub fn get_width(&self) -> (r: Vector3)
        ensures
            r == self.width,
    {
        self.width
    }

    pub fn get_origin(&self) -> (r: Vector3)
        ensures
            r == self.origin,
    {
        self.origin
    }

    pub fn get_lower_left_corner(&self) -> (r: Vector3)
        ensures
            r == self.lower_left_corner,
    {
        self.lower_left_corner
    }
}

/// The ray the camera fires through normalized viewport coordinates `(u, v)`:
/// from the eye toward `lower_left + u * width + v * height`.
pub open spec fn camera_ray(c: Camera, u: int, v: int) -> Ray {
    Ray {
        origin: c.camera_plane.origin,
        direction: vadd(
            c.camera_plane.lower_left_corner,
            vsub(
                vadd(vscale(c.camera_plane.width, u), vscale(c.camera_plane.height, v)),
                c.camera_plane.origin,
            ),
        ),
    }
}

/// The pinhole camera: it owns its precomputed image plane.
#[derive(Debug, Clone, Copy, PartialEq, Eq, Structural)]
pub struct Camera {
    pub camera_plane: Plane,
}

impl Camera {
    pub fn centered_in_plane_with_height_and_width(height: i64, width: i64) -> (c: Camera)
        requires
            0 <= height <= VIEW_MAX,
            0 <= width <= VIEW_MAX,
        ensures
            c.camera_plane.valid(),
            c.camera_plane.height == (Vector3 { x: 0, y: height, z: 0 }),
            c.camera_plane.width == (Vector3 { x: width, y: 0, z: 0 }),
    {
        Camera { camera_plane: Plane::with_height_and_width(height, width) }
    }

    /// The sample ray for viewport coordinates `(u, v)`, both fixed-point
    /// values in `[0, 1]`.
    pub fn get_ray(&self, u: i64, v: i64) -> (r: Ray)
        requires
            self.camera_plane.valid(),
            0 <= u <= 65536,
            0 <= v <= 65536,
        ensures
            r == camera_ray(*self, u as int, v as int),
            r.valid(),
    {
        proof {
            lemma_fxmul_bound(self.camera_plane.width.x as int, u as int, VIEW_MAX as int, 65536);
            lemma_fxmul_bound(self.camera_plane.height.y as int, v as int, VIEW_MAX as int, 65536);
            lemma_tdiv_cancel(VIEW_MAX as int, 65536);
            lemma_tdiv_bound(self.camera_plane.width.x as int, 2);
            lemma_tdiv_bound(self.camera_plane.height.y as int, 2);
            assert(fxmul(0, u as int) == 0 && fxmul(0, v as int) == 0) by {
                assert(0 * (u as int) == 0 && 0 * (v as int) == 0) by (nonlinear_arith);
            }
        }
        let span: Vector3 = self.camera_plane.get_width().scaled_by(u).add_with(
            &self.camera_plane.get_height().scaled_by(v),
        ).sub_with(&self.camera_plane.get_origin());
        let direction: Vector3 = self.camera_plane.get_lower_left_corner().add_with(&span);
        proof {
            assert(fxmul(-65536, -65536) == 65536) by {
                lemma_tdiv_cancel(65536, 65536);
                assert((-65536) * (-65536) == 65536 * 65536) by (nonlinear_arith);
            }
            lemma_fxmul_self_nonneg(direction.x as int);
            lemma_fxmul_self_nonneg(direction.y as int);
        }
        Ray::new(self.camera_plane.get_origin(), direction)
    }
}

} // verus!
