use vstd::prelude::*;
use crate::fixed::{
    fxmul, fxdiv, fxsqrt, tdiv, fx_mul, fx_div, fx_sqrt, lemma_fxmul_bound,
    lemma_fxmul_self_nonneg, lemma_sqrt_floor_bounds, lemma_tdiv_bound, COORD_MAX, T_FAR,
};

verus! {

/// Bound under which every componentwise fixed-point product of two vectors
/// fits a 64-bit scalar with a wide margin.
pub const VEC_MAX: i64 = 0x1000_0000;

/// A three-component fixed-point vector; also used as an RGB colour, with the
/// components read as red, green and blue.
#[derive(Debug, Clone, Copy, PartialEq, Eq, Structural)]
pub struct Vector3 {
    pub x: i64,
    pub y: i64,
    pub z: i64,
}

/// All components of `v` lie within `[-m, m]`.
pub open spec fn within(v: Vector3, m: int) -> bool {
    &&& -m <= v.x <= m
    &&& -m <= v.y <= m
    &&& -m <= v.z <= m
}

/// The coordinate range every scene point and ray is kept inside.
pub open spec fn in_coord_range(v: Vector3) -> bool {
    within(v, COORD_MAX as int)
}

/// Componentwise sum.
pub open spec fn vadd(a: Vector3, b: Vector3) -> Vector3 {
    Vector3 { x: (a.x + b.x) as i64, y: (a.y + b.y) as i64, z: (a.z + b.z) as i64 }
}

/// Componentwise difference.
pub open spec fn vsub(a: Vector3, b: Vector3) -> Vector3 {
    Vector3 { x: (a.x - b.x) as i64, y: (a.y - b.y) as i64, z: (a.z - b.z) as i64 }
}

/// Every component scaled by the fixed-point scalar `s`.
pub open spec fn vscale(a: Vector3, s: int) -> Vector3 {
    Vector3 {
        x: fxmul(a.x as int, s) as i64,
        y: fxmul(a.y as int, s) as i64,
        z: fxmul(a.z as int, s) as i64,
    }
}

/// Every component divided by the positive fixed-point scalar `s`.
pub open spec fn vdiv_scalar(a: Vector3, s: int) -> Vector3 {
    Vector3 {
        x: fxdiv(a.x as int, s) as i64,
        y: fxdiv(a.y as int, s) as i64,
        z: fxdiv(a.z as int, s) as i64,
    }
}

/// Componentwise fixed-point product.
pub open spec fn vmul(a: Vector3, b: Vector3) -> Vector3 {
    Vector3 {
        x: fxmul(a.x as int, b.x as int) as i64,
        y: fxmul(a.y as int, b.y as int) as i64,
        z: fxmul(a.z as int, b.z as int) as i64,
    }
}

/// Fixed-point dot product, unclamped.
pub open spec fn dot3(a: Vector3, b: Vector3) -> int {
    fxmul(a.x as int, b.x as int) + fxmul(a.y as int, b.y as int) + fxmul(a.z as int, b.z as int)
}

/// Fixed-point cross product.
pub open spec fn cross3(a: Vector3, b: Vector3) -> Vector3 {
    Vector3 {
        x: (fxmul(a.y as int, b.z as int) - fxmul(a.z as int, b.y as int)) as i64,
        y: (fxmul(a.z as int, b.x as int) - fxmul(a.x as int, b.z as int)) as i64,
        z: (fxmul(a.x as int, b.y as int) - fxmul(a.y as int, b.x as int)) as i64,
    }
}

/// `v` rescaled to unit length: each component divided by the fixed-point
/// length of `v`.
pub open spec fn vunit(v: Vector3) -> Vector3 {
    vdiv_scalar(v, fxsqrt(dot3(v, v)))
}

/// A dot product of vectors bounded by `m1` and `m2` is bounded by three
/// times the rescaled product of the bounds.
pub proof fn lemma_dot3_bound(a: Vector3, b: Vector3, m1: int, m2: int)
    requires
        within(a, m1),
        within(b, m2),
    ensures
        -3 * tdiv(m1 * m2, 65536) <= dot3(a, b) <= 3 * tdiv(m1 * m2, 65536),
        0 <= tdiv(m1 * m2, 65536) <= m1 * m2,
{
    lemma_fxmul_bound(a.x as int, b.x as int, m1, m2);
    lemma_fxmul_bound(a.y as int, b.y as int, m1, m2);
    lemma_fxmul_bound(a.z as int, b.z as int, m1, m2);
}

impl Vector3 {
    /// The zero vector.
    pub fn empty_new() -> (v: Vector3)
        ensures
            v == (Vector3 { x: 0, y: 0, z: 0 }),
    {
        Vector3 { x: 0, y: 0, z: 0 }
    }

    pub fn new(x: i64, y: i64, z: i64) -> (v: Vector3)
        ensures
            v == (Vector3 { x, y, z }),
    {
        Vector3 { x, y, z }
    }

    pub fn x(&self) -> (r: i64)
        ensures
            r == self.x,
    {
        self.x
    }

    pub fn y(&self) -> (r: i64)
        ensures
            r == self.y,
    {
        self.y
    }

    pub fn z(&self) -> (r: i64)
        ensures
            r == self.z,
    {
        self.z
    }

    /// The red channel when the vector is read as a colour.
    pub fn r(&self) -> (r: i64)
        ensures
            r == self.x,
    {
        self.x
    }

    /// The green channel when the vector is read as a colour.
    pub fn g(&self) -> (r: i64)
        ensures
            r == self.y,
    {
        self.y
    }

    /// The blue channel when the vector is read as a colour.
    pub fn b(&self) -> (r: i64)
        ensures
            r == self.z,
    {
        self.z
    }

    pub fn add_with(&self, other: &Vector3) -> (r: Vector3)
        requires
            i64::MIN <= self.x + other.x <= i64::MAX,
            i64::MIN <= self.y + other.y <= i64::MAX,
            i64::MIN <= self.z + other.z <= i64::MAX,
        ensures
            r == vadd(*self, *other),
    {
        Vector3 { x: self.x + other.x, y: self.y + other.y, z: self.z + other.z }
    }

    pub fn sub_with(&self, other: &Vector3) -> (r: Vector3)
        requires
            i64::MIN <= self.x - other.x <= i64::MAX,
            i64::MIN <= self.y - other.y <= i64::MAX,
            i64::MIN <= self.z - other.z <= i64::MAX,
        ensures
            r == vsub(*self, *other),
    {
        Vector3 { x: self.x - other.x, y: self.y - other.y, z: self.z - other.z }
    }

    /// Scalar multiplication by the fixed-point scalar `s`.
    pub fn scaled_by(&self, s: i64) -> (r: Vector3)
        requires
            within(*self, VEC_MAX as int),
            -VEC_MAX <= s <= VEC_MAX,
        ensures
            r == vscale(*self, s as int),
    {
        proof {
            lemma_fxmul_bound(self.x as int, s as int, VEC_MAX as int, VEC_MAX as int);
            lemma_fxmul_bound(self.y as int, s as int, VEC_MAX as int, VEC_MAX as int);
            lemma_fxmul_bound(self.z as int, s as int, VEC_MAX as int, VEC_MAX as int);
        }
        Vector3 { x: fx_mul(self.x, s), y: fx_mul(self.y, s), z: fx_mul(self.z, s) }
    }

    /// Scalar division by the positive fixed-point scalar `s`.
    pub fn divided_by(&self, s: i64) -> (r: Vector3)
        requires
            within(*self, VEC_MAX as int),
            0 < s,
        ensures
            r == vdiv_scalar(*self, s as int),
    {
        proof {
            lemma_tdiv_bound(self.x as int * 65536, s as int);
            lemma_tdiv_bound(self.y as int * 65536, s as int);
            lemma_tdiv_bound(self.z as int * 65536, s as int);
        }
        Vector3 { x: fx_div(self.x, s), y: fx_div(self.y, s), z: fx_div(self.z, s) }
    }

    /// Componentwise fixed-point product.
    pub fn mul_with(&self, other: &Vector3) -> (r: Vector3)
        requires
            within(*self, VEC_MAX as int),
            within(*other, VEC_MAX as int),
        ensures
            r == vmul(*self, *other),
    {
        proof {
            lemma_fxmul_bound(self.x as int, other.x as int, VEC_MAX as int, VEC_MAX as int);
            lemma_fxmul_bound(self.y as int, other.y as int, VEC_MAX as int, VEC_MAX as int);
            lemma_fxmul_bound(self.z as int, other.z as int, VEC_MAX as int, VEC_MAX as int);
        }
        Vector3 {
            x: fx_mul(self.x, other.x),
            y: fx_mul(self.y, other.y),
            z: fx_mul(self.z, other.z),
        }
    }

    /// Componentwise division by a vector with positive components.
    pub fn div_with(&self, other: &Vector3) -> (r: Vector3)
        requires
            within(*self, VEC_MAX as int),
            0 < other.x,
            0 < other.y,
            0 < other.z,
        ensures
            r.x as int == fxdiv(self.x as int, other.x as int),
            r.y as int == fxdiv(self.y as int, other.y as int),
            r.z as int == fxdiv(self.z as int, other.z as int),
    {
        proof {
            lemma_tdiv_bound(self.x as int * 65536, other.x as int);
            lemma_tdiv_bound(self.y as int * 65536, other.y as int);
            lemma_tdiv_bound(self.z as int * 65536, other.z as int);
        }
        Vector3 {
            x: fx_div(self.x, other.x),
            y: fx_div(self.y, other.y),
            z: fx_div(self.z, other.z),
        }
    }

    /// One component picked by index, `x`, `y`, `z` in that order.
    pub fn index(&self, i: usize) -> (r: i64)
        requires
            i < 3,
        ensures
            i == 0 ==> r == self.x,
            i == 1 ==> r == self.y,
            i == 2 ==> r == self.z,
    {
        if i == 0 {
            self.x
        } else if i == 1 {
            self.y
        } else {
            self.z
        }
    }

    pub fn dot_with(&self, other: &Vector3) -> (r: i64)
        requires
            within(*self, VEC_MAX as int),
            within(*other, VEC_MAX as int),
        ensures
            r as int == dot3(*self, *other),
    {
        proof {
            lemma_fxmul_bound(self.x as int, other.x as int, VEC_MAX as int, VEC_MAX as int);
            lemma_fxmul_bound(self.y as int, other.y as int, VEC_MAX as int, VEC_MAX as int);
            lemma_fxmul_bound(self.z as int, other.z as int, VEC_MAX as int, VEC_MAX as int);
        }
        let a: i64 = fx_mul(self.x, other.x);
        let b: i64 = fx_mul(self.y, other.y);
        let c: i64 = fx_mul(self.z, other.z);
        a + b + c
    }

    pub fn cross_with(&self, other: &Vector3) -> (r: Vector3)
        requires
            within(*self, VEC_MAX as int),
            within(*other, VEC_MAX as int),
        ensures
            r == cross3(*self, *other),
    {
        proof {
            lemma_fxmul_bound(self.x as int, other.x as int, VEC_MAX as int, VEC_MAX as int);
            lemma_fxmul_bound(self.x as int, other.y as int, VEC_MAX as int, VEC_MAX as int);
            lemma_fxmul_bound(self.x as int, other.z as int, VEC_MAX as int, VEC_MAX as int);
            lemma_fxmul_bound(self.y as int, other.x as int, VEC_MAX as int, VEC_MAX as int);
            lemma_fxmul_bound(self.y as int, other.z as int, VEC_MAX as int, VEC_MAX as int);
            lemma_fxmul_bound(self.z as int, other.x as int, VEC_MAX as int, VEC_MAX as int);
            lemma_fxmul_bound(self.z as int, other.y as int, VEC_MAX as int, VEC_MAX as int);
        }
        Vector3 {
            x: fx_mul(self.y, other.z) - fx_mul(self.z, other.y),
            y: fx_mul(self.z, other.x) - fx_mul(self.x, other.z),
            z: fx_mul(self.x, other.y) - fx_mul(self.y, other.x),
        }
    }

    /// Squared Euclidean length, exact in fixed point.
    pub fn squared_length(&self) -> (r: i64)
        requires
            within(*self, VEC_MAX as int),
        ensures
            r as int == dot3(*self, *self),
            0 <= r,
    {
        proof {
            lemma_fxmul_self_nonneg(self.x as int);
            lemma_fxmul_self_nonneg(self.y as int);
            lemma_fxmul_self_nonneg(self.z as int);
        }
        self.dot_with(self)
    }

    /// Euclidean length: the rounded-down fixed-point square root of the
    /// squared length.
    pub fn length(&self) -> (r: i64)
        requires
            within(*self, VEC_MAX as int),
        ensures
            r as int == fxsqrt(dot3(*self, *self)),
            0 <= r,
    {
        let sq: i64 = self.squared_length();
        fx_sqrt(sq)
    }

    /// Rescale `self` to unit length in place.
    pub fn make_unit_vector(&mut self)
        requires
            within(*old(self), VEC_MAX as int),
            1 <= dot3(*old(self), *old(self)),
        ensures
            *final(self) == vunit(*old(self)),
    {
        let len: i64 = self.length();
        proof {
            let n = (dot3(*self, *self) * 65536) as nat;
            let s = crate::fixed::sqrt_floor(n);
            lemma_sqrt_floor_bounds(n);
            assert(s >= 1) by (nonlinear_arith)
                requires
                    n >= 65536,
                    n < (s + 1) * (s + 1),
            {
            }
        }
        *self = self.divided_by(len);
    }
}

/// A copy of `v` rescaled to unit length.
pub fn unit_vector(v: Vector3) -> (r: Vector3)
    requires
        within(v, VEC_MAX as int),
        1 <= dot3(v, v),
    ensures
        r == vunit(v),
{
    let mut u: Vector3 = v;
    u.make_unit_vector();
    u
}

/// Test at run time that every component of `v` lies within `[-m, m]`.
pub fn check_within(v: &Vector3, m: i64) -> (r: bool)
    requires
        0 <= m,
    ensures
        r == within(*v, m as int),
{
    -m <= v.x && v.x <= m && -m <= v.y && v.y <= m && -m <= v.z && v.z <= m
}

/// Free-standing dot product.
pub fn dot(v1: &Vector3, v2: &Vector3) -> (r: i64)
    requires
        within(*v1, VEC_MAX as int),
        within(*v2, VEC_MAX as int),
    ensures
        r as int == dot3(*v1, *v2),
{
    v1.dot_with(v2)
}

/// A half-line through `origin` along `direction`; the direction need not be
/// unit length, but it must be inside the coordinate range and long enough to
/// have a positive fixed-point squared length.
#[derive(Debug, Clone, Copy, PartialEq, Eq, Structural)]
pub struct Ray {
    pub origin: Vector3,
    pub direction: Vector3,
}

/// The point of `r` at ray parameter `t`: `origin + t * direction`.
pub open spec fn at3(r: Ray, t: int) -> Vector3 {
    Vector3 {
        x: (r.origin.x + fxmul(t, r.direction.x as int)) as i64,
        y: (r.origin.y + fxmul(t, r.direction.y as int)) as i64,
        z: (r.origin.z + fxmul(t, r.direction.z as int)) as i64,
    }
}

impl Ray {
    /// A ray is valid when both of its vectors are inside the coordinate
    /// range and its direction is not degenerate: a zero-length direction
    /// would make the intersection quadratic meaningless.
    pub open spec fn valid(&self) -> bool {
        &&& in_coord_range(self.origin)
        &&& in_coord_range(self.direction)
        &&& 1 <= dot3(self.direction, self.direction)
    }

    pub fn new(origin: Vector3, direction: Vector3) -> (r: Ray)
        requires
            in_coord_range(origin),
            in_coord_range(direction),
            1 <= dot3(direction, direction),
        ensures
            r == (Ray { origin, direction }),
            r.valid(),
    {
        Ray { origin, direction }
    }

    pub fn get_origin(&self) -> (r: Vector3)
        ensures
            r == self.origin,
    {
        self.origin
    }

    pub fn get_direction(&self) -> (r: Vector3)
        ensures
            r == self.direction,
    {
        self.direction
    }

    /// The point reached after travelling `t` along the ray.
    pub fn get_point_at_time(&self, t: i64) -> (r: Vector3)
        requires
            self.valid(),
            -T_FAR <= t <= T_FAR,
        ensures
            r == at3(*self, t as int),
            within(r, 0x200_0000_0000),
    {
        proof {
            lemma_fxmul_bound(t as int, self.direction.x as int, T_FAR as int, COORD_MAX as int);
            lemma_fxmul_bound(t as int, self.direction.y as int, T_FAR as int, COORD_MAX as int);
            lemma_fxmul_bound(t as int, self.direction.z as int, T_FAR as int, COORD_MAX as int);
            assert(tdiv(T_FAR as int * COORD_MAX as int, 65536) == 0x100_0000_0000) by {
                crate::fixed::lemma_tdiv_cancel(0x100_0000_0000, 65536);
            }
        }
        Vector3 {
            x: self.origin.x + fx_mul(t, self.direction.x),
            y: self.origin.y + fx_mul(t, self.direction.y),
            z: self.origin.z + fx_mul(t, self.direction.z),
        }
    }
}

} // verus!
