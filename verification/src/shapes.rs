use vstd::prelude::*;
use crate::fixed::{
    fxdiv, fxmul, fxsqrt, tdiv, fx_div, fx_mul, fxmul_wide, isqrt_u128, tdiv_i128,
    lemma_fxmul_bound, lemma_sqrt_floor_monotonic, lemma_sqrt_floor_unique, lemma_tdiv_bound,
    COORD_MAX, T_FAR,
};
use crate::hittable::{empty_record, HitRecord, Hittable};
use crate::math::{
    at3, dot3, in_coord_range, lemma_dot3_bound, vsub, within, Ray, Vector3,
};

verus! {

/// The one primitive of the renderer: a sphere given by its center and its
/// radius, immutable after construction.
#[derive(Debug, Clone, Copy, PartialEq, Eq, Structural)]
pub struct Sphere {
    pub center: Vector3,
    pub radius: i64,
}

impl Sphere {
    /// A sphere is valid when its center lies in the coordinate range and its
    /// radius is positive; a zero radius would make the surface normal
    /// degenerate.
    pub open spec fn valid(&self) -> bool {
        &&& in_coord_range(self.center)
        &&& 0 < self.radius <= COORD_MAX
    }

    pub fn new(center: Vector3, radius: i64) -> (s: Sphere)
        requires
            in_coord_range(center),
            0 < radius <= COORD_MAX,
        ensures
            s == (Sphere { center, radius }),
            s.valid(),
    {
        Sphere { center, radius }
    }

    pub fn get_center(&self) -> (r: Vector3)
        ensures
            r == self.center,
    {
        self.center
    }

    pub fn get_radius(&self) -> (r: i64)
        ensures
            r == self.radius,
    {
        self.radius
    }

    /// A bare probe: the smaller quadratic root of the intersection, with no
    /// range test, or the fixed-point value minus one when the discriminant
    /// shows no real intersection.
    pub fn was_hit(sphere: Sphere, ray: &Ray) -> (r: i64)
        requires
            sphere.valid(),
            ray.valid(),
        ensures
            sphere_disc(sphere, *ray) < 0 ==> r == -65536,
            sphere_disc(sphere, *ray) >= 0 ==> r as int == sphere_root_minus(sphere, *ray),
    {
        proof {
            lemma_sphere_coeff_bounds(sphere, *ray);
        }
        let center: Vector3 = sphere.get_center();
        let radius: i64 = sphere.get_radius();
        let normal: Vector3 = ray.origin.sub_with(&center);
        let a: i64 = crate::math::dot(&ray.direction, &ray.direction);
        let b: i64 = 2 * crate::math::dot(&normal, &ray.direction);
        let c: i64 = crate::math::dot(&normal, &normal) - fx_mul(radius, radius);
        let discriminate: i128 = fxmul_wide(b, b) - 4 * fxmul_wide(a, c);
        if discriminate < 0 {
            -65536
        } else {
            let sd: i128 = sqrt_wide(discriminate);
            let t: i128 = tdiv_i128((-(b as i128) - sd) * 65536, 2 * (a as i128));
            proof {
                lemma_tdiv_bound((-(b as int) - sd as int) * 65536, 2 * a as int);
            }
            t as i64
        }
    }
}

/// The quadratic coefficient `a = B . B` of the intersection equation, for a
/// ray with direction `B`.
pub open spec fn sphere_a(s: Sphere, r: Ray) -> int {
    dot3(r.direction, r.direction)
}

/// The coefficient `b = 2 (oc . B)` where `oc` points from the center to the
/// ray origin.
pub open spec fn sphere_b(s: Sphere, r: Ray) -> int {
    2 * dot3(vsub(r.origin, s.center), r.direction)
}

/// The coefficient `c = oc . oc - R^2`.
pub open spec fn sphere_c(s: Sphere, r: Ray) -> int {
    dot3(vsub(r.origin, s.center), vsub(r.origin, s.center)) - fxmul(
        s.radius as int,
        s.radius as int,
    )
}

/// The discriminant `b^2 - 4 a c` of the intersection quadratic.
pub open spec fn sphere_disc(s: Sphere, r: Ray) -> int {
    fxmul(sphere_b(s, r), sphere_b(s, r)) - 4 * fxmul(sphere_a(s, r), sphere_c(s, r))
}

/// The smaller root `(-b - sqrt(disc)) / (2a)`, the nearer surface point for
/// a ray travelling forward.
pub open spec fn sphere_root_minus(s: Sphere, r: Ray) -> int {
    fxdiv(-sphere_b(s, r) - fxsqrt(sphere_disc(s, r)), 2 * sphere_a(s, r))
}

/// The larger root `(-b + sqrt(disc)) / (2a)`.
pub open spec fn sphere_root_plus(s: Sphere, r: Ray) -> int {
    fxdiv(-sphere_b(s, r) + fxsqrt(sphere_disc(s, r)), 2 * sphere_a(s, r))
}

/// A root counts only if it lies strictly inside the open search interval.
pub open spec fn root_in_range(t: int, t_min: int, t_max: int) -> bool {
    t_min < t && t < t_max
}

/// The ray hits the sphere within the interval exactly when the discriminant
/// is strictly positive (a tangent ray counts as a miss) and one of the two
/// roots lies in range.
pub open spec fn sphere_hits(s: Sphere, r: Ray, t_min: int, t_max: int) -> bool {
    sphere_disc(s, r) > 0 && (root_in_range(sphere_root_minus(s, r), t_min, t_max)
        || root_in_range(sphere_root_plus(s, r), t_min, t_max))
}

/// The accepted ray parameter: the smaller root when it is in range, else the
/// larger one.
pub open spec fn sphere_hit_t(s: Sphere, r: Ray, t_min: int, t_max: int) -> int {
    if root_in_range(sphere_root_minus(s, r), t_min, t_max) {
        sphere_root_minus(s, r)
    } else {
        sphere_root_plus(s, r)
    }
}

/// The record of a hit: the accepted parameter, the point reached at it, and
/// the outward normal `(point - center) / radius`.
pub open spec fn sphere_hit_record(s: Sphere, r: Ray, t_min: int, t_max: int) -> HitRecord {
    let t = sphere_hit_t(s, r, t_min, t_max);
    let p = at3(r, t);
    HitRecord {
        t_at_point: t as i64,
        point: p,
        normal_from_point: crate::math::vdiv_scalar(vsub(p, s.center), s.radius as int),
    }
}

/// The full outcome of the test, miss cases included.
pub open spec fn sphere_outcome(s: Sphere, r: Ray, t_min: int, t_max: int) -> (bool, HitRecord) {
    if sphere_hits(s, r, t_min, t_max) {
        (true, sphere_hit_record(s, r, t_min, t_max))
    } else {
        (false, empty_record())
    }
}

/// For a valid sphere and ray every quadratic quantity stays far inside its
/// machine range.
pub proof fn lemma_sphere_coeff_bounds(s: Sphere, r: Ray)
    requires
        s.valid(),
        r.valid(),
    ensures
        1 <= sphere_a(s, r) <= 0x80_0000_0000,
        -0x200_0000_0000 <= sphere_b(s, r) <= 0x200_0000_0000,
        -0x200_0000_0000 <= sphere_c(s, r) <= 0x200_0000_0000,
        0 <= fxmul(s.radius as int, s.radius as int) <= 0x10_0000_0000_0000,
        -0x4_0000_0000_0000_0000 <= fxmul(sphere_b(s, r), sphere_b(s, r))
            <= 0x4_0000_0000_0000_0000,
        -0x1_0000_0000_0000_0000 <= fxmul(sphere_a(s, r), sphere_c(s, r))
            <= 0x1_0000_0000_0000_0000,
        -0x8_0000_0000_0000_0000 <= sphere_disc(s, r) <= 0x8_0000_0000_0000_0000,
        sphere_disc(s, r) >= 0 ==> 0 <= fxsqrt(sphere_disc(s, r)) <= 0x400_0000_0000,
{
    let oc = vsub(r.origin, s.center);
    assert(within(oc, 0x800_0000));
    lemma_dot3_bound(r.direction, r.direction, 0x400_0000, 0x400_0000);
    lemma_dot3_bound(oc, r.direction, 0x800_0000, 0x400_0000);
    lemma_dot3_bound(oc, oc, 0x800_0000, 0x800_0000);
    lemma_fxmul_bound(s.radius as int, s.radius as int, 0x400_0000, 0x400_0000);
    lemma_fxmul_bound(sphere_b(s, r), sphere_b(s, r), 0x200_0000_0000, 0x200_0000_0000);
    lemma_fxmul_bound(sphere_a(s, r), sphere_c(s, r), 0x80_0000_0000, 0x200_0000_0000);
    if sphere_disc(s, r) >= 0 {
        let n = (sphere_disc(s, r) * 65536) as nat;
        lemma_sqrt_floor_monotonic(n, 0x10_0000_0000_0000_0000_0000);
        assert((0x400_0000_0000 as int) * (0x400_0000_0000 as int)
            == 0x10_0000_0000_0000_0000_0000) by (nonlinear_arith);
        assert((0x400_0000_0001 as int) * (0x400_0000_0001 as int)
            > 0x10_0000_0000_0000_0000_0000) by (nonlinear_arith);
        lemma_sqrt_floor_unique(0x10_0000_0000_0000_0000_0000, 0x400_0000_0000);
    }
}

/// The record of an accepted hit stays far inside the machine range: the hit
/// parameter is in the search interval, the point within 2^41 and the normal
/// within 2^58 fixed-point units.
pub proof fn lemma_hit_record_bounds(s: Sphere, r: Ray, t_min: int, t_max: int)
    requires
        s.valid(),
        r.valid(),
        0 <= t_min,
        t_max <= T_FAR as int,
        sphere_hits(s, r, t_min, t_max),
    ensures
        ({
            let rec = sphere_hit_record(s, r, t_min, t_max);
            &&& t_min < rec.t_at_point < t_max
            &&& within(rec.point, 0x200_0000_0000)
            &&& within(rec.normal_from_point, 0x400_0000_0000_0000)
        }),
{
    let t = sphere_hit_t(s, r, t_min, t_max);
    lemma_fxmul_bound(t, r.direction.x as int, T_FAR as int, COORD_MAX as int);
    lemma_fxmul_bound(t, r.direction.y as int, T_FAR as int, COORD_MAX as int);
    lemma_fxmul_bound(t, r.direction.z as int, T_FAR as int, COORD_MAX as int);
    assert(tdiv(T_FAR as int * COORD_MAX as int, 65536) == 0x100_0000_0000) by {
        crate::fixed::lemma_tdiv_cancel(0x100_0000_0000, 65536);
    }
    let p = at3(r, t);
    assert(within(p, 0x100_0000_0000 + COORD_MAX as int));
    lemma_tdiv_bound((p.x - s.center.x) * 65536, s.radius as int);
    lemma_tdiv_bound((p.y - s.center.y) * 65536, s.radius as int);
    lemma_tdiv_bound((p.z - s.center.z) * 65536, s.radius as int);
}

/// The smaller root never exceeds the larger one.
pub proof fn lemma_root_order(s: Sphere, r: Ray)
    requires
        r.valid(),
        sphere_disc(s, r) >= 0,
    ensures
        sphere_root_minus(s, r) <= sphere_root_plus(s, r),
{
    let b = sphere_b(s, r);
    let sd = fxsqrt(sphere_disc(s, r));
    assert(sd >= 0);
    crate::fixed::lemma_tdiv_monotonic(
        (-b - sd) * 65536,
        (-b + sd) * 65536,
        2 * sphere_a(s, r),
    );
}

/// Shrinking the far bound of the search keeps exactly the hits whose
/// parameter lies under the new bound, with the same accepted root and the
/// same record.
pub proof fn lemma_hit_bound_monotonic(s: Sphere, r: Ray, t_min: int, b1: int, b2: int)
    requires
        r.valid(),
        b1 <= b2,
    ensures
        sphere_hits(s, r, t_min, b1) <==> (sphere_hits(s, r, t_min, b2) && sphere_hit_t(
            s,
            r,
            t_min,
            b2,
        ) < b1),
        sphere_hits(s, r, t_min, b1) ==> sphere_hit_t(s, r, t_min, b1) == sphere_hit_t(
            s,
            r,
            t_min,
            b2,
        ),
        sphere_hits(s, r, t_min, b1) ==> sphere_hit_record(s, r, t_min, b1) == sphere_hit_record(
            s,
            r,
            t_min,
            b2,
        ),
{
    if sphere_disc(s, r) > 0 {
        lemma_root_order(s, r);
    }
}

/// The hit predicate is exactly "the discriminant is strictly positive and a
/// quadratic root lies in the open search interval"; a tangent ray, whose
/// discriminant is zero, is a miss.
pub proof fn lemma_hit_iff_root_in_range(s: Sphere, r: Ray, t_min: int, t_max: int)
    ensures
        sphere_hits(s, r, t_min, t_max) <==> (sphere_disc(s, r) > 0 && (root_in_range(
            sphere_root_minus(s, r),
            t_min,
            t_max,
        ) || root_in_range(sphere_root_plus(s, r), t_min, t_max))),
        sphere_outcome(s, r, t_min, t_max).0 == sphere_hits(s, r, t_min, t_max),
{
}

/// A ray fired head-on at a sphere from distance `d` along the axis hits at
/// parameter `d - radius`, on the near surface, with the unit normal facing
/// straight back at the ray origin.  Exact whenever `radius` and `d` are
/// multiples of 256, so that their fixed-point squares lose nothing to
/// truncation.
pub proof fn lemma_head_on_hit(radius: i64, d: i64, t_min: i64, t_max: i64)
    requires
        radius % 256 == 0,
        d % 256 == 0,
        0 < radius < d <= COORD_MAX,
        0 <= t_min < d - radius,
        d - radius < t_max <= T_FAR,
    ensures
        ({
            let s = (Sphere { center: Vector3 { x: 0, y: 0, z: 0 }, radius });
            let r = (Ray {
                origin: Vector3 { x: 0, y: 0, z: d },
                direction: Vector3 { x: 0, y: 0, z: -65536i64 },
            });
            &&& sphere_hits(s, r, t_min as int, t_max as int)
            &&& sphere_hit_t(s, r, t_min as int, t_max as int) == d - radius
            &&& sphere_hit_record(s, r, t_min as int, t_max as int).t_at_point == d - radius
            &&& sphere_hit_record(s, r, t_min as int, t_max as int).point == (Vector3 {
                x: 0,
                y: 0,
                z: radius,
            })
            &&& sphere_hit_record(s, r, t_min as int, t_max as int).normal_from_point == (Vector3 {
                x: 0,
                y: 0,
                z: 65536,
            })
        }),
{
    let s = (Sphere { center: Vector3 { x: 0, y: 0, z: 0 }, radius });
    let r = (Ray {
        origin: Vector3 { x: 0, y: 0, z: d },
        direction: Vector3 { x: 0, y: 0, z: -65536i64 },
    });
    let e = d as int / 256;
    let f = radius as int / 256;
    vstd::arithmetic::div_mod::lemma_fundamental_div_mod(d as int, 256);
    vstd::arithmetic::div_mod::lemma_fundamental_div_mod(radius as int, 256);
    assert(d == 256 * e && radius == 256 * f && 1 <= f < e);

    // The quadratic coefficients, all exact.
    let oc = vsub(r.origin, s.center);
    assert(oc == (Vector3 { x: 0, y: 0, z: d }));
    assert(fxmul(0, 0) == 0);
    assert(fxmul(0, -65536) == 0);
    assert(fxmul(-65536, -65536) == 65536) by {
        crate::fixed::lemma_tdiv_cancel(65536, 65536);
        assert((-65536) * (-65536) == 65536 * 65536) by (nonlinear_arith);
    }
    assert(sphere_a(s, r) == 65536);
    assert(fxmul(d as int, -65536) == -(d as int)) by {
        crate::fixed::lemma_tdiv_cancel(-(d as int), 65536);
        assert((d as int) * (-65536) == (-(d as int)) * 65536) by (nonlinear_arith);
    }
    assert(sphere_b(s, r) == -2 * d);
    assert(fxmul(d as int, d as int) == e * e) by {
        assert((d as int) * (d as int) == (e * e) * 65536) by (nonlinear_arith)
            requires
                d == 256 * e,
        {
        }
        crate::fixed::lemma_tdiv_cancel(e * e, 65536);
    }
    assert(fxmul(radius as int, radius as int) == f * f) by {
        assert((radius as int) * (radius as int) == (f * f) * 65536) by (nonlinear_arith)
            requires
                radius == 256 * f,
        {
        }
        crate::fixed::lemma_tdiv_cancel(f * f, 65536);
    }
    assert(sphere_c(s, r) == e * e - f * f);

    // The discriminant collapses to (2 radius)^2 in fixed point.
    assert(fxmul(-2 * d, -2 * d) == 4 * (e * e)) by {
        assert((-2 * (d as int)) * (-2 * (d as int)) == (4 * (e * e)) * 65536)
            by (nonlinear_arith)
            requires
                d == 256 * e,
        {
        }
        crate::fixed::lemma_tdiv_cancel(4 * (e * e), 65536);
    }
    assert(fxmul(65536, e * e - f * f) == e * e - f * f) by {
        crate::fixed::lemma_tdiv_cancel(e * e - f * f, 65536);
        assert(65536 * (e * e - f * f) == (e * e - f * f) * 65536) by (nonlinear_arith);
    }
    assert(sphere_disc(s, r) == 4 * (f * f));
    assert(sphere_disc(s, r) > 0) by (nonlinear_arith)
        requires
            sphere_disc(s, r) == 4 * (f * f),
            f >= 1,
    {
    }

    // Its fixed-point square root is exactly twice the radius.
    assert(fxsqrt(sphere_disc(s, r)) == 2 * radius) by {
        assert((4 * (f * f)) * 65536 == (2 * (radius as int)) * (2 * (radius as int)))
            by (nonlinear_arith)
            requires
                radius == 256 * f,
        {
        }
        assert((2 * (radius as int)) * (2 * (radius as int)) < (2 * (radius as int) + 1) * (2
            * (radius as int) + 1)) by (nonlinear_arith)
            requires
                radius >= 1,
        {
        }
        crate::fixed::lemma_sqrt_floor_unique(
            ((4 * (f * f)) * 65536) as nat,
            (2 * radius) as nat,
        );
    }

    // The nearer root is d - radius, exactly.
    assert(sphere_root_minus(s, r) == d - radius) by {
        assert((2 * (d as int) - 2 * (radius as int)) * 65536 == ((d as int) - (radius as int))
            * 131072) by (nonlinear_arith);
        crate::fixed::lemma_tdiv_cancel(d as int - radius as int, 131072);
    }
    assert(root_in_range(sphere_root_minus(s, r), t_min as int, t_max as int));

    // The hit point and its normal.
    assert(fxmul(d as int - radius as int, -65536) == -(d as int - radius as int)) by {
        crate::fixed::lemma_tdiv_cancel(-(d as int - radius as int), 65536);
        assert((d as int - radius as int) * (-65536) == (-(d as int - radius as int)) * 65536)
            by (nonlinear_arith);
    }
    assert(at3(r, d - radius as int) == (Vector3 { x: 0, y: 0, z: radius }));
    assert(fxdiv(0, radius as int) == 0) by {
        crate::fixed::lemma_tdiv_cancel(0, radius as int);
        assert(0 * 65536 == 0 * (radius as int)) by (nonlinear_arith);
    }
    assert(fxdiv(radius as int, radius as int) == 65536) by {
        crate::fixed::lemma_tdiv_cancel(65536, radius as int);
        assert((radius as int) * 65536 == 65536 * (radius as int)) by (nonlinear_arith);
    }
}

/// The square root of a nonnegative wide fixed-point scalar, exact at the
/// scale of the discriminant.
fn sqrt_wide(a: i128) -> (r: i128)
    requires
        0 <= a <= 0x8_0000_0000_0000_0000,
    ensures
        r as int == fxsqrt(a as int),
        0 <= r <= 0x400_0000_0000,
{
    let w: u128 = (a as u128) * 65536;
    let sd: u128 = isqrt_u128(w);
    proof {
        lemma_sqrt_floor_monotonic(w as nat, 0x10_0000_0000_0000_0000_0000);
        assert((0x400_0000_0000 as int) * (0x400_0000_0000 as int)
            == 0x10_0000_0000_0000_0000_0000) by (nonlinear_arith);
        assert((0x400_0000_0001 as int) * (0x400_0000_0001 as int)
            > 0x10_0000_0000_0000_0000_0000) by (nonlinear_arith);
        lemma_sqrt_floor_unique(0x10_0000_0000_0000_0000_0000, 0x400_0000_0000);
    }
    sd as i128
}

impl Hittable for Sphere {
    open spec fn hit_inputs_ok(&self, ray: Ray, min_t: int, max_t: int) -> bool {
        &&& self.valid()
        &&& ray.valid()
        &&& 0 <= min_t
        &&& max_t <= T_FAR as int
    }

    open spec fn hit_model(&self, ray: Ray, min_t: int, max_t: int) -> (bool, HitRecord) {
        sphere_outcome(*self, ray, min_t, max_t)
    }

    fn did_hit(&self, ray: &Ray, min_t: i64, max_t: i64) -> (res: (bool, HitRecord)) {
        proof {
            lemma_sphere_coeff_bounds(*self, *ray);
        }
        let center: Vector3 = self.get_center();
        let radius: i64 = self.get_radius();
        let a_minus_c: Vector3 = ray.origin.sub_with(&center);
        let a: i64 = ray.direction.dot_with(&ray.direction);
        let b: i64 = 2 * a_minus_c.dot_with(&ray.direction);
        let c: i64 = a_minus_c.dot_with(&a_minus_c) - fx_mul(radius, radius);
        let discriminate: i128 = fxmul_wide(b, b) - 4 * fxmul_wide(a, c);
        if discriminate > 0 {
            let sd: i128 = sqrt_wide(discriminate);
            let two_a: i128 = 2 * (a as i128);
            let t_minus: i128 = tdiv_i128((-(b as i128) - sd) * 65536, two_a);
            assert(t_minus as int == sphere_root_minus(*self, *ray));
            if (min_t as i128) < t_minus && t_minus < (max_t as i128) {
                let t: i64 = t_minus as i64;
                let record: HitRecord = hit_record_at(self, ray, t);
                return (true, record);
            }
            let t_plus: i128 = tdiv_i128((-(b as i128) + sd) * 65536, two_a);
            assert(t_plus as int == sphere_root_plus(*self, *ray));
            if (min_t as i128) < t_plus && t_plus < (max_t as i128) {
                let t: i64 = t_plus as i64;
                let record: HitRecord = hit_record_at(self, ray, t);
                return (true, record);
            }
            return (false, HitRecord::empty_new());
        }
        (false, HitRecord::empty_new())
    }
}

/// Build the hit record for an accepted parameter `t`: the point reached at
/// `t` and the normal `(point - center) / radius`.
fn hit_record_at(sphere: &Sphere, ray: &Ray, t: i64) -> (rec: HitRecord)
    requires
        sphere.valid(),
        ray.valid(),
        -T_FAR <= t <= T_FAR,
    ensures
        rec == (HitRecord {
            t_at_point: t,
            point: at3(*ray, t as int),
            normal_from_point: crate::math::vdiv_scalar(
                vsub(at3(*ray, t as int), sphere.center),
                sphere.radius as int,
            ),
        }),
{
    let point_at_t: Vector3 = ray.get_point_at_time(t);
    let diff: Vector3 = point_at_t.sub_with(&sphere.center);
    proof {
        lemma_tdiv_bound(diff.x as int * 65536, sphere.radius as int);
        lemma_tdiv_bound(diff.y as int * 65536, sphere.radius as int);
        lemma_tdiv_bound(diff.z as int * 65536, sphere.radius as int);
    }
    let normal_at_point: Vector3 = Vector3::new(
        fx_div(diff.x, sphere.radius),
        fx_div(diff.y, sphere.radius),
        fx_div(diff.z, sphere.radius),
    );
    HitRecord::new(t, point_at_t, normal_at_point)
}

} // verus!
