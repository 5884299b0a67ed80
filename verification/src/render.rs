use vstd::prelude::*;
use crate::camera::{camera_ray, Camera};
use crate::fixed::{
    fxmul, fxsqrt, tdiv, fx_mul, fx_sqrt, fxmul_wide, tdiv_i128, tdiv_i64, lemma_fxmul_bound,
    lemma_fxmul_nonneg_le, lemma_sqrt_floor_monotonic, lemma_sqrt_floor_unique, lemma_tdiv_bound,
    lemma_tdiv_cancel, lemma_tdiv_monotonic, COORD_MAX, T_FAR, T_NEAR,
};
use crate::hittable::{
    lemma_scene_record_bounds, scene_outcome, scene_valid, Hittable, HittableList,
};
use crate::math::{
    check_within, dot3, in_coord_range, vadd, vscale, vunit, Ray, Vector3,
};
use crate::sampling::{
    get_random_in_unit_sphere, stream_next, unit_of, unit_sphere_point, Prng, SAMPLE_RETRY_CAP,
};
use crate::shapes::Sphere;

verus! {

/// 255.99 in fixed point, rounded down: the factor that maps a unit channel
/// onto the image sink's integer range.
pub const CHANNEL_SCALE: i64 = 16776437;

/// Every colour channel lies in the unit interval.
pub open spec fn rgb_bounded(c: Vector3) -> bool {
    &&& 0 <= c.x <= 65536
    &&& 0 <= c.y <= 65536
    &&& 0 <= c.z <= 65536
}

/// A blend weight clamped into the unit interval; the clamp only matters in
/// the rounding fringe where a normalized direction overshoots unit length
/// by a few fixed-point units.
pub open spec fn clamp_unit(t: int) -> int {
    if t < 0 {
        0
    } else if t > 65536 {
        65536
    } else {
        t
    }
}

/// The vertical sky gradient: normalize the direction, lift its height into
/// a blend weight, and blend white below into sky blue (0.5, 0.7, 1.0)
/// above.
pub open spec fn sky_color(direction: Vector3) -> Vector3 {
    let unit = vunit(direction);
    let t = clamp_unit(fxmul(32768, unit.y + 65536));
    Vector3 {
        x: (fxmul(65536, 65536 - t) + fxmul(32768, t)) as i64,
        y: (fxmul(65536, 65536 - t) + fxmul(45875, t)) as i64,
        z: (fxmul(65536, 65536 - t) + fxmul(65536, t)) as i64,
    }
}

/// Each blended channel of the gradient stays inside the unit interval.
proof fn lemma_blend_channel_bounds(t: int, c: int)
    requires
        0 <= t <= 65536,
        0 <= c <= 65536,
    ensures
        0 <= fxmul(65536, 65536 - t) + fxmul(c, t) <= 65536,
{
    lemma_tdiv_cancel(65536 - t, 65536);
    assert(65536 * (65536 - t) == (65536 - t) * 65536);
    assert(0 <= c * t <= 65536 * t) by (nonlinear_arith)
        requires
            0 <= t,
            0 <= c <= 65536,
    {
    }
    lemma_tdiv_bound(c * t, 65536);
    lemma_tdiv_monotonic(c * t, 65536 * t, 65536);
    lemma_tdiv_cancel(t, 65536);
    assert(t * 65536 == 65536 * t);
}

/// The sky seen along a direction, the miss branch of the evaluator.
pub fn sky_color_at(direction: &Vector3) -> (c: Vector3)
    requires
        in_coord_range(*direction),
        1 <= dot3(*direction, *direction),
    ensures
        c == sky_color(*direction),
        rgb_bounded(c),
{
    proof {
        let n = (dot3(*direction, *direction) * 65536) as nat;
        let s = crate::fixed::sqrt_floor(n);
        crate::fixed::lemma_sqrt_floor_bounds(n);
        assert(s >= 1) by (nonlinear_arith)
            requires
                n >= 65536,
                n < (s + 1) * (s + 1),
        {
        }
        lemma_tdiv_bound(direction.x as int * 65536, fxsqrt(dot3(*direction, *direction)));
        lemma_tdiv_bound(direction.y as int * 65536, fxsqrt(dot3(*direction, *direction)));
        lemma_tdiv_bound(direction.z as int * 65536, fxsqrt(dot3(*direction, *direction)));
    }
    let unit_direction: Vector3 = crate::math::unit_vector(*direction);
    proof {
        lemma_fxmul_bound(32768, unit_direction.y as int + 65536, 32768, 0x800_0000_0000);
    }
    let t0: i64 = fx_mul(32768, unit_direction.y + 65536);
    let t: i64 = if t0 < 0 {
        0
    } else if t0 > 65536 {
        65536
    } else {
        t0
    };
    proof {
        lemma_fxmul_bound(65536, 65536 - t as int, 65536, 65536);
        lemma_fxmul_bound(32768, t as int, 65536, 65536);
        lemma_fxmul_bound(45875, t as int, 65536, 65536);
        lemma_fxmul_bound(65536, t as int, 65536, 65536);
        lemma_blend_channel_bounds(t as int, 32768);
        lemma_blend_channel_bounds(t as int, 45875);
        lemma_blend_channel_bounds(t as int, 65536);
    }
    Vector3::new(
        fx_mul(65536, 65536 - t) + fx_mul(32768, t),
        fx_mul(65536, 65536 - t) + fx_mul(45875, t),
        fx_mul(65536, 65536 - t) + fx_mul(65536, t),
    )
}

/// A bounce may continue only from a point inside the coordinate range along
/// a nondegenerate direction; otherwise the path is cut to black, exactly as
/// it is when the bounce budget runs out.
pub open spec fn bounce_ok(point: Vector3, dir: Vector3) -> bool {
    &&& in_coord_range(point)
    &&& in_coord_range(dir)
    &&& 1 <= dot3(dir, dir)
}

/// The radiance reaching a ray, as a function of the scene, the ray, the
/// remaining bounce budget and the sample-stream state: black when the
/// budget is exhausted; on a hit, half the radiance of a diffusely scattered
/// bounce ray; on a miss, the sky gradient.
pub open spec fn color_spec(spheres: Seq<Sphere>, ray: Ray, depth: nat, state: u64) -> (
    Vector3,
    u64,
)
    decreases depth,
{
    if depth == 0 {
        (Vector3 { x: 0, y: 0, z: 0 }, state)
    } else {
        let oc = scene_outcome(spheres, ray, T_NEAR as int, T_FAR as int);
        if oc.0 {
            let sampled = unit_sphere_point(state, SAMPLE_RETRY_CAP as nat);
            let dir = vadd(oc.1.normal_from_point, sampled.0);
            if bounce_ok(oc.1.point, dir) {
                let rest = color_spec(
                    spheres,
                    Ray { origin: oc.1.point, direction: dir },
                    (depth - 1) as nat,
                    sampled.1,
                );
                (vscale(rest.0, 32768), rest.1)
            } else {
                (Vector3 { x: 0, y: 0, z: 0 }, sampled.1)
            }
        } else {
            (sky_color(ray.direction), state)
        }
    }
}

/// The recursive path evaluator.  On a hit it scatters toward
/// `point + normal + random point in the unit sphere` and keeps half of what
/// the bounce ray gathers; on a miss it reads the sky.  The explicit bounce
/// budget makes the recursion provably terminating, answering black at the
/// cap.
pub fn get_color_at_pixel(r: &Ray, scene: &HittableList, rng: &mut Prng, depth: u32) -> (c:
    Vector3)
    requires
        r.valid(),
        scene_valid(scene.list@),
    ensures
        (c, final(rng).state) == color_spec(scene.list@, *r, depth as nat, old(rng).state),
        rgb_bounded(c),
    decreases depth,
{
    if depth == 0 {
        return Vector3::new(0, 0, 0);
    }
    proof {
        lemma_scene_record_bounds(scene.list@, *r, T_NEAR as int, T_FAR as int);
    }
    let (did_hit, record) = scene.did_hit(r, T_NEAR, T_FAR);
    if did_hit {
        let sampled: Vector3 = get_random_in_unit_sphere(rng);
        let point: Vector3 = record.get_point();
        let target: Vector3 = point.add_with(&record.get_normal()).add_with(&sampled);
        let direction: Vector3 = target.sub_with(&point);
        proof {
            assert(direction == vadd(record.normal_from_point, sampled));
        }
        if check_within(&point, COORD_MAX) && check_within(&direction, COORD_MAX) {
            let dd: i64 = direction.dot_with(&direction);
            if dd >= 1 {
                let bounce: Ray = Ray::new(point, direction);
                let rest: Vector3 = get_color_at_pixel(&bounce, scene, rng, depth - 1);
                proof {
                    lemma_fxmul_nonneg_le(rest.x as int, 32768, 65536, 32768);
                    lemma_fxmul_nonneg_le(rest.y as int, 32768, 65536, 32768);
                    lemma_fxmul_nonneg_le(rest.z as int, 32768, 65536, 32768);
                    assert(tdiv((65536 * 32768) as int, 65536) == 32768) by {
                        lemma_tdiv_cancel(32768, 65536);
                        assert(65536 * 32768 == 32768 * 65536);
                    }
                }
                return rest.scaled_by(32768);
            }
        }
        return Vector3::new(0, 0, 0);
    }
    sky_color_at(&r.get_direction())
}

/// Gamma-2 tone mapping: the square root of each channel, taking a linear
/// unit-interval radiance to a display-encoded one.
pub fn gamma_2_correction(rgb_value: Vector3) -> (r: Vector3)
    requires
        rgb_bounded(rgb_value),
    ensures
        r.x as int == fxsqrt(rgb_value.x as int),
        r.y as int == fxsqrt(rgb_value.y as int),
        r.z as int == fxsqrt(rgb_value.z as int),
        rgb_bounded(r),
{
    proof {
        lemma_gamma_unit_range(rgb_value.x as int);
        lemma_gamma_unit_range(rgb_value.y as int);
        lemma_gamma_unit_range(rgb_value.z as int);
    }
    Vector3::new(fx_sqrt(rgb_value.x), fx_sqrt(rgb_value.y), fx_sqrt(rgb_value.z))
}

/// Gamma mapping keeps the unit interval.
pub proof fn lemma_gamma_unit_range(c: int)
    requires
        0 <= c <= 65536,
    ensures
        0 <= fxsqrt(c) <= 65536,
{
    lemma_sqrt_floor_monotonic((c * 65536) as nat, 0x1_0000_0000);
    assert((65536 as int) * 65536 == 0x1_0000_0000) by (nonlinear_arith);
    assert((65537 as int) * 65537 > 0x1_0000_0000) by (nonlinear_arith);
    lemma_sqrt_floor_unique(0x1_0000_0000, 65536);
}

/// Gamma correction preserves the ordering of channels.
pub proof fn lemma_gamma_monotonic(a: int, b: int)
    requires
        0 <= a <= b,
    ensures
        fxsqrt(a) <= fxsqrt(b),
{
    lemma_sqrt_floor_monotonic((a * 65536) as nat, (b * 65536) as nat);
}

/// Gamma correction fixes the endpoints: zero maps to zero and one to one.
pub proof fn lemma_gamma_endpoints()
    ensures
        fxsqrt(0) == 0,
        fxsqrt(65536) == 65536,
{
    assert(crate::fixed::sqrt_floor(0) == 0);
    assert((65536 as int) * 65536 == 0x1_0000_0000) by (nonlinear_arith);
    assert((65537 as int) * 65537 > 0x1_0000_0000) by (nonlinear_arith);
    lemma_sqrt_floor_unique(0x1_0000_0000, 65536);
}

/// Scale a fixed-point value and truncate the product to an integer, the
/// image sink's channel conversion.
pub fn scale_by_value(scale_by: i64, value: i64) -> (r: i64)
    requires
        i64::MIN <= fxmul(scale_by as int, value as int) <= i64::MAX,
    ensures
        r as int == tdiv(fxmul(scale_by as int, value as int), 65536),
{
    let w: i128 = fxmul_wide(scale_by, value);
    proof {
        lemma_tdiv_bound(w as int, 65536);
    }
    let q: i128 = tdiv_i128(w, 65536);
    q as i64
}

/// The integer a unit channel becomes in the image: scaled by 255.99 and
/// truncated, landing in 0 to 255.
pub open spec fn byte_of(c: int) -> int {
    tdiv(fxmul(16776437, fxsqrt(c)), 65536)
}

/// Gamma-correct an averaged pixel colour and quantize each channel to a
/// byte of the image.
pub fn pixel_bytes(pixel: Vector3) -> (rgb: (u8, u8, u8))
    requires
        rgb_bounded(pixel),
    ensures
        rgb.0 as int == byte_of(pixel.x as int),
        rgb.1 as int == byte_of(pixel.y as int),
        rgb.2 as int == byte_of(pixel.z as int),
{
    let corrected: Vector3 = gamma_2_correction(pixel);
    proof {
        lemma_quantize_bounds(corrected.x as int);
        lemma_quantize_bounds(corrected.y as int);
        lemma_quantize_bounds(corrected.z as int);
    }
    let red: i64 = scale_by_value(CHANNEL_SCALE, corrected.x);
    let green: i64 = scale_by_value(CHANNEL_SCALE, corrected.y);
    let blue: i64 = scale_by_value(CHANNEL_SCALE, corrected.z);
    (red as u8, green as u8, blue as u8)
}

/// Quantization of a unit channel lands in 0 to 255.
proof fn lemma_quantize_bounds(g: int)
    requires
        0 <= g <= 65536,
    ensures
        0 <= fxmul(16776437, g) <= 16776437,
        0 <= tdiv(fxmul(16776437, g), 65536) <= 255,
{
    lemma_fxmul_nonneg_le(16776437, g, 16776437, 65536);
    assert(tdiv((16776437 * 65536) as int, 65536) == 16776437) by {
        lemma_tdiv_cancel(16776437, 65536);
    }
    lemma_tdiv_bound(fxmul(16776437, g), 65536);
    lemma_tdiv_monotonic(fxmul(16776437, g), 16776437, 65536);
}

/// The accumulated colour of a pixel: for each sample, two fresh jitters
/// pick the viewport coordinates, the camera fires the ray, the evaluator
/// answers, and the answers add up; paired with the stream state after the
/// last sample.
pub open spec fn pixel_sum(
    spheres: Seq<Sphere>,
    cam: Camera,
    i: int,
    j: int,
    image_width: int,
    image_height: int,
    samples: nat,
    depth: nat,
    state: u64,
) -> (Vector3, u64)
    decreases samples,
{
    if samples == 0 {
        (Vector3 { x: 0, y: 0, z: 0 }, state)
    } else {
        let prev = pixel_sum(
            spheres,
            cam,
            i,
            j,
            image_width,
            image_height,
            (samples - 1) as nat,
            depth,
            state,
        );
        let s1 = stream_next(prev.1);
        let s2 = stream_next(s1);
        let u = tdiv(i * 65536 + unit_of(s1), image_width);
        let v = tdiv(j * 65536 + unit_of(s2), image_height);
        let sample = color_spec(spheres, camera_ray(cam, u, v), depth, s2);
        (vadd(prev.0, sample.0), sample.1)
    }
}

/// Averaging, gamma and quantization of one accumulated channel.
pub open spec fn tone_map(c: int, samples: int) -> int {
    byte_of(tdiv(c, samples))
}

/// One finished pixel: `samples` jittered rays, averaged, gamma-corrected
/// and quantized.  Everything it answers is a function of the scene, the
/// camera, the pixel coordinates and the stream state it was handed.
pub fn render_pixel(
    scene: &HittableList,
    camera: &Camera,
    i: u32,
    j: u32,
    image_width: u32,
    image_height: u32,
    samples: u32,
    depth: u32,
    rng: &mut Prng,
) -> (rgb: (u8, u8, u8))
    requires
        scene_valid(scene.list@),
        camera.camera_plane.valid(),
        i < image_width,
        j < image_height,
        1 <= samples <= 4096,
    ensures
        ({
            let ps = pixel_sum(
                scene.list@,
                *camera,
                i as int,
                j as int,
                image_width as int,
                image_height as int,
                samples as nat,
                depth as nat,
                old(rng).state,
            );
            &&& final(rng).state == ps.1
            &&& rgb.0 as int == tone_map(ps.0.x as int, samples as int)
            &&& rgb.1 as int == tone_map(ps.0.y as int, samples as int)
            &&& rgb.2 as int == tone_map(ps.0.z as int, samples as int)
        }),
{
    let mut color_at_pixel: Vector3 = Vector3::empty_new();
    let mut k: u32 = 0;
    while k < samples
        invariant
            k <= samples,
            scene_valid(scene.list@),
            camera.camera_plane.valid(),
            i < image_width,
            j < image_height,
            samples <= 4096,
            ({
                let ps = pixel_sum(
                    scene.list@,
                    *camera,
                    i as int,
                    j as int,
                    image_width as int,
                    image_height as int,
                    k as nat,
                    depth as nat,
                    old(rng).state,
                );
                color_at_pixel == ps.0 && rng.state == ps.1
            }),
            0 <= color_at_pixel.x <= k * 65536,
            0 <= color_at_pixel.y <= k * 65536,
            0 <= color_at_pixel.z <= k * 65536,
        decreases samples - k,
    {
        let xi1: i64 = rng.next_unit();
        let xi2: i64 = rng.next_unit();
        let u: i64 = tdiv_i64((i as i64) * 65536 + xi1, image_width as i64);
        let v: i64 = tdiv_i64((j as i64) * 65536 + xi2, image_height as i64);
        proof {
            lemma_tdiv_bound((i as i64) as int * 65536 + xi1 as int, image_width as int);
            lemma_tdiv_bound((j as i64) as int * 65536 + xi2 as int, image_height as int);
            lemma_tdiv_monotonic(
                (i as i64) as int * 65536 + xi1 as int,
                65536 * (image_width as int),
                image_width as int,
            );
            lemma_tdiv_cancel(65536, image_width as int);
            lemma_tdiv_monotonic(
                (j as i64) as int * 65536 + xi2 as int,
                65536 * (image_height as int),
                image_height as int,
            );
            lemma_tdiv_cancel(65536, image_height as int);
        }
        let sample_ray: Ray = camera.get_ray(u, v);
        let sample: Vector3 = get_color_at_pixel(&sample_ray, scene, rng, depth);
        color_at_pixel = color_at_pixel.add_with(&sample);
        k = k + 1;
    }
    proof {
        lemma_tdiv_bound(color_at_pixel.x as int, samples as int);
        lemma_tdiv_bound(color_at_pixel.y as int, samples as int);
        lemma_tdiv_bound(color_at_pixel.z as int, samples as int);
        lemma_tdiv_monotonic(color_at_pixel.x as int, 65536 * (samples as int), samples as int);
        lemma_tdiv_monotonic(color_at_pixel.y as int, 65536 * (samples as int), samples as int);
        lemma_tdiv_monotonic(color_at_pixel.z as int, 65536 * (samples as int), samples as int);
        lemma_tdiv_cancel(65536, samples as int);
    }
    let averaged: Vector3 = Vector3::new(
        tdiv_i64(color_at_pixel.x, samples as i64),
        tdiv_i64(color_at_pixel.y, samples as i64),
        tdiv_i64(color_at_pixel.z, samples as i64),
    );
    pixel_bytes(averaged)
}

} // verus!
