use ray_tracer::fixed::{fx_sqrt, HALF, ONE};
use ray_tracer::math::Vector3;
use ray_tracer::render::{gamma_2_correction, pixel_bytes, render_pixel, scale_by_value, CHANNEL_SCALE};
use ray_tracer::sampling::{get_random_in_unit_sphere, Prng};

/// Rejection sampling never hands back a point on or outside the unit
/// sphere, across many thousand draws.
#[test]
fn sampled_points_stay_strictly_inside_the_unit_sphere() {
    let mut rng = Prng::new(0x5EED);
    for _ in 0..5000 {
        let p = get_random_in_unit_sphere(&mut rng);
        assert!(p.squared_length() < ONE);
        assert!(p.x().abs() <= ONE && p.y().abs() <= ONE && p.z().abs() <= ONE);
    }
}

#[test]
fn equal_seeds_replay_equal_streams() {
    let mut a = Prng::new(123456789);
    let mut b = Prng::new(123456789);
    for _ in 0..100 {
        let ua = a.next_unit();
        let ub = b.next_unit();
        assert_eq!(ua, ub);
        assert!(0 <= ua && ua < ONE);
    }
}

#[test]
fn entropy_seeding_draws_a_usable_stream() {
    let mut rng = Prng::from_entropy();
    let u = rng.next_unit();
    assert!(0 <= u && u < ONE);
}

#[test]
fn gamma_fixes_zero_and_one() {
    assert_eq!(fx_sqrt(0), 0);
    assert_eq!(fx_sqrt(ONE), ONE);
    let c = gamma_2_correction(Vector3::new(0, ONE, ONE / 4));
    assert_eq!(c, Vector3::new(0, ONE, HALF));
}

/// Component ordering is preserved across the whole unit interval.
#[test]
fn gamma_is_monotonic() {
    let mut previous = fx_sqrt(0);
    let mut v: i64 = 0;
    while v <= ONE {
        let g = fx_sqrt(v);
        assert!(previous <= g);
        previous = g;
        v += 97;
    }
}

#[test]
fn channel_scaling_truncates() {
    assert_eq!(scale_by_value(CHANNEL_SCALE, ONE), 255);
    assert_eq!(scale_by_value(CHANNEL_SCALE, 0), 0);
    // The scaled product becomes a plain integer, not a fixed-point value.
    assert_eq!(scale_by_value(2 * ONE, 3 * ONE), 6);
    assert_eq!(scale_by_value(CHANNEL_SCALE, HALF), 127);
}

#[test]
fn pixel_quantization_examples() {
    assert_eq!(pixel_bytes(Vector3::new(ONE, ONE, ONE)), (255, 255, 255));
    assert_eq!(pixel_bytes(Vector3::new(0, 0, 0)), (0, 0, 0));
    // A quarter of linear radiance is half after gamma: 255.99 * 0.5 -> 127.
    assert_eq!(pixel_bytes(Vector3::new(ONE / 4, ONE / 4, ONE / 4)), (127, 127, 127));
}

#[test]
fn rendering_a_pixel_is_deterministic_in_the_seed() {
    let mut scene = ray_tracer::hittable::HittableList::new(2);
    scene.add(ray_tracer::shapes::Sphere::new(Vector3::new(0, 0, -ONE), HALF));
    scene.add(ray_tracer::shapes::Sphere::new(
        Vector3::new(0, -(100 * ONE + HALF), -ONE),
        100 * ONE,
    ));
    let camera = ray_tracer::camera::Camera::centered_in_plane_with_height_and_width(
        2 * ONE,
        16 * 2 * ONE / 9,
    );
    let mut rng1 = Prng::new(2024);
    let first = render_pixel(&scene, &camera, 40, 22, 80, 45, 4, 8, &mut rng1);
    let mut rng2 = Prng::new(2024);
    let second = render_pixel(&scene, &camera, 40, 22, 80, 45, 4, 8, &mut rng2);
    assert_eq!(first, second);
    assert!(first.0 <= 255 && first.1 <= 255 && first.2 <= 255);
}
