use ray_tracer::fixed::{isqrt_u128, HALF, ONE, T_FAR, T_NEAR};
use ray_tracer::hittable::{Hittable, HittableList};
use ray_tracer::math::{Ray, Vector3};
use ray_tracer::render::get_color_at_pixel;
use ray_tracer::sampling::Prng;
use ray_tracer::shapes::Sphere;

fn head_on_ray(d: i64) -> Ray {
    Ray::new(Vector3::new(0, 0, d), Vector3::new(0, 0, -ONE))
}

#[test]
fn head_on_hit_lands_at_distance_minus_radius() {
    let sphere = Sphere::new(Vector3::new(0, 0, 0), ONE);
    let ray = head_on_ray(3 * ONE);
    let (hit, record) = sphere.did_hit(&ray, 0, T_FAR);
    assert!(hit);
    assert_eq!(record.get_t(), 2 * ONE);
    assert_eq!(record.get_point(), Vector3::new(0, 0, ONE));
    assert_eq!(record.get_normal(), Vector3::new(0, 0, ONE));
}

#[test]
fn ray_from_inside_accepts_the_far_root() {
    let sphere = Sphere::new(Vector3::new(0, 0, 0), ONE);
    let ray = head_on_ray(0);
    let (hit, record) = sphere.did_hit(&ray, T_NEAR, T_FAR);
    assert!(hit);
    assert_eq!(record.get_t(), ONE);
    assert_eq!(record.get_point(), Vector3::new(0, 0, -ONE));
    assert_eq!(record.get_normal(), Vector3::new(0, 0, -ONE));
}

#[test]
fn passing_ray_misses() {
    let sphere = Sphere::new(Vector3::new(0, 0, 0), ONE);
    let ray = Ray::new(Vector3::new(0, 3 * ONE, 3 * ONE), Vector3::new(0, 0, -ONE));
    let (hit, _) = sphere.did_hit(&ray, 0, T_FAR);
    assert!(!hit);
    assert_eq!(Sphere::was_hit(sphere, &ray), -ONE);
}

#[test]
fn probe_reports_the_near_root() {
    let sphere = Sphere::new(Vector3::new(0, 0, 0), ONE);
    let ray = head_on_ray(3 * ONE);
    assert_eq!(Sphere::was_hit(sphere, &ray), 2 * ONE);
}

/// The hit verdict always equals "the discriminant is strictly positive and
/// a quadratic root lies in the open range", across pseudo-random ray and
/// sphere pairs; the reference values are recomputed independently here.
#[test]
fn hit_verdict_matches_discriminant_and_roots() {
    let mut rng = Prng::new(0xDECAFBAD);
    let mut draw = |m: i64| -> i64 {
        let u = rng.next_unit();
        (u % (2 * m + 1)) - m
    };
    for _ in 0..2000 {
        let center = Vector3::new(draw(20000), draw(20000), draw(20000));
        let radius = draw(10000).abs() + 1;
        let origin = Vector3::new(draw(20000), draw(20000), draw(20000));
        let direction = Vector3::new(draw(8000), draw(8000), -ONE - draw(8000).abs());
        let sphere = Sphere::new(center, radius);
        let ray = Ray::new(origin, direction);
        let (hit, record) = sphere.did_hit(&ray, T_NEAR, T_FAR);

        // The quadratic, recomputed with plain 128-bit arithmetic.
        let fx = |a: i128, b: i128| -> i128 { a * b / 65536 };
        let oc = (
            origin.x() as i128 - center.x() as i128,
            origin.y() as i128 - center.y() as i128,
            origin.z() as i128 - center.z() as i128,
        );
        let dir = (direction.x() as i128, direction.y() as i128, direction.z() as i128);
        let a = fx(dir.0, dir.0) + fx(dir.1, dir.1) + fx(dir.2, dir.2);
        let b = 2 * (fx(oc.0, dir.0) + fx(oc.1, dir.1) + fx(oc.2, dir.2));
        let c = fx(oc.0, oc.0) + fx(oc.1, oc.1) + fx(oc.2, oc.2)
            - fx(radius as i128, radius as i128);
        let disc = fx(b, b) - 4 * fx(a, c);
        let expected = if disc > 0 {
            let sd = isqrt_u128((disc as u128) * 65536) as i128;
            let t_minus = (-b - sd) * 65536 / (2 * a);
            let t_plus = (-b + sd) * 65536 / (2 * a);
            let in_range = |t: i128| (T_NEAR as i128) < t && t < (T_FAR as i128);
            if in_range(t_minus) {
                Some(t_minus as i64)
            } else if in_range(t_plus) {
                Some(t_plus as i64)
            } else {
                None
            }
        } else {
            None
        };
        match expected {
            Some(t) => {
                assert!(hit);
                assert_eq!(record.get_t(), t);
            }
            None => assert!(!hit),
        }
    }
}

#[test]
fn scene_reports_the_nearest_of_two_overlapping_spheres() {
    // Two overlapping spheres on the axis the ray travels down.
    let near = Sphere::new(Vector3::new(0, 0, -2 * ONE), ONE);
    let far = Sphere::new(Vector3::new(0, 0, -3 * ONE), ONE + HALF);
    let ray = head_on_ray(0);

    let (_, near_alone) = near.did_hit(&ray, T_NEAR, T_FAR);
    let (_, far_alone) = far.did_hit(&ray, T_NEAR, T_FAR);
    assert_eq!(near_alone.get_t(), ONE);
    assert_eq!(far_alone.get_t(), ONE + HALF);

    let mut scene_a = HittableList::new(2);
    scene_a.add(near);
    scene_a.add(far);
    let (hit_a, rec_a) = scene_a.did_hit(&ray, T_NEAR, T_FAR);

    let mut scene_b = HittableList::new(2);
    scene_b.add(far);
    scene_b.add(near);
    let (hit_b, rec_b) = scene_b.did_hit(&ray, T_NEAR, T_FAR);

    assert!(hit_a && hit_b);
    // The minimum of the two individual parameters, in either insertion order.
    assert_eq!(rec_a.get_t(), ONE);
    assert_eq!(rec_b.get_t(), ONE);
}

fn reference_scene() -> HittableList {
    let mut scene = HittableList::new(2);
    scene.add(Sphere::new(Vector3::new(0, 0, -ONE), HALF));
    scene.add(Sphere::new(Vector3::new(0, -(100 * ONE + HALF), -ONE), 100 * ONE));
    scene
}

#[test]
fn center_pixel_of_the_reference_scene_hits_the_small_sphere() {
    let height: i64 = 2 * ONE;
    let width: i64 = 16 * 2 * ONE / 9;
    let camera = ray_tracer::camera::Camera::centered_in_plane_with_height_and_width(
        height, width,
    );
    let ray = camera.get_ray(HALF, HALF);
    assert_eq!(ray.get_direction(), Vector3::new(0, 0, -ONE));
    let scene = reference_scene();
    let (hit, record) = scene.did_hit(&ray, T_NEAR, T_FAR);
    assert!(hit);
    // The near surface of the small sphere, facing the camera.
    assert_eq!(record.get_t(), HALF);
    assert!(record.get_normal().z() > 0);
    assert_eq!(record.get_normal(), Vector3::new(0, 0, ONE));
}

#[test]
fn upward_ray_resolves_to_pure_sky_blue() {
    let scene = reference_scene();
    let ray = Ray::new(Vector3::new(0, 0, 0), Vector3::new(0, ONE, 0));
    let mut rng = Prng::new(7);
    let colour = get_color_at_pixel(&ray, &scene, &mut rng, 16);
    // The top of the gradient: (0.5, 0.7, 1.0).
    assert_eq!(colour, Vector3::new(HALF, 45875, ONE));
}

#[test]
fn downward_ray_in_an_empty_scene_is_pure_white() {
    let scene = HittableList::new(0);
    let ray = Ray::new(Vector3::new(0, 0, 0), Vector3::new(0, -ONE, 0));
    let mut rng = Prng::new(7);
    let colour = get_color_at_pixel(&ray, &scene, &mut rng, 16);
    assert_eq!(colour, Vector3::new(ONE, ONE, ONE));
}

/// The bounce budget guarantees termination: inside an enclosing sphere the
/// first hit is certain, and a budget of one is exhausted by it, so the
/// evaluator answers black instead of following the scattered ray.
#[test]
fn bounce_budget_cuts_the_path_to_black() {
    let mut scene = HittableList::new(1);
    scene.add(Sphere::new(Vector3::new(0, 0, 0), 50 * ONE));
    let ray = head_on_ray(0);

    let mut rng = Prng::new(99);
    assert_eq!(get_color_at_pixel(&ray, &scene, &mut rng, 0), Vector3::new(0, 0, 0));

    let mut rng = Prng::new(99);
    let (hit, _) = scene.did_hit(&ray, T_NEAR, T_FAR);
    assert!(hit);
    assert_eq!(get_color_at_pixel(&ray, &scene, &mut rng, 1), Vector3::new(0, 0, 0));
}
