use ray_tracer::camera::Camera;
use ray_tracer::fixed::{HALF, ONE};
use ray_tracer::math::{dot, unit_vector, Ray, Vector3};

#[test]
fn vector_components_and_colour_channels() {
    let v = Vector3::new(1, 2, 3);
    assert_eq!(v.x(), 1);
    assert_eq!(v.y(), 2);
    assert_eq!(v.z(), 3);
    assert_eq!(v.r(), 1);
    assert_eq!(v.g(), 2);
    assert_eq!(v.b(), 3);
    assert_eq!(v.index(0), 1);
    assert_eq!(v.index(1), 2);
    assert_eq!(v.index(2), 3);
    let zero = Vector3::empty_new();
    assert_eq!(zero, Vector3::new(0, 0, 0));
}

#[test]
fn vector_arithmetic() {
    let a = Vector3::new(ONE, 2 * ONE, -ONE);
    let b = Vector3::new(3 * ONE, -ONE, ONE);
    assert_eq!(a.add_with(&b), Vector3::new(4 * ONE, ONE, 0));
    assert_eq!(a.sub_with(&b), Vector3::new(-2 * ONE, 3 * ONE, -2 * ONE));
    assert_eq!(a.scaled_by(HALF), Vector3::new(HALF, ONE, -HALF));
    assert_eq!(a.divided_by(2 * ONE), Vector3::new(HALF, ONE, -HALF));
    assert_eq!(a.mul_with(&b), Vector3::new(3 * ONE, -2 * ONE, -ONE));
    assert_eq!(a.div_with(&Vector3::new(ONE, 2 * ONE, ONE)), Vector3::new(ONE, ONE, -ONE));
}

#[test]
fn dot_and_cross_products() {
    let a = Vector3::new(ONE, 2 * ONE, -ONE);
    let b = Vector3::new(3 * ONE, -ONE, ONE);
    // 1*3 - 2*1 - 1*1 = 0
    assert_eq!(a.dot_with(&b), 0);
    assert_eq!(dot(&a, &b), 0);
    let x_axis = Vector3::new(ONE, 0, 0);
    let y_axis = Vector3::new(0, ONE, 0);
    assert_eq!(x_axis.cross_with(&y_axis), Vector3::new(0, 0, ONE));
    assert_eq!(y_axis.cross_with(&x_axis), Vector3::new(0, 0, -ONE));
}

#[test]
fn lengths_and_normalization() {
    let v = Vector3::new(3 * ONE, 4 * ONE, 0);
    assert_eq!(v.squared_length(), 25 * ONE);
    assert_eq!(v.length(), 5 * ONE);
    let mut w = Vector3::new(0, 2 * ONE, 0);
    w.make_unit_vector();
    assert_eq!(w, Vector3::new(0, ONE, 0));
    assert_eq!(unit_vector(Vector3::new(0, 0, -7 * ONE)), Vector3::new(0, 0, -ONE));
}

#[test]
fn ray_evaluates_points_along_itself() {
    let ray = Ray::new(Vector3::new(ONE, 0, 0), Vector3::new(0, ONE, 0));
    assert_eq!(ray.get_origin(), Vector3::new(ONE, 0, 0));
    assert_eq!(ray.get_direction(), Vector3::new(0, ONE, 0));
    assert_eq!(ray.get_point_at_time(2 * ONE), Vector3::new(ONE, 2 * ONE, 0));
    assert_eq!(ray.get_point_at_time(-ONE), Vector3::new(ONE, -ONE, 0));
}

#[test]
fn camera_fires_the_center_ray_straight_forward() {
    // Viewport height 2.0 and width 16/9 * 2.0.
    let height: i64 = 2 * ONE;
    let width: i64 = 16 * 2 * ONE / 9;
    let camera = Camera::centered_in_plane_with_height_and_width(height, width);
    let ray = camera.get_ray(HALF, HALF);
    assert_eq!(ray.get_origin(), Vector3::new(0, 0, 0));
    assert_eq!(ray.get_direction(), Vector3::new(0, 0, -ONE));
}

#[test]
fn camera_corner_rays_span_the_viewport() {
    let height: i64 = 2 * ONE;
    let width: i64 = 2 * ONE;
    let camera = Camera::centered_in_plane_with_height_and_width(height, width);
    let low = camera.get_ray(0, 0);
    assert_eq!(low.get_direction(), Vector3::new(-ONE, -ONE, -ONE));
    let high = camera.get_ray(ONE, ONE);
    assert_eq!(high.get_direction(), Vector3::new(ONE, ONE, -ONE));
}
