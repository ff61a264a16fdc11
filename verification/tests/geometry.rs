use bvh_builder::bounding_box::BoundingBox;
use bvh_builder::triangle::Triangle;
use bvh_builder::vector::Vector;

fn v(x: i32, y: i32, z: i32) -> Vector {
    Vector::new(x, y, z)
}

#[test]
fn vector_new_and_component() {
    let p = v(3, -4, 5);
    assert_eq!(p.x, 3);
    assert_eq!(p.y, -4);
    assert_eq!(p.z, 5);
    assert_eq!(p.component(0), 3);
    assert_eq!(p.component(1), -4);
    assert_eq!(p.component(2), 5);
}

#[test]
fn vector_component_min_max() {
    let a = v(1, 5, -3);
    let b = v(2, -7, -3);
    assert_eq!(a.component_min(b), v(1, -7, -3));
    assert_eq!(a.component_max(b), v(2, 5, -3));
}

#[test]
fn triangle_new_derived_fields() {
    let t = Triangle::new(v(0, 0, 0), v(3, 0, 0), v(0, 3, 0));
    assert_eq!(t.center, v(1, 1, 0));
    assert_eq!(t.min, v(0, 0, 0));
    assert_eq!(t.max, v(3, 3, 0));
    assert_eq!(t.get_a(), v(0, 0, 0));
    assert_eq!(t.get_b(), v(3, 0, 0));
    assert_eq!(t.get_c(), v(0, 3, 0));
}

#[test]
fn triangle_center_truncates_toward_zero() {
    // component sums -4: -4 / 3 truncates to -1, as Rust division does
    let t = Triangle::new(v(-1, -1, -1), v(-1, -1, -1), v(-2, -2, -2));
    assert_eq!(t.center, v(-1, -1, -1));
    // component sums 4: 4 / 3 truncates to 1
    let u = Triangle::new(v(1, 1, 1), v(1, 1, 1), v(2, 2, 2));
    assert_eq!(u.center, v(1, 1, 1));
}

#[test]
fn triangle_setters_recompute() {
    let mut t = Triangle::new(v(0, 0, 0), v(3, 0, 0), v(0, 3, 0));
    t.set_a(v(6, 6, 6));
    assert_eq!(t.get_a(), v(6, 6, 6));
    assert_eq!(t.center, v(3, 3, 2));
    assert_eq!(t.min, v(0, 0, 0));
    assert_eq!(t.max, v(6, 6, 6));
    t.set_b(v(-3, 0, 0));
    assert_eq!(t.min, v(-3, 0, 0));
    t.set_c(v(0, -3, 0));
    assert_eq!(t.min, v(-3, -3, 0));
    let mut u = Triangle::new(v(9, 9, 9), v(9, 9, 9), v(9, 9, 9));
    u.set(v(0, 0, 0), v(3, 0, 0), v(0, 3, 0));
    assert_eq!(u, Triangle::new(v(0, 0, 0), v(3, 0, 0), v(0, 3, 0)));
}

#[test]
fn bounding_box_starts_inverted() {
    let b = BoundingBox::new();
    assert_eq!(b.min, v(i32::MAX, i32::MAX, i32::MAX));
    assert_eq!(b.max, v(i32::MIN, i32::MIN, i32::MIN));
}

#[test]
fn bounding_box_grow_point() {
    let mut b = BoundingBox::new();
    b.grow_to_include_vector(v(1, 2, 3));
    assert_eq!(b.min, v(1, 2, 3));
    assert_eq!(b.max, v(1, 2, 3));
    assert_eq!(b.center, v(1, 2, 3));
    b.grow_to_include_vector(v(-1, 0, 9));
    assert_eq!(b.min, v(-1, 0, 3));
    assert_eq!(b.max, v(1, 2, 9));
    assert_eq!(b.center, v(0, 1, 6));
}

#[test]
fn bounding_box_grow_is_idempotent_for_inner_points() {
    let mut b = BoundingBox::new();
    b.grow_to_include_vector(v(-5, -5, -5));
    b.grow_to_include_vector(v(5, 5, 5));
    let before = b;
    b.grow_to_include_vector(v(0, 1, 2));
    assert_eq!(b, before);
}

#[test]
fn bounding_box_grow_triangle_equals_grow_vertices() {
    let t = Triangle::new(v(2, -1, 0), v(-3, 4, 1), v(0, 0, 7));
    let mut by_triangle = BoundingBox::new();
    by_triangle.grow_to_include(t);
    let mut by_vertices = BoundingBox::new();
    by_vertices.grow_to_include_vector(t.get_a());
    by_vertices.grow_to_include_vector(t.get_b());
    by_vertices.grow_to_include_vector(t.get_c());
    assert_eq!(by_triangle, by_vertices);
    assert_eq!(by_triangle.min, v(-3, -1, 0));
    assert_eq!(by_triangle.max, v(2, 4, 7));
}

#[test]
fn bounding_box_from_corners_center() {
    let b = BoundingBox::from_corners(v(-3, 0, 0), v(0, 5, 1));
    // (-3 + 0) / 2 truncates to -1
    assert_eq!(b.center, v(-1, 2, 0));
}
