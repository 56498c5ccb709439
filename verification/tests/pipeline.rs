use sdfray::math::SCALE;
use sdfray::raymarch::raymarch;
use sdfray::raymarch::Object;
use sdfray::raymarch::Sphere;
use sdfray::raymarch::Torus;
use sdfray::raymarch::Cuboid;
use sdfray::render::glyph_for_brightness;
use sdfray::render::render;
use sdfray::render::Camera;
use sdfray::vector::Vec3D;

#[test]
fn sphere_sdf_center_is_minus_radius() {
    let s = Sphere::new(Vec3D::new(SCALE, 2 * SCALE, 3 * SCALE), 2_500_000);
    assert_eq!(s.sdf(&Vec3D::new(SCALE, 2 * SCALE, 3 * SCALE)), -2_500_000);
}

#[test]
fn sphere_sdf_surface_is_zero() {
    let s = Sphere::new(Vec3D::new(SCALE, 0, 0), 2_500_000);
    assert_eq!(s.sdf(&Vec3D::new(SCALE + 2_500_000, 0, 0)), 0);
}

#[test]
fn torus_sdf_at_ring_center() {
    let t = Torus::new(Vec3D::new(0, 0, 0), 3 * SCALE, SCALE);
    assert_eq!(t.sdf(&Vec3D::new(0, 0, 0)), 2 * SCALE);
}

#[test]
fn cuboid_sdf_center_and_face() {
    let c = Cuboid::new(Vec3D::new(0, 0, 0), Vec3D::new(SCALE, 2 * SCALE, 3 * SCALE));
    assert_eq!(c.sdf(&Vec3D::new(2 * SCALE, 0, 0)), SCALE);
    assert!(c.sdf(&Vec3D::new(0, 0, 0)) < 0);
}

#[test]
fn raymarch_empty_scene_is_no_hit() {
    let objects: Vec<Object> = Vec::new();
    let hit = raymarch(
        Vec3D::new(0, 0, -10 * SCALE),
        Vec3D::new(0, 0, SCALE),
        &objects,
        100,
        50_000,
    );
    assert!(hit.is_none());
}

#[test]
fn raymarch_hits_sphere_on_surface() {
    let objects = vec![Object::Sphere(Sphere::new(Vec3D::new(0, 0, 0), 2 * SCALE))];
    let hit = raymarch(
        Vec3D::new(0, 0, -10 * SCALE),
        Vec3D::new(0, 0, SCALE),
        &objects,
        100,
        50_000,
    )
    .expect("ray aimed at the sphere's center must hit");
    let center_dist = hit.pos.distance(&Vec3D::new(0, 0, 0));
    assert!(
        (center_dist - 2 * SCALE).abs() <= 50_000,
        "hit at distance {} from center",
        center_dist
    );
    assert_eq!(hit.normal.x, 0);
    assert_eq!(hit.normal.y, 0);
    assert!(hit.normal.z < 0, "normal must point back toward the ray");
}

#[test]
fn raymarch_from_inside_reaches_surface() {
    let objects = vec![Object::Sphere(Sphere::new(Vec3D::new(0, 0, 0), 2 * SCALE))];
    let hit = raymarch(Vec3D::new(0, 0, 0), Vec3D::new(0, 0, SCALE), &objects, 100, 50_000)
        .expect("a ray from the center must reach the surface");
    let center_dist = hit.pos.distance(&Vec3D::new(0, 0, 0));
    assert!((center_dist - 2 * SCALE).abs() <= 50_000);
}

#[test]
fn raymarch_away_from_scene_is_no_hit() {
    let objects = vec![Object::Sphere(Sphere::new(Vec3D::new(0, 0, 0), 2 * SCALE))];
    let hit = raymarch(
        Vec3D::new(0, 0, -10 * SCALE),
        Vec3D::new(0, 0, -SCALE),
        &objects,
        20,
        50_000,
    );
    assert!(hit.is_none());
}

#[test]
fn glyph_mapping_endpoints() {
    assert_eq!(glyph_for_brightness(0), b' ');
    assert_eq!(glyph_for_brightness(SCALE), b'@');
}

#[test]
fn glyph_mapping_midpoint_and_clamp() {
    assert_eq!(glyph_for_brightness(SCALE / 2), b'=');
    assert_eq!(glyph_for_brightness(-123_456), b' ');
    assert_eq!(glyph_for_brightness(5 * SCALE), b'@');
}

#[test]
fn render_is_deterministic() {
    let objects = vec![
        Object::Sphere(Sphere::new(Vec3D::new(0, 0, 0), 2_500_000)),
        Object::Torus(Torus::new(Vec3D::new(4 * SCALE, SCALE, 0), SCALE, SCALE / 2)),
    ];
    let camera = Camera::new(Vec3D::new(0, -10 * SCALE, 0), Vec3D::new(0, SCALE, 0), SCALE);
    let light = Vec3D::new(3 * SCALE, 3 * SCALE, -2 * SCALE);
    let a = render(&objects, &camera, &light, 40, 24, 4, 400_000, 20, 50_000);
    let b = render(&objects, &camera, &light, 40, 24, 4, 400_000, 20, 50_000);
    assert_eq!(a, b);
}

#[test]
fn end_to_end_sphere_scene() {
    let objects = vec![Object::Sphere(Sphere::new(Vec3D::new(0, 0, 0), 2_500_000))];
    let camera = Camera::new(Vec3D::new(0, -10 * SCALE, 0), Vec3D::new(0, SCALE, 0), SCALE);
    let light = Vec3D::new(3 * SCALE, 3 * SCALE, -2 * SCALE);
    let frame = render(&objects, &camera, &light, 20, 14, 1, SCALE, 20, 50_000);
    let rows: Vec<&[u8]> = frame.split(|&b| b == b'\n').filter(|r| !r.is_empty()).collect();
    assert_eq!(rows.len(), 14, "fourteen newline-terminated rows");
    assert_eq!(frame.len(), 14 * 21, "each row is twenty glyphs and a newline");
    for row in &rows {
        assert_eq!(row.len(), 20);
    }
    assert_eq!(rows[0][0], b' ', "corner stays dark");
    assert_eq!(rows[0][19], b' ', "corner stays dark");
    assert_eq!(rows[13][0], b' ', "corner stays dark");
    assert_eq!(rows[13][19], b' ', "corner stays dark");
    assert_ne!(rows[10][10], b' ', "the sphere lights the image of its center");
    let lit = frame.iter().filter(|&&b| b != b' ' && b != b'\n').count();
    assert!(lit > 0 && lit < 14 * 20, "a lit region surrounded by darkness");
}
