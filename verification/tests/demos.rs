use sdfray::demo::demo0;
use sdfray::demo::demo1;
use sdfray::demo::demo2;
use sdfray::math::SCALE;
use sdfray::vector::Vec3D;

fn rows_of(frame: &[u8]) -> Vec<&[u8]> {
    frame.split(|&b| b == b'\n').filter(|r| !r.is_empty()).collect()
}

#[test]
fn demo0_frame_shape() {
    let frame = demo0(Vec3D::new(20 * SCALE, 0, -10 * SCALE));
    let rows = rows_of(&frame);
    assert_eq!(rows.len(), 70);
    for row in &rows {
        assert_eq!(row.len(), 100);
    }
    let lit = frame.iter().filter(|&&b| b != b' ' && b != b'\n').count();
    assert!(lit > 0, "the spheres must light part of the frame");
}

#[test]
fn demo1_frame_shape() {
    let frame = demo1(Vec3D::new(20 * SCALE, 0, 0));
    let rows = rows_of(&frame);
    assert_eq!(rows.len(), 70);
    for row in &rows {
        assert_eq!(row.len(), 100);
    }
}

#[test]
fn demo2_frame_shape() {
    let frame = demo2(Vec3D::new(20 * SCALE, 0, -10 * SCALE));
    let rows = rows_of(&frame);
    assert_eq!(rows.len(), 70);
    for row in &rows {
        assert_eq!(row.len(), 100);
    }
}

#[test]
fn demo0_is_deterministic() {
    let pos = Vec3D::new(14_142_135, 14_142_135, -10 * SCALE);
    assert_eq!(demo0(pos), demo0(pos));
}
