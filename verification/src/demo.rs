//! The built-in demo scenes: each renders one frame of a fixed scene for
//! a given camera position, with the camera aimed at a fixed target.
//! A caller animates by moving the camera position between frames and
//! writing each returned frame to its display.

use vstd::prelude::*;

verus! {

use crate::math::SCALE;
use crate::math::is_square;
use crate::math::sqrt_floor;
use crate::math::lemma_sqrt_floor_square;
use crate::vector::Vec3D;
use crate::vector::V3;
use crate::vector::bounded;
use crate::vector::normalize3;
use crate::vector::vsub;
use crate::vector::zero3;
use crate::vector::lemma_len3_zero;
use crate::raymarch::Cuboid;
use crate::raymarch::Object;
use crate::raymarch::Sphere;
use crate::raymarch::Torus;
use crate::raymarch::WORLD_MAX;
use crate::render::Camera;
use crate::render::render;
use crate::render::render_spec;

/// Step budget of every demo frame.
pub const DEMO_MAX_STEPS: i32 = 20;

/// Convergence threshold of every demo frame: 0.05 world units.
pub const DEMO_SMALLEST_STEP: i64 = 50_000;

/// Width of a demo frame in glyphs.
pub const DEMO_WIDTH: u16 = 100;

/// Height of a demo frame in rows.
pub const DEMO_HEIGHT: u16 = 70;

/// Horizontal aspect correction of a demo frame: 0.4.
pub const DEMO_ASPECT: i64 = 400_000;

/// The point every demo camera looks at: two world units up the Z axis.
pub open spec fn demo_target() -> V3 {
    V3 { x: 0, y: 0, z: 2 * SCALE as int }
}

/// The demo camera at `cam_pos`: aimed at the fixed target, with a focal
/// length of one world unit.
pub open spec fn demo_camera(cam_pos: V3) -> Camera {
    let dir = match normalize3(vsub(demo_target(), cam_pos)) {
        Some(u) => u,
        None => V3 { x: SCALE as int, y: 0, z: 0 },
    };
    Camera {
        pos: Vec3D { x: cam_pos.x as i64, y: cam_pos.y as i64, z: cam_pos.z as i64 },
        dir: Vec3D { x: dir.x as i64, y: dir.y as i64, z: dir.z as i64 },
        focal: SCALE,
    }
}

/// Three spheres of different sizes.
pub open spec fn demo0_objects() -> Seq<Object> {
    seq![
        Object::Sphere(Sphere { pos: Vec3D { x: -500_000i64, y: 0, z: 0 }, r: 2_500_000 }),
        Object::Sphere(Sphere { pos: Vec3D { x: 4_700_000, y: 1_200_000, z: 500_000 }, r: 2_000_000 }),
        Object::Sphere(Sphere { pos: Vec3D { x: -3_700_000i64, y: -3_200_000i64, z: -2_500_000i64 }, r: 1_500_000 }),
    ]
}

pub open spec fn demo0_light() -> V3 {
    V3 { x: 3 * SCALE as int, y: 3 * SCALE as int, z: -2 * SCALE as int }
}

/// A single torus.
pub open spec fn demo1_objects() -> Seq<Object> {
    seq![
        Object::Torus(Torus { pos: Vec3D { x: 0, y: 0, z: 0 }, r1: 3_000_000, r2: 1_000_000 }),
    ]
}

pub open spec fn demo1_light() -> V3 {
    V3 { x: 2 * SCALE as int, y: 1 * SCALE as int, z: -2 * SCALE as int }
}

/// A box, a torus and a sphere.
pub open spec fn demo2_objects() -> Seq<Object> {
    seq![
        Object::Cuboid(
            Cuboid {
                pos: Vec3D { x: 0, y: 0, z: 0 },
                half_extents: Vec3D { x: 2_000_000, y: 3_000_000, z: 1_000_000 },
            },
        ),
        Object::Torus(Torus { pos: Vec3D { x: 4_000_000, y: 1_000_000, z: 0 }, r1: 1_000_000, r2: 500_000 }),
        Object::Sphere(Sphere { pos: Vec3D { x: -4_000_000i64, y: 0, z: 0 }, r: 2_000_000 }),
    ]
}

pub open spec fn demo2_light() -> V3 {
    V3 { x: -3 * SCALE as int, y: -3 * SCALE as int, z: -4 * SCALE as int }
}

/// The frame a demo renders from `cam_pos`, for the given scene and light.
pub open spec fn demo_frame(objects: Seq<Object>, light: V3, cam_pos: V3) -> Seq<u8> {
    render_spec(
        objects,
        demo_camera(cam_pos),
        light,
        DEMO_WIDTH as int,
        DEMO_HEIGHT as int,
        1,
        DEMO_ASPECT as int,
        DEMO_MAX_STEPS as int,
        DEMO_SMALLEST_STEP as int,
    )
}

fn demo_cam_exec(cam_pos: Vec3D) -> (c: Camera)
    requires
        bounded(cam_pos@, WORLD_MAX as int),
        cam_pos@ != demo_target(),
    ensures
        c == demo_camera(cam_pos@),
        crate::render::camera_wf(c),
{
    let target = Vec3D::new(0, 0, 2 * SCALE);
    let aim = target.sub(&cam_pos);
    proof {
        lemma_len3_zero(aim@);
        assert(aim@ != zero3());
    }
    let dir = match aim.normalize() {
        Some(u) => u,
        None => Vec3D::new(SCALE, 0, 0),
    };
    Camera::new(cam_pos, dir, SCALE)
}

proof fn lemma_one_is_square()
    ensures
        is_square(1nat),
{
    lemma_sqrt_floor_square(1nat);
    assert(is_square(1nat)) by (nonlinear_arith)
        requires
            sqrt_floor(1nat) == 1,
    ;
}

/// One frame of the three-sphere demo, from `cam_pos`.
pub fn demo0(cam_pos: Vec3D) -> (frame: Vec<u8>)
    requires
        bounded(cam_pos@, WORLD_MAX as int),
        cam_pos@ != demo_target(),
    ensures
        frame@ == demo_frame(demo0_objects(), demo0_light(), cam_pos@),
{
    let camera = demo_cam_exec(cam_pos);
    let light = Vec3D::new(3 * SCALE, 3 * SCALE, -2 * SCALE);
    let mut objects: Vec<Object> = Vec::new();
    objects.push(Object::Sphere(Sphere::new(Vec3D::new(-500_000, 0, 0), 2_500_000)));
    objects.push(Object::Sphere(Sphere::new(Vec3D::new(4_700_000, 1_200_000, 500_000), 2_000_000)));
    objects.push(
        Object::Sphere(Sphere::new(Vec3D::new(-3_700_000, -3_200_000, -2_500_000), 1_500_000)),
    );
    proof {
        assert(objects@ =~= demo0_objects());
        lemma_one_is_square();
    }
    render(
        &objects,
        &camera,
        &light,
        DEMO_WIDTH,
        DEMO_HEIGHT,
        1,
        DEMO_ASPECT,
        DEMO_MAX_STEPS,
        DEMO_SMALLEST_STEP,
    )
}

/// One frame of the torus demo, from `cam_pos`.
pub fn demo1(cam_pos: Vec3D) -> (frame: Vec<u8>)
    requires
        bounded(cam_pos@, WORLD_MAX as int),
        cam_pos@ != demo_target(),
    ensures
        frame@ == demo_frame(demo1_objects(), demo1_light(), cam_pos@),
{
    let camera = demo_cam_exec(cam_pos);
    let light = Vec3D::new(2 * SCALE, 1 * SCALE, -2 * SCALE);
    let mut objects: Vec<Object> = Vec::new();
    objects.push(Object::Torus(Torus::new(Vec3D::new(0, 0, 0), 3_000_000, 1_000_000)));
    proof {
        assert(objects@ =~= demo1_objects());
        lemma_one_is_square();
    }
    render(
        &objects,
        &camera,
        &light,
        DEMO_WIDTH,
        DEMO_HEIGHT,
        1,
        DEMO_ASPECT,
        DEMO_MAX_STEPS,
        DEMO_SMALLEST_STEP,
    )
}

/// One frame of the mixed-primitive demo, from `cam_pos`.
pub fn demo2(cam_pos: Vec3D) -> (frame: Vec<u8>)
    requires
        bounded(cam_pos@, WORLD_MAX as int),
        cam_pos@ != demo_target(),
    ensures
        frame@ == demo_frame(demo2_objects(), demo2_light(), cam_pos@),
{
    let camera = demo_cam_exec(cam_pos);
    let light = Vec3D::new(-3 * SCALE, -3 * SCALE, -4 * SCALE);
    let mut objects: Vec<Object> = Vec::new();
    objects.push(
        Object::Cuboid(Cuboid::new(Vec3D::new(0, 0, 0), Vec3D::new(2_000_000, 3_000_000, 1_000_000))),
    );
    objects.push(Object::Torus(Torus::new(Vec3D::new(4_000_000, 1_000_000, 0), 1_000_000, 500_000)));
    objects.push(Object::Sphere(Sphere::new(Vec3D::new(-4_000_000, 0, 0), 2_000_000)));
    proof {
        assert(objects@ =~= demo2_objects());
        lemma_one_is_square();
    }
    render(
        &objects,
        &camera,
        &light,
        DEMO_WIDTH,
        DEMO_HEIGHT,
        1,
        DEMO_ASPECT,
        DEMO_MAX_STEPS,
        DEMO_SMALLEST_STEP,
    )
}

} // verus!
