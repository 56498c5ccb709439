//! Signed-distance primitives and the sphere-tracing ray marcher.
//!
//! Each primitive's signed distance is negative inside, positive outside
//! and zero on the surface, in the fixed-point units of `math::SCALE`.
//! `raymarch` advances a ray by the scene's closest signed distance until
//! the distance falls below the convergence threshold or the step budget
//! runs out; a ray that leaves the world cube is counted as a miss.

use vstd::prelude::*;

verus! {

use crate::math::SCALE;
use crate::vector::Vec3D;
use crate::vector::V3;
use crate::vector::bounded;
use crate::vector::dist3;
use crate::vector::dot3;
use crate::vector::len3;
use crate::vector::max3;
use crate::vector::normalize3;
use crate::vector::smul;
use crate::vector::vabs;
use crate::vector::vadd;
use crate::vector::vmax;
use crate::vector::vsub;
use crate::vector::zero3;
use crate::vector::lemma_len3_upper;
use crate::vector::FP_MAX;

/// Componentwise bound of the world cube: scene centers, ray origins and
/// every marched position stay within it.
pub const WORLD_MAX: i64 = 1_000_000_000;

/// Positions handed to a signed distance function may overhang the world
/// cube by this much (room for the finite-difference probes).
pub const POS_MAX: i64 = 1_002_000_000;

/// Positions handed to `normal` may overhang the world cube by this much.
pub const NPOS_MAX: i64 = 1_001_000_000;

/// Offset of the finite-difference normal probes: 0.001 world units.
pub const EPS: i64 = 1_000;

/// Every signed distance of a well-formed object at an admissible
/// position lies within this bound.
pub const SDF_MAX: i64 = 20_000_000_000;

/// A surface hit: the converged ray position and the surface normal there.
#[derive(Clone, Copy, Debug)]
pub struct Hit {
    pub pos: Vec3D,
    pub normal: Vec3D,
}

/// The mathematical value of a `Hit`.
pub ghost struct HitV {
    pub pos: V3,
    pub normal: V3,
}

impl View for Hit {
    type V = HitV;

    open spec fn view(&self) -> HitV {
        HitV { pos: self.pos@, normal: self.normal@ }
    }
}

#[derive(Clone, Copy, Debug)]
pub struct Sphere {
    pub pos: Vec3D,
    pub r: i64,
}

#[derive(Clone, Copy, Debug)]
pub struct Torus {
    pub pos: Vec3D,
    pub r1: i64,
    pub r2: i64,
}

#[derive(Clone, Copy, Debug)]
pub struct Cuboid {
    pub pos: Vec3D,
    pub half_extents: Vec3D,
}

/// A scene object: the closed set of signed-distance primitives.
#[derive(Clone, Copy, Debug)]
pub enum Object {
    Sphere(Sphere),
    Torus(Torus),
    Cuboid(Cuboid),
}

pub open spec fn sphere_wf(s: Sphere) -> bool {
    &&& bounded(s.pos@, WORLD_MAX as int)
    &&& 0 < s.r <= WORLD_MAX
}

pub open spec fn torus_wf(t: Torus) -> bool {
    &&& bounded(t.pos@, WORLD_MAX as int)
    &&& 0 < t.r1 <= WORLD_MAX
    &&& 0 < t.r2 <= WORLD_MAX
}

pub open spec fn cuboid_wf(c: Cuboid) -> bool {
    &&& bounded(c.pos@, WORLD_MAX as int)
    &&& 0 < c.half_extents@.x <= WORLD_MAX
    &&& 0 < c.half_extents@.y <= WORLD_MAX
    &&& 0 < c.half_extents@.z <= WORLD_MAX
}

pub open spec fn obj_wf(o: Object) -> bool {
    match o {
        Object::Sphere(s) => sphere_wf(s),
        Object::Torus(t) => torus_wf(t),
        Object::Cuboid(c) => cuboid_wf(c),
    }
}

pub open spec fn all_wf(objects: Seq<Object>) -> bool {
    forall|i: int| 0 <= i < objects.len() ==> obj_wf(#[trigger] objects[i])
}

/// Sphere distance: distance to the center, minus the radius.
pub open spec fn sphere_sdf(s: Sphere, p: V3) -> int {
    dist3(s.pos@, p) - s.r
}

/// Torus distance, for a ring around the Y axis lying in the X-Z plane.
pub open spec fn torus_sdf(t: Torus, p: V3) -> int {
    let planar = len3(V3 { x: p.x - t.pos@.x, y: 0, z: p.z - t.pos@.z });
    len3(V3 { x: planar - t.r1, y: p.y - t.pos@.y, z: 0 }) - t.r2
}

/// Box distance: offset of the componentwise absolute position from the
/// half extents, combined as the standard box field.
pub open spec fn cuboid_sdf(c: Cuboid, p: V3) -> int {
    let d = vsub(vabs(vsub(p, c.pos@)), c.half_extents@);
    let inner = if max3(d) < 0 { max3(d) } else { 0 };
    len3(vmax(d, zero3())) + inner
}

pub open spec fn sdf_spec(o: Object, p: V3) -> int {
    match o {
        Object::Sphere(s) => sphere_sdf(s, p),
        Object::Torus(t) => torus_sdf(t, p),
        Object::Cuboid(c) => cuboid_sdf(c, p),
    }
}

/// Closed-form sphere normal: the direction from the center, or the
/// fixed fallback direction when the point sits on the center.
pub open spec fn sphere_normal(s: Sphere, p: V3) -> V3 {
    match normalize3(vsub(p, s.pos@)) {
        Some(u) => u,
        None => V3 { x: SCALE as int, y: 0, z: 0 },
    }
}

/// Finite-difference normal estimate: backward differences of the field
/// along each axis, normalized, with the fixed fallback direction when
/// the gradient estimate degenerates to zero.
pub open spec fn est_normal(o: Object, p: V3) -> V3 {
    let d = sdf_spec(o, p);
    let g = V3 {
        x: d - sdf_spec(o, vsub(p, V3 { x: EPS as int, y: 0, z: 0 })),
        y: d - sdf_spec(o, vsub(p, V3 { x: 0, y: EPS as int, z: 0 })),
        z: d - sdf_spec(o, vsub(p, V3 { x: 0, y: 0, z: EPS as int })),
    };
    match normalize3(g) {
        Some(u) => u,
        None => V3 { x: SCALE as int, y: 0, z: 0 },
    }
}

pub open spec fn normal_spec(o: Object, p: V3) -> V3 {
    match o {
        Object::Sphere(s) => sphere_normal(s, p),
        _ => est_normal(o, p),
    }
}

impl Sphere {
    pub fn new(pos: Vec3D, r: i64) -> (s: Sphere)
        ensures
            s.pos == pos && s.r == r,
    {
        Sphere { pos, r }
    }

    pub fn sdf(&self, pos: &Vec3D) -> (r: i64)
        requires
            sphere_wf(*self),
            bounded(pos@, POS_MAX as int),
        ensures
            r == sphere_sdf(*self, pos@),
            -SDF_MAX <= r <= SDF_MAX,
    {
        proof {
            lemma_len3_upper(vsub(self.pos@, pos@), 2_002_000_000);
        }
        self.pos.distance(pos) - self.r
    }

    pub fn normal(&self, pos: &Vec3D) -> (r: Vec3D)
        requires
            sphere_wf(*self),
            bounded(pos@, NPOS_MAX as int),
        ensures
            r@ == sphere_normal(*self, pos@),
            bounded(r@, SCALE as int),
    {
        match pos.sub(&self.pos).normalize() {
            Some(u) => u,
            None => Vec3D::new(SCALE, 0, 0),
        }
    }
}

impl Torus {
    pub fn new(pos: Vec3D, r1: i64, r2: i64) -> (t: Torus)
        ensures
            t.pos == pos && t.r1 == r1 && t.r2 == r2,
    {
        Torus { pos, r1, r2 }
    }

    pub fn sdf(&self, pos: &Vec3D) -> (r: i64)
        requires
            torus_wf(*self),
            bounded(pos@, POS_MAX as int),
        ensures
            r == torus_sdf(*self, pos@),
            -SDF_MAX <= r <= SDF_MAX,
    {
        let pos2d = Vec3D::new(pos.x - self.pos.x, 0, pos.z - self.pos.z);
        proof {
            lemma_len3_upper(pos2d@, 2_002_000_000);
        }
        let planar: i64 = pos2d.length();
        let q = Vec3D::new(planar - self.r1, pos.y - self.pos.y, 0);
        proof {
            lemma_len3_upper(q@, 5_004_000_000);
        }
        q.length() - self.r2
    }
}

impl Cuboid {
    pub fn new(pos: Vec3D, half_extents: Vec3D) -> (c: Cuboid)
        ensures
            c.pos == pos && c.half_extents == half_extents,
    {
        Cuboid { pos, half_extents }
    }

    pub fn sdf(&self, pos: &Vec3D) -> (r: i64)
        requires
            cuboid_wf(*self),
            bounded(pos@, POS_MAX as int),
        ensures
            r == cuboid_sdf(*self, pos@),
            -SDF_MAX <= r <= SDF_MAX,
    {
        let d = pos.sub(&self.pos).abs().sub(&self.half_extents);
        let clamped = d.max(&Vec3D::new(0, 0, 0));
        proof {
            lemma_len3_upper(clamped@, 3_002_000_000);
        }
        let outer: i64 = clamped.length();
        let mc: i64 = d.max_component();
        let inner: i64 = if mc < 0 { mc } else { 0 };
        outer + inner
    }
}

impl Object {
    pub fn sdf(&self, pos: &Vec3D) -> (r: i64)
        requires
            obj_wf(*self),
            bounded(pos@, POS_MAX as int),
        ensures
            r == sdf_spec(*self, pos@),
            -SDF_MAX <= r <= SDF_MAX,
    {
        match self {
            Object::Sphere(s) => s.sdf(pos),
            Object::Torus(t) => t.sdf(pos),
            Object::Cuboid(c) => c.sdf(pos),
        }
    }

    /// Surface normal: the closed form for spheres, the finite-difference
    /// estimate for every other primitive.
    pub fn normal(&self, pos: &Vec3D) -> (r: Vec3D)
        requires
            obj_wf(*self),
            bounded(pos@, NPOS_MAX as int),
        ensures
            r@ == normal_spec(*self, pos@),
            bounded(r@, SCALE as int),
    {
        match self {
            Object::Sphere(s) => s.normal(pos),
            _ => self.estimate_normal(pos),
        }
    }

    fn estimate_normal(&self, pos: &Vec3D) -> (r: Vec3D)
        requires
            obj_wf(*self),
            bounded(pos@, NPOS_MAX as int),
        ensures
            r@ == est_normal(*self, pos@),
            bounded(r@, SCALE as int),
    {
        let d: i64 = self.sdf(pos);
        let gx: i64 = d - self.sdf(&pos.sub(&Vec3D::new(EPS, 0, 0)));
        let gy: i64 = d - self.sdf(&pos.sub(&Vec3D::new(0, EPS, 0)));
        let gz: i64 = d - self.sdf(&pos.sub(&Vec3D::new(0, 0, EPS)));
        let g = Vec3D::new(gx, gy, gz);
        match g.normalize() {
            Some(u) => u,
            None => Vec3D::new(SCALE, 0, 0),
        }
    }
}

/// The sphere field at the sphere's own center is minus the radius.
pub proof fn lemma_sphere_sdf_center(s: Sphere)
    ensures
        sphere_sdf(s, s.pos@) == -s.r,
{
    assert(vsub(s.pos@, s.pos@) == zero3());
    crate::vector::lemma_len3_zero(zero3());
}

/// The sphere field vanishes at every point whose distance from the
/// center is exactly the radius.
pub proof fn lemma_sphere_sdf_surface(s: Sphere, p: V3)
    requires
        dist3(s.pos@, p) == s.r,
    ensures
        sphere_sdf(s, p) == 0,
{
}

/// A sphere's normal never points back toward the center: its fixed-point
/// dot product with the offset from the center is nonnegative.
pub proof fn lemma_sphere_normal_outward(s: Sphere, p: V3)
    ensures
        dot3(sphere_normal(s, p), vsub(p, s.pos@)) >= 0,
{
    let d = vsub(p, s.pos@);
    let u = sphere_normal(s, p);
    crate::vector::lemma_len3_zero(d);
    if normalize3(d) is None {
        assert(d == crate::vector::zero3());
        assert(u.x * d.x + u.y * d.y + u.z * d.z == 0) by (nonlinear_arith)
            requires
                d.x == 0 && d.y == 0 && d.z == 0,
        ;
        vstd::arithmetic::div_mod::lemma_fundamental_div_mod(0, SCALE as int);
    } else {
        let l = len3(d);
        lemma_coord_ratio_sign(d.x, l, u.x);
        lemma_coord_ratio_sign(d.y, l, u.y);
        lemma_coord_ratio_sign(d.z, l, u.z);
        vstd::arithmetic::div_mod::lemma_div_pos_is_pos(
            u.x * d.x + u.y * d.y + u.z * d.z,
            SCALE as int,
        );
    }
}

/// A coordinate and its floor-divided rescaling never have opposite
/// signs, so their product is nonnegative.
proof fn lemma_coord_ratio_sign(c: int, l: int, q: int)
    requires
        l >= 1,
        q == (c * SCALE as int) / l,
    ensures
        q * c >= 0,
{
    let t = c * SCALE as int;
    vstd::arithmetic::div_mod::lemma_fundamental_div_mod(t, l);
    assert(q * c >= 0) by (nonlinear_arith)
        requires
            l >= 1,
            SCALE as int >= 1,
            t == c * SCALE as int,
            t == l * q + t % l,
            0 <= t % l < l,
    ;
}

/// The torus field at the ring's center point is the major radius minus
/// the minor radius: the distance to the nearest surface along the
/// degenerate axis, sign and magnitude straight from the formula.
pub proof fn lemma_torus_sdf_center(t: Torus)
    requires
        torus_wf(t),
    ensures
        torus_sdf(t, t.pos@) == t.r1 - t.r2,
{
    let p = t.pos@;
    assert(V3 { x: p.x - p.x, y: 0, z: p.z - p.z } == zero3());
    crate::vector::lemma_len3_zero(zero3());
    let q = V3 { x: 0 - t.r1, y: p.y - p.y, z: 0 };
    assert(crate::vector::norm2(q) == (t.r1 as int) * (t.r1 as int)) by (nonlinear_arith)
        requires
            q.x == -(t.r1 as int) && q.y == 0 && q.z == 0,
    ;
    crate::math::lemma_sqrt_floor_square(t.r1 as nat);
    assert((t.r1 as nat) * (t.r1 as nat) == crate::vector::norm2(q) as nat);
    assert(len3(q) == t.r1);
}

/// The scene's closest signed distance among the first `n` objects, and
/// the index that attains it; ties keep the earliest object.
pub open spec fn closest_upto(objects: Seq<Object>, p: V3, n: int) -> (int, int)
    decreases n,
{
    if n <= 1 {
        (sdf_spec(objects[0], p), 0)
    } else {
        let (d, i) = closest_upto(objects, p, n - 1);
        let dn = sdf_spec(objects[n - 1], p);
        if dn < d {
            (dn, n - 1)
        } else {
            (d, i)
        }
    }
}

/// The closest pick is a real object's distance, and no object is closer.
pub proof fn lemma_closest_upto(objects: Seq<Object>, p: V3, n: int)
    requires
        1 <= n <= objects.len(),
    ensures
        0 <= closest_upto(objects, p, n).1 < n,
        closest_upto(objects, p, n).0 == sdf_spec(objects[closest_upto(objects, p, n).1], p),
        forall|k: int| 0 <= k < n ==> closest_upto(objects, p, n).0 <= sdf_spec(#[trigger] objects[k], p),
    decreases n,
{
    if n > 1 {
        lemma_closest_upto(objects, p, n - 1);
    }
}

/// One sphere-tracing march from `pos` with `steps` steps left: the hit's
/// position and normal, or nothing on an empty scene, an exhausted budget
/// or an escape from the world cube.
pub open spec fn raymarch_spec(objects: Seq<Object>, pos: V3, dir: V3, steps: int, min_step: int) -> Option<HitV>
    decreases steps,
{
    if steps <= 0 {
        None
    } else if objects.len() == 0 {
        None
    } else {
        let (d, i) = closest_upto(objects, pos, objects.len() as int);
        let ad = if d < 0 { -d } else { d };
        if ad < min_step {
            Some(HitV { pos, normal: normal_spec(objects[i], pos) })
        } else {
            let next = vadd(pos, smul(dir, d));
            if !bounded(next, WORLD_MAX as int) {
                None
            } else {
                raymarch_spec(objects, next, dir, steps - 1, min_step)
            }
        }
    }
}

/// March a ray through the scene: advance by the closest signed distance
/// until its magnitude falls below `smallest_step` (a hit), the step
/// budget is exhausted, the scene is empty, or the ray leaves the world
/// cube (all misses).
pub fn raymarch(ray_o: Vec3D, ray_d: Vec3D, objects: &Vec<Object>, max_steps: i32, smallest_step: i64) -> (r: Option<Hit>)
    requires
        bounded(ray_o@, WORLD_MAX as int),
        bounded(ray_d@, FP_MAX as int),
        all_wf(objects@),
        smallest_step >= 1,
    ensures
        match r {
            Some(h) => {
                &&& raymarch_spec(objects@, ray_o@, ray_d@, max_steps as int, smallest_step as int)
                    == Some(h@)
                &&& bounded(h.pos@, WORLD_MAX as int)
                &&& bounded(h.normal@, SCALE as int)
                &&& exists|i: int|
                    0 <= i < objects@.len() && -smallest_step
                        < sdf_spec(#[trigger] objects@[i], h.pos@) < smallest_step
            },
            None => raymarch_spec(objects@, ray_o@, ray_d@, max_steps as int, smallest_step as int)
                is None,
        },
        objects@.len() == 0 ==> r is None,
{
    let mut pos = ray_o;
    let mut step_i: i32 = 0;
    if max_steps <= 0 {
        return None;
    }
    while step_i < max_steps
        invariant
            0 <= step_i <= max_steps,
            bounded(pos@, WORLD_MAX as int),
            bounded(ray_d@, FP_MAX as int),
            all_wf(objects@),
            smallest_step >= 1,
            raymarch_spec(objects@, ray_o@, ray_d@, max_steps as int, smallest_step as int)
                == raymarch_spec(objects@, pos@, ray_d@, max_steps - step_i, smallest_step as int),
        decreases max_steps - step_i,
    {
        let n = objects.len();
        if n == 0 {
            return None;
        }
        let mut best_d: i64 = objects[0].sdf(&pos);
        let mut best_i: usize = 0;
        let mut j: usize = 1;
        while j < n
            invariant
                1 <= j <= n,
                n == objects@.len(),
                best_i < j,
                all_wf(objects@),
                bounded(pos@, WORLD_MAX as int),
                -SDF_MAX <= best_d <= SDF_MAX,
                (best_d as int, best_i as int) == closest_upto(objects@, pos@, j as int),
            decreases n - j,
        {
            let d: i64 = objects[j].sdf(&pos);
            if d < best_d {
                best_d = d;
                best_i = j;
            }
            j = j + 1;
        }
        let ad: i64 = if best_d < 0 { -best_d } else { best_d };
        if ad < smallest_step {
            let normal = objects[best_i].normal(&pos);
            proof {
                lemma_closest_upto(objects@, pos@, objects@.len() as int);
            }
            return Some(Hit { pos, normal });
        }
        let step = ray_d.mul(best_d);
        proof {
            crate::vector::lemma_smul_bounded(ray_d@, best_d as int, FP_MAX as int, SDF_MAX as int);
        }
        let next = pos.add(&step);
        if next.x < -WORLD_MAX || next.x > WORLD_MAX || next.y < -WORLD_MAX || next.y > WORLD_MAX
            || next.z < -WORLD_MAX || next.z > WORLD_MAX {
            return None;
        }
        pos = next;
        step_i = step_i + 1;
    }
    None
}

} // verus!

