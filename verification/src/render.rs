//! The camera, the brightness-to-glyph gradient, and the renderer.
//!
//! `render` walks the character grid in row-major order, shoots one
//! sub-sample ray per sampling-grid cell through the camera, shades hits
//! against a single point light and maps the averaged brightness of each
//! pixel onto a ten-glyph gradient. Its contract pins the whole output
//! buffer as a function of the inputs, so two renders of the same scene
//! are byte-identical.

use vstd::prelude::*;

verus! {

use crate::math::SCALE;
use crate::math::div_floor_i64;
use crate::math::isqrt;
use crate::math::is_square;
use crate::math::sqrt_floor;
use crate::math::lemma_sqrt_floor_bounds;
use crate::math::lemma_div_floor_below;
use crate::math::lemma_div_floor_scaled;
use crate::vector::Vec3D;
use crate::vector::V3;
use crate::vector::bounded;
use crate::vector::cross3;
use crate::vector::dot3;
use crate::vector::normalize3;
use crate::vector::smul;
use crate::vector::vadd;
use crate::vector::vsub;
use crate::vector::lemma_cross3_bounded;
use crate::vector::lemma_dot3_bounded;
use crate::vector::lemma_smul_bounded;
use crate::raymarch::Object;
use crate::raymarch::all_wf;
use crate::raymarch::raymarch;
use crate::raymarch::raymarch_spec;
use crate::raymarch::WORLD_MAX;

/// Componentwise bound on a camera direction (sixteen world units; a
/// caller is expected to hand a unit direction).
pub const CAM_MAX: i64 = 8_000_000;

/// Bound on the focal length.
pub const FOCAL_MAX: i64 = 16_000_000;

/// Bound on the horizontal aspect correction, and on the image-plane
/// coordinates handed to the camera.
pub const ASPECT_MAX: i64 = 16_000_000;

/// Componentwise bound on every ray direction the camera builds.
pub const RAY_MAX: i64 = 8_000_000_000;

#[derive(Clone, Copy, Debug)]
pub struct Camera {
    pub pos: Vec3D,
    pub dir: Vec3D,
    pub focal: i64,
}

pub open spec fn camera_wf(c: Camera) -> bool {
    &&& bounded(c.pos@, WORLD_MAX as int)
    &&& bounded(c.dir@, CAM_MAX as int)
    &&& -FOCAL_MAX <= c.focal <= FOCAL_MAX
}

/// The world-space ray direction for image-plane coordinates `(u, v)`:
/// a basis built from the direction and the fixed world-up axis
/// `(0, 0, 1)`, weighted by `u`, `v` and the focal length. The result is
/// not normalized. If the direction is parallel to world-up the basis
/// degenerates to the focal term alone.
pub open spec fn ray_dir_spec(c: Camera, u: int, v: int) -> V3 {
    let right = cross3(c.dir@, V3 { x: 0, y: 0, z: SCALE as int });
    let up = cross3(right, c.dir@);
    vadd(vadd(smul(right, u), smul(up, v)), smul(c.dir@, c.focal as int))
}

impl Camera {
    pub fn new(pos: Vec3D, dir: Vec3D, focal: i64) -> (c: Camera)
        ensures
            c.pos == pos && c.dir == dir && c.focal == focal,
    {
        Camera { pos, dir, focal }
    }

    fn ray_dir(&self, uvx: i64, uvy: i64) -> (r: Vec3D)
        requires
            camera_wf(*self),
            -ASPECT_MAX <= uvx <= ASPECT_MAX,
            -ASPECT_MAX <= uvy <= ASPECT_MAX,
        ensures
            r@ == ray_dir_spec(*self, uvx as int, uvy as int),
            bounded(r@, RAY_MAX as int),
    {
        let world_up = Vec3D::new(0, 0, SCALE);
        let right = self.dir.cross(&world_up);
        proof {
            lemma_cross3_bounded(self.dir@, world_up@, CAM_MAX as int, SCALE as int);
            assert(bounded(right@, 16_000_001));
        }
        let up = right.cross(&self.dir);
        proof {
            lemma_cross3_bounded(right@, self.dir@, 16_000_001, CAM_MAX as int);
            assert(bounded(up@, 256_000_017));
        }
        let a = right.mul(uvx);
        let b = up.mul(uvy);
        let c = self.dir.mul(self.focal);
        proof {
            lemma_smul_bounded(right@, uvx as int, 16_000_001, ASPECT_MAX as int);
            lemma_smul_bounded(up@, uvy as int, 256_000_017, ASPECT_MAX as int);
            lemma_smul_bounded(self.dir@, self.focal as int, CAM_MAX as int, FOCAL_MAX as int);
        }
        a.add(&b).add(&c)
    }
}

/// The glyph gradient, darkest to brightest, as ASCII bytes:
/// space `. : - = + * # % @`.
pub open spec fn glyph_of(i: int) -> u8 {
    if i <= 0 {
        32u8
    } else if i == 1 {
        46u8
    } else if i == 2 {
        58u8
    } else if i == 3 {
        45u8
    } else if i == 4 {
        61u8
    } else if i == 5 {
        43u8
    } else if i == 6 {
        42u8
    } else if i == 7 {
        35u8
    } else if i == 8 {
        37u8
    } else {
        64u8
    }
}

/// The gradient index of an averaged brightness, clamped to the gradient:
/// brightness below zero takes the darkest glyph, brightness past one the
/// brightest.
pub open spec fn glyph_index(avg: int) -> int {
    if avg < 0 {
        0
    } else if (avg * 9) / SCALE as int > 9 {
        9
    } else {
        (avg * 9) / SCALE as int
    }
}

/// Map an averaged fixed-point brightness to its gradient glyph.
/// Brightness zero takes the first (darkest) glyph, brightness of exactly
/// one (`SCALE`) the last (brightest).
pub fn glyph_for_brightness(avg: i64) -> (r: u8)
    ensures
        r == glyph_of(glyph_index(avg as int)),
        avg == 0 ==> r == 32,
        avg == SCALE ==> r == 64,
{
    if avg < 0 {
        32
    } else {
        let q: u128 = (avg as u128) * 9 / (SCALE as u128);
        proof {
            if avg == SCALE {
                assert((1_000_000int * 9) / 1_000_000int == 9) by (nonlinear_arith);
            }
        }
        let idx: u128 = if q > 9 { 9 } else { q };
        if idx == 0 {
            32
        } else if idx == 1 {
            46
        } else if idx == 2 {
            58
        } else if idx == 3 {
            45
        } else if idx == 4 {
            61
        } else if idx == 5 {
            43
        } else if idx == 6 {
            42
        } else if idx == 7 {
            35
        } else if idx == 8 {
            37
        } else {
            64
        }
    }
}

/// Horizontal sub-sample offset of sample `i` on an `s`-by-`s` grid.
pub open spec fn sub_rx(i: int, s: int) -> int {
    ((i % s) * SCALE as int) / s
}

/// Vertical sub-sample offset of sample `i` on an `s`-by-`s` grid.
pub open spec fn sub_ry(i: int, s: int) -> int {
    (i * SCALE as int) / (s * s)
}

/// A pixel coordinate with sub-sample offset, normalized to `[-1, 1]`
/// against the larger grid dimension, at fixed-point scale.
pub open spec fn uv_norm(pix: int, off: int, max_dim: int) -> int {
    2 * ((pix * SCALE as int + off) / max_dim) - SCALE as int
}

/// Brightness contribution of sub-sample `i` of pixel `(x, y)`: zero on a
/// miss, and the cosine shading term remapped from `[-1, 1]` to `[0, 1]`
/// on a hit.
pub open spec fn sample_bright(
    objects: Seq<Object>,
    cam: Camera,
    light: V3,
    aspect: int,
    max_steps: int,
    min_step: int,
    max_dim: int,
    s: int,
    x: int,
    y: int,
    i: int,
) -> int {
    let uvx = (uv_norm(x, sub_rx(i, s), max_dim) * aspect) / SCALE as int;
    let uvy = uv_norm(y, sub_ry(i, s), max_dim);
    let rd = ray_dir_spec(cam, uvx, uvy);
    match raymarch_spec(objects, cam.pos@, rd, max_steps, min_step) {
        None => 0,
        Some(h) => {
            let ld = match normalize3(vsub(light, h.pos)) {
                Some(u) => u,
                None => V3 { x: SCALE as int, y: 0, z: 0 },
            };
            (dot3(h.normal, ld) + SCALE as int) / 2
        },
    }
}

/// Total brightness of pixel `(x, y)` after its first `i` sub-samples,
/// starting from the constant ambient bias of a tenth per sample.
pub open spec fn pixel_total(
    objects: Seq<Object>,
    cam: Camera,
    light: V3,
    samples: int,
    aspect: int,
    max_steps: int,
    min_step: int,
    max_dim: int,
    s: int,
    x: int,
    y: int,
    i: int,
) -> int
    decreases i,
{
    if i <= 0 {
        (samples * SCALE as int) / 10
    } else {
        pixel_total(objects, cam, light, samples, aspect, max_steps, min_step, max_dim, s, x, y, i - 1)
            + sample_bright(objects, cam, light, aspect, max_steps, min_step, max_dim, s, x, y, i - 1)
    }
}

/// The glyph of pixel `(x, y)`: its averaged brightness mapped onto the
/// gradient.
pub open spec fn pixel_byte(
    objects: Seq<Object>,
    cam: Camera,
    light: V3,
    samples: int,
    aspect: int,
    max_steps: int,
    min_step: int,
    max_dim: int,
    s: int,
    x: int,
    y: int,
) -> u8 {
    glyph_of(
        glyph_index(
            pixel_total(objects, cam, light, samples, aspect, max_steps, min_step, max_dim, s, x, y, samples)
                / samples,
        ),
    )
}

/// The whole frame: `height` rows of `width` glyphs, each row terminated
/// by a newline byte.
pub open spec fn render_spec(
    objects: Seq<Object>,
    cam: Camera,
    light: V3,
    width: int,
    height: int,
    samples: int,
    aspect: int,
    max_steps: int,
    min_step: int,
) -> Seq<u8> {
    let max_dim = if width < height { height } else { width };
    let s = sqrt_floor(samples as nat) as int;
    Seq::new(
        (height * (width + 1)) as nat,
        |k: int|
            if k % (width + 1) == width {
                10u8
            } else {
                pixel_byte(
                    objects,
                    cam,
                    light,
                    samples,
                    aspect,
                    max_steps,
                    min_step,
                    max_dim,
                    s,
                    k % (width + 1),
                    k / (width + 1),
                )
            },
    )
}

/// Two renders of identical scenes, cameras, lights and configurations
/// produce identical frames: the frame is a function of those inputs
/// alone.
pub proof fn lemma_render_deterministic(
    objects1: Seq<Object>,
    cam1: Camera,
    light1: V3,
    objects2: Seq<Object>,
    cam2: Camera,
    light2: V3,
    width: int,
    height: int,
    samples: int,
    aspect: int,
    max_steps: int,
    min_step: int,
)
    requires
        objects1 == objects2,
        cam1 == cam2,
        light1 == light2,
    ensures
        render_spec(objects1, cam1, light1, width, height, samples, aspect, max_steps, min_step)
            == render_spec(objects2, cam2, light2, width, height, samples, aspect, max_steps, min_step),
{
}

/// Render the scene to a frame buffer of `height` rows, each of `width`
/// glyphs and a terminating newline, in row-major order.
///
/// `sub_pixel_sample` must be a perfect square: the sub-samples form a
/// regular square grid inside the pixel.
pub fn render(
    objects: &Vec<Object>,
    camera: &Camera,
    light: &Vec3D,
    width: u16,
    height: u16,
    sub_pixel_sample: u8,
    font_aspect: i64,
    max_steps: i32,
    smallest_step: i64,
) -> (out: Vec<u8>)
    requires
        all_wf(objects@),
        camera_wf(*camera),
        bounded(light@, WORLD_MAX as int),
        1 <= width,
        1 <= height,
        1 <= sub_pixel_sample,
        is_square(sub_pixel_sample as nat),
        1 <= font_aspect <= ASPECT_MAX,
        smallest_step >= 1,
    ensures
        out@ == render_spec(
            objects@,
            *camera,
            light@,
            width as int,
            height as int,
            sub_pixel_sample as int,
            font_aspect as int,
            max_steps as int,
            smallest_step as int,
        ),
{
    let ghost gspec = render_spec(
        objects@,
        *camera,
        light@,
        width as int,
        height as int,
        sub_pixel_sample as int,
        font_aspect as int,
        max_steps as int,
        smallest_step as int,
    );
    let max_dim: i64 = if width < height { height as i64 } else { width as i64 };
    let s64: u64 = isqrt(sub_pixel_sample as u128);
    proof {
        lemma_sqrt_floor_bounds(sub_pixel_sample as nat);
        if s64 == 0 {
            assert((sqrt_floor(sub_pixel_sample as nat) + 1) * (sqrt_floor(
                sub_pixel_sample as nat,
            ) + 1) == 1) by (nonlinear_arith)
                requires
                    sqrt_floor(sub_pixel_sample as nat) == 0,
            ;
        }
        if s64 > 15 {
            assert(false) by (nonlinear_arith)
                requires
                    s64 as nat * s64 as nat <= 255,
                    s64 > 15,
            ;
        }
    }
    let s: i64 = s64 as i64;
    let mut out: Vec<u8> = Vec::new();
    let mut y: u16 = 0;
    while y < height
        invariant
            y <= height,
            1 <= width,
            1 <= height,
            1 <= sub_pixel_sample,
            is_square(sub_pixel_sample as nat),
            1 <= s <= 15,
            s64 as int == s as int,
            s as nat == sqrt_floor(sub_pixel_sample as nat),
            s as int * s as int == sub_pixel_sample as int,
            max_dim == (if width < height { height as int } else { width as int }),
            width <= max_dim && height <= max_dim,
            1 <= font_aspect <= ASPECT_MAX,
            smallest_step >= 1,
            all_wf(objects@),
            camera_wf(*camera),
            bounded(light@, WORLD_MAX as int),
            gspec == render_spec(
                objects@,
                *camera,
                light@,
                width as int,
                height as int,
                sub_pixel_sample as int,
                font_aspect as int,
                max_steps as int,
                smallest_step as int,
            ),
            out@.len() == y as int * (width as int + 1),
            forall|k: int| 0 <= k < out@.len() ==> out@[k] == gspec[k],
        decreases height - y,
    {
        let mut x: u16 = 0;
        while x < width
            invariant
                x <= width,
                y < height,
                1 <= width,
                1 <= height,
                1 <= sub_pixel_sample,
                is_square(sub_pixel_sample as nat),
                1 <= s <= 15,
                s64 as int == s as int,
                s as nat == sqrt_floor(sub_pixel_sample as nat),
                s as int * s as int == sub_pixel_sample as int,
                max_dim == (if width < height { height as int } else { width as int }),
                width <= max_dim && height <= max_dim,
                1 <= font_aspect <= ASPECT_MAX,
                smallest_step >= 1,
                all_wf(objects@),
                camera_wf(*camera),
                bounded(light@, WORLD_MAX as int),
                gspec == render_spec(
                    objects@,
                    *camera,
                    light@,
                    width as int,
                    height as int,
                    sub_pixel_sample as int,
                    font_aspect as int,
                    max_steps as int,
                    smallest_step as int,
                ),
                out@.len() == y as int * (width as int + 1) + x as int,
                forall|k: int| 0 <= k < out@.len() ==> out@[k] == gspec[k],
            decreases width - x,
        {
            let mut total: i64 = div_floor_i64((sub_pixel_sample as i64) * SCALE, 10);
            proof {
                lemma_div_floor_scaled(
                    sub_pixel_sample as int * SCALE as int,
                    10,
                    26_000_000,
                );
            }
            let mut i: u8 = 0;
            while i < sub_pixel_sample
                invariant
                    i <= sub_pixel_sample,
                    x < width,
                    y < height,
                    1 <= sub_pixel_sample,
                    1 <= s <= 15,
                    s64 as int == s as int,
                    s as int * s as int == sub_pixel_sample as int,
                    max_dim == (if width < height { height as int } else { width as int }),
                    width <= max_dim && height <= max_dim,
                    1 <= font_aspect <= ASPECT_MAX,
                    smallest_step >= 1,
                    all_wf(objects@),
                    camera_wf(*camera),
                    bounded(light@, WORLD_MAX as int),
                    -(i as int) * 2_100_000 <= total <= 26_000_000 + i as int * 2_100_000,
                    total == pixel_total(
                        objects@,
                        *camera,
                        light@,
                        sub_pixel_sample as int,
                        font_aspect as int,
                        max_steps as int,
                        smallest_step as int,
                        max_dim as int,
                        s as int,
                        x as int,
                        y as int,
                        i as int,
                    ),
                decreases sub_pixel_sample - i,
            {
                let ri: i64 = ((i as u64) % s64) as i64;
                let rx: i64 = div_floor_i64(ri * SCALE, s);
                proof {
                    lemma_div_floor_below(ri as int * SCALE as int, s as int, SCALE as int);
                    assert((ri as int * SCALE as int) < (s as int) * (SCALE as int)) by (nonlinear_arith)
                        requires
                            0 <= ri < s,
                            SCALE >= 1,
                    ;
                }
                let ss: i64 = s * s;
                let ry: i64 = div_floor_i64((i as i64) * SCALE, ss);
                proof {
                    assert(((i as int) * SCALE as int) < (ss as int) * (SCALE as int)) by (nonlinear_arith)
                        requires
                            0 <= (i as int) < (ss as int),
                            SCALE >= 1,
                    ;
                    lemma_div_floor_below(i as int * SCALE as int, ss as int, SCALE as int);
                }
                let px: i64 = (x as i64) * SCALE + rx;
                let tx: i64 = div_floor_i64(px, max_dim);
                proof {
                    lemma_div_floor_below(px as int, max_dim as int, SCALE as int);
                }
                let uvnx: i64 = 2 * tx - SCALE;
                let py: i64 = (y as i64) * SCALE + ry;
                let ty: i64 = div_floor_i64(py, max_dim);
                proof {
                    lemma_div_floor_below(py as int, max_dim as int, SCALE as int);
                }
                let uvy: i64 = 2 * ty - SCALE;
                proof {
                    assert(-(SCALE as int * font_aspect as int) <= uvnx as int
                        * font_aspect as int <= SCALE as int * font_aspect as int)
                        by (nonlinear_arith)
                        requires
                            -SCALE <= uvnx <= SCALE,
                            1 <= font_aspect,
                    ;
                    lemma_div_floor_scaled(
                        uvnx as int * font_aspect as int,
                        SCALE as int,
                        font_aspect as int,
                    );
                }
                let uvx: i64 = div_floor_i64(uvnx * font_aspect, SCALE);
                let rd: Vec3D = camera.ray_dir(uvx, uvy);
                let contribution: i64 = match raymarch(
                    camera.pos,
                    rd,
                    objects,
                    max_steps,
                    smallest_step,
                ) {
                    None => 0,
                    Some(hit) => {
                        let to_light = light.sub(&hit.pos);
                        let light_dir: Vec3D = match to_light.normalize() {
                            Some(u) => u,
                            None => Vec3D::new(SCALE, 0, 0),
                        };
                        let d: i64 = hit.normal.dot(&light_dir);
                        proof {
                            lemma_dot3_bounded(hit.normal@, light_dir@, SCALE as int);
                            lemma_div_floor_scaled(d as int + SCALE as int, 2, 2_100_000);
                        }
                        div_floor_i64(d + SCALE, 2)
                    },
                };
                total = total + contribution;
                i = i + 1;
            }
            let avg: i64 = div_floor_i64(total, sub_pixel_sample as i64);
            let byte: u8 = glyph_for_brightness(avg);
            proof {
                let w1 = width as int + 1;
                let k = y as int * w1 + x as int;
                assert(0 <= k && k < height as int * w1) by (nonlinear_arith)
                    requires
                        0 <= y as int,
                        y as int + 1 <= height as int,
                        0 <= x as int,
                        x as int + 1 <= w1,
                        1 <= w1,
                        k == y as int * w1 + x as int,
                ;
                vstd::arithmetic::div_mod::lemma_fundamental_div_mod_converse(
                    k,
                    w1,
                    y as int,
                    x as int,
                );
                assert(gspec[k] == byte);
            }
            out.push(byte);
            x = x + 1;
        }
        proof {
            let w1 = width as int + 1;
            let k = y as int * w1 + width as int;
            assert(0 <= k && k < height as int * w1) by (nonlinear_arith)
                requires
                    0 <= y as int,
                    y as int + 1 <= height as int,
                    0 <= width as int,
                    width as int + 1 <= w1,
                    1 <= w1,
                    k == y as int * w1 + width as int,
            ;
            vstd::arithmetic::div_mod::lemma_fundamental_div_mod_converse(
                k,
                w1,
                y as int,
                width as int,
            );
            assert(gspec[k] == 10u8);
            assert((y as int + 1) * w1 == y as int * w1 + w1) by (nonlinear_arith);
        }
        out.push(10u8);
        y = y + 1;
    }
    proof {
        assert(out@.len() == height as int * (width as int + 1));
        assert(out@ =~= gspec);
    }
    out
}

} // verus!
