//! Shading, per-pixel sampling, and the render loop.

use vstd::prelude::*;
use crate::camera::{camera_ray_dir, camera_wf, Camera, CameraModel};
use crate::fixed::{
    clamp, clamp_spec, fdiv, fixed_div, fixed_mul, fmul, int_div, lemma_fmul_bound,
    lemma_sdiv_bound, lemma_sdiv_const, lemma_sdiv_exact, sdiv, HALF_SCALE, SCALE,
};
use crate::hittable::{HitRec, Hittable};
use crate::hittablelist::{list_hit_model, HittableList};
use crate::ray::{ray_wf, Ray, RayModel};
use crate::sphere::Sphere;
use crate::vector::{
    in_bound, lemma_sprods_from_bounds, lemma_v_unit_bound, v_add, v_in_bound, v_lensq, v_scale, v_unit,
    Color, Vec3, COORD_LIM,
};
use vstd::arithmetic::div_mod::{
    lemma_div_is_ordered, lemma_div_pos_is_pos, lemma_fundamental_div_mod_converse,
    lemma_multiply_divide_lt,
};

verus! {

/// Largest magnitude of a color channel a single sample can produce.
pub const CHANNEL_LIM: i64 = 8_000_000_000_000_000;

/// Largest image width or height, in pixels.
pub const DIM_MAX: usize = 10_000;

/// Largest number of samples per pixel.
pub const SAMPLES_MAX: usize = 100_000;

/// A channel is held into `[0, 0.999]` before integer conversion, so the
/// boundary value one maps to 255 and not 256.
pub const CLAMP_MAX: i64 = 999_000;

/// Largest integer channel value of the image format.
pub const MAX_COLOR_VALUE: u8 = 255;

/// Pure white, the lower end of the sky gradient.
pub open spec fn white() -> Vec3 {
    Vec3 { x: SCALE as int, y: SCALE as int, z: SCALE as int }
}

/// Sky blue, the upper end of the sky gradient.
pub open spec fn sky_blue() -> Vec3 {
    Vec3 { x: HALF_SCALE as int, y: 700_000, z: SCALE as int }
}

/// The color of a ray that missed everything: a vertical gradient from
/// white to sky blue, driven by the y component of the unit direction.
pub open spec fn sky_color_spec(direction: Vec3) -> Vec3 {
    let unit_direction = v_unit(direction);
    let t = fmul(HALF_SCALE as int, unit_direction.y + SCALE);
    v_add(v_scale(white(), SCALE - t), v_scale(sky_blue(), t))
}

/// The color for a resolved ray: a hit shades the stored normal from
/// `[-1, 1]` into `[0, 1]` per component; a miss shades the sky.
pub open spec fn shade_spec(hit: Option<HitRec>, r: RayModel) -> Vec3 {
    match hit {
        Option::Some(rec) => v_scale(v_add(rec.normal, white()), HALF_SCALE as int),
        Option::None => sky_color_spec(r.direction),
    }
}

/// The color seen along a ray: the scene is queried over `(0, +bound)` and
/// the nearest hit, if any, is shaded.
pub fn ray_color<H: Hittable>(r: &Ray, world: &H) -> (c: Color)
    requires
        world.wf(),
        ray_wf(r@),
    ensures
        c@ == shade_spec(world.hit_model(r@, 0, i64::MAX as int), r@),
        v_in_bound(c@, CHANNEL_LIM as int),
{
    let hit_rec_opt = world.hit(r, 0, i64::MAX);
    let unit_color = Color { x: SCALE, y: SCALE, z: SCALE };
    match hit_rec_opt {
        Some(hit_rec) => {
            proof {
                lemma_fmul_bound(
                    hit_rec@.normal.x + SCALE as int,
                    HALF_SCALE as int,
                    14_000_001_000_000_000int,
                    HALF_SCALE as int,
                );
                lemma_fmul_bound(
                    hit_rec@.normal.y + SCALE as int,
                    HALF_SCALE as int,
                    14_000_001_000_000_000int,
                    HALF_SCALE as int,
                );
                lemma_fmul_bound(
                    hit_rec@.normal.z + SCALE as int,
                    HALF_SCALE as int,
                    14_000_001_000_000_000int,
                    HALF_SCALE as int,
                );
                lemma_sdiv_const(
                    14_000_001_000_000_000int * (HALF_SCALE as int),
                    SCALE as int,
                    7_000_000_500_000_000int,
                );
            }
            hit_rec.normal.add(unit_color).mul(HALF_SCALE)
        },
        None => {
            proof {
                lemma_sprods_from_bounds(
                    r@.direction,
                    r@.direction,
                    COORD_LIM as int,
                    COORD_LIM as int,
                );
                lemma_v_unit_bound(r@.direction, COORD_LIM as int);
                lemma_fmul_bound(
                    HALF_SCALE as int,
                    v_unit(r@.direction).y + SCALE as int,
                    HALF_SCALE as int,
                    201_000_000int,
                );
                lemma_sdiv_const(
                    (HALF_SCALE as int) * 201_000_000int,
                    SCALE as int,
                    100_500_000int,
                );
            }
            let unit_direction = r.direction.unit_vector();
            let t = fixed_mul(HALF_SCALE, unit_direction.y + SCALE);
            let other_color = Color { x: HALF_SCALE, y: 700_000, z: SCALE };
            proof {
                lemma_fmul_bound(SCALE as int, SCALE as int - t, SCALE as int, 101_500_000int);
                lemma_fmul_bound(HALF_SCALE as int, t as int, SCALE as int, 101_500_000int);
                lemma_fmul_bound(700_000int, t as int, SCALE as int, 101_500_000int);
                lemma_fmul_bound(SCALE as int, t as int, SCALE as int, 101_500_000int);
                lemma_sdiv_const(
                    (SCALE as int) * 101_500_000int,
                    SCALE as int,
                    101_500_000int,
                );
            }
            unit_color.mul(SCALE - t).add(other_color.mul(t))
        },
    }
}

/// The boundary colors of the sky gradient: a ray straight up shades to
/// exactly sky blue, a ray straight down to exactly white.
pub proof fn lemma_sky_gradient_boundary()
    ensures
        sky_color_spec(Vec3 { x: 0, y: SCALE as int, z: 0 }) == sky_blue(),
        sky_color_spec(Vec3 { x: 0, y: -(SCALE as int), z: 0 }) == white(),
{
    assert((SCALE as int) * (SCALE as int) == 1_000_000_000_000int) by (nonlinear_arith);
    assert((-(SCALE as int)) * (SCALE as int) == -1_000_000_000_000int) by (nonlinear_arith);
    assert((HALF_SCALE as int) * (2 * SCALE as int) == 1_000_000_000_000int)
        by (nonlinear_arith);
    assert((HALF_SCALE as int) * (SCALE as int) == 500_000_000_000int) by (nonlinear_arith);
    assert(700_000int * (SCALE as int) == 700_000_000_000int) by (nonlinear_arith);
    lemma_sdiv_const(0int, 1_000_000int, 0int);
    lemma_sdiv_const(1_000_000_000_000int, 1_000_000int, 1_000_000int);
    lemma_sdiv_const(-1_000_000_000_000int, 1_000_000int, -1_000_000int);
    lemma_sdiv_const(500_000_000_000int, 1_000_000int, 500_000int);
    lemma_sdiv_const(700_000_000_000int, 1_000_000int, 700_000int);
    let up = Vec3 { x: 0, y: SCALE as int, z: 0 };
    let down = Vec3 { x: 0, y: -(SCALE as int), z: 0 };
    // Both directions have unit length exactly.
    assert(v_lensq(up) == SCALE as int);
    assert(v_lensq(down) == SCALE as int);
    assert((1_000_001int) * (1_000_001int) == 1_000_002_000_001int) by (nonlinear_arith);
    crate::fixed::lemma_sqrt_down_unique(1_000_000_000_000int, 1_000_000int);
    assert(v_unit(up) == up);
    assert(v_unit(down) == down);
    // Straight up gives t = 1; straight down gives t = 0.
    assert(fmul(HALF_SCALE as int, up.y + SCALE) == SCALE as int);
    assert(fmul(HALF_SCALE as int, down.y + SCALE) == 0);
}

/// The fractional screen coordinate of a sample: the pixel index plus the
/// jitter, over the pixel count less one.
pub open spec fn sample_coord_spec(idx: int, jitter: int, count: int) -> int {
    fdiv(idx * SCALE + jitter, (count - 1) * SCALE)
}

/// The screen coordinate of a jittered sample; at most two, so it stays
/// within what `get_ray` accepts.
pub fn sample_coord(idx: usize, jitter: i64, count: usize) -> (r: i64)
    requires
        2 <= count <= DIM_MAX,
        idx < count,
        0 <= jitter < SCALE,
    ensures
        r as int == sample_coord_spec(idx as int, jitter as int, count as int),
        0 <= r <= 2 * SCALE,
{
    let num = (idx as i64) * SCALE + jitter;
    let den = (count as i64 - 1) * SCALE;
    proof {
        assert(num as int <= 2 * (den as int));
        assert((num as int) * (SCALE as int) <= (2 * SCALE as int) * (den as int))
            by (nonlinear_arith)
            requires
                num as int <= 2 * (den as int),
                0 <= num,
        ;
        lemma_sdiv_exact(2 * SCALE as int, den as int);
        lemma_div_is_ordered(
            (num as int) * (SCALE as int),
            (2 * SCALE as int) * (den as int),
            den as int,
        );
        lemma_div_pos_is_pos((num as int) * (SCALE as int), den as int);
    }
    fixed_div(num, den)
}

/// The ray model of the sample through screen coordinates `(u, v)`.
pub open spec fn sample_ray(cam: CameraModel, u: int, v: int) -> RayModel {
    RayModel { origin: cam.origin, direction: camera_ray_dir(cam, u, v) }
}

/// The color of one sample of pixel `(w_idx, h_idx)` with the given jitter
/// pair (vertical jitter first, as drawn).
pub open spec fn sample_color_spec(
    cam: CameraModel,
    objs: Seq<Sphere>,
    w_idx: int,
    h_idx: int,
    img_w: int,
    img_h: int,
    jit: (i64, i64),
) -> Vec3 {
    let u = sample_coord_spec(w_idx, jit.1 as int, img_w);
    let v = sample_coord_spec(h_idx, jit.0 as int, img_h);
    shade_spec(
        list_hit_model(objs, sample_ray(cam, u, v), 0, i64::MAX as int),
        sample_ray(cam, u, v),
    )
}

/// The sum of the sample colors over a jitter sequence: exact integer
/// component sums.
pub open spec fn sample_sum_spec(
    cam: CameraModel,
    objs: Seq<Sphere>,
    w_idx: int,
    h_idx: int,
    img_w: int,
    img_h: int,
    jitters: Seq<(i64, i64)>,
) -> Vec3
    decreases jitters.len(),
{
    if jitters.len() == 0 {
        Vec3 { x: 0, y: 0, z: 0 }
    } else {
        v_add(
            sample_sum_spec(cam, objs, w_idx, h_idx, img_w, img_h, jitters.drop_last()),
            sample_color_spec(cam, objs, w_idx, h_idx, img_w, img_h, jitters.last()),
        )
    }
}

/// The pixel color: the sample sum averaged over the sample count, each
/// component rounded toward zero.
pub open spec fn pixel_color_spec(
    cam: CameraModel,
    objs: Seq<Sphere>,
    w_idx: int,
    h_idx: int,
    img_w: int,
    img_h: int,
    jitters: Seq<(i64, i64)>,
) -> Vec3 {
    let sum = sample_sum_spec(cam, objs, w_idx, h_idx, img_w, img_h, jitters);
    let n = jitters.len() as int;
    Vec3 { x: sdiv(sum.x, n), y: sdiv(sum.y, n), z: sdiv(sum.z, n) }
}

/// The multi-sample color of one pixel: one camera ray per jitter pair,
/// shaded against the scene and averaged.
#[verifier::loop_isolation(false)]
pub fn pixel_color(
    cam: &Camera,
    world: &HittableList,
    w_idx: usize,
    h_idx: usize,
    img_w: usize,
    img_h: usize,
    jitters: &Vec<(i64, i64)>,
) -> (c: Color)
    requires
        camera_wf(cam@),
        world.wf(),
        2 <= img_w <= DIM_MAX,
        2 <= img_h <= DIM_MAX,
        w_idx < img_w,
        h_idx < img_h,
        1 <= jitters@.len() <= SAMPLES_MAX,
        forall|k: int|
            0 <= k < jitters@.len() ==> 0 <= (#[trigger] jitters@[k]).0 < SCALE && 0
                <= jitters@[k].1 < SCALE,
    ensures
        c@ == pixel_color_spec(
            cam@,
            world@,
            w_idx as int,
            h_idx as int,
            img_w as int,
            img_h as int,
            jitters@,
        ),
{
    let mut sum_x: i128 = 0;
    let mut sum_y: i128 = 0;
    let mut sum_z: i128 = 0;
    let mut k: usize = 0;
    proof {
        assert(jitters@.take(0int) =~= Seq::<(i64, i64)>::empty());
    }
    while k < jitters.len()
        invariant
            k <= jitters@.len(),
            sum_x == sample_sum_spec(
                cam@,
                world@,
                w_idx as int,
                h_idx as int,
                img_w as int,
                img_h as int,
                jitters@.take(k as int),
            ).x,
            sum_y == sample_sum_spec(
                cam@,
                world@,
                w_idx as int,
                h_idx as int,
                img_w as int,
                img_h as int,
                jitters@.take(k as int),
            ).y,
            sum_z == sample_sum_spec(
                cam@,
                world@,
                w_idx as int,
                h_idx as int,
                img_w as int,
                img_h as int,
                jitters@.take(k as int),
            ).z,
            in_bound(sum_x as int, k as int * (CHANNEL_LIM as int)),
            in_bound(sum_y as int, k as int * (CHANNEL_LIM as int)),
            in_bound(sum_z as int, k as int * (CHANNEL_LIM as int)),
        decreases jitters@.len() - k,
    {
        let (h_rand, w_rand) = jitters[k];
        let u = sample_coord(w_idx, w_rand, img_w);
        let v = sample_coord(h_idx, h_rand, img_h);
        let r = cam.get_ray(u, v);
        proof {
            assert(r@ == sample_ray(cam@, u as int, v as int));
        }
        let sample = ray_color(&r, world);
        proof {
            assert(sample@ == sample_color_spec(
                cam@,
                world@,
                w_idx as int,
                h_idx as int,
                img_w as int,
                img_h as int,
                jitters@[k as int],
            ));
            assert(jitters@.take(k as int + 1).drop_last() =~= jitters@.take(k as int));
            assert(jitters@.take(k as int + 1).last() == jitters@[k as int]);
        }
        sum_x = sum_x + sample.x as i128;
        sum_y = sum_y + sample.y as i128;
        sum_z = sum_z + sample.z as i128;
        k = k + 1;
    }
    proof {
        assert(jitters@.take(jitters@.len() as int) =~= jitters@);
        let n = jitters@.len() as int;
        lemma_sdiv_bound(sum_x as int, n, n * (CHANNEL_LIM as int));
        lemma_sdiv_bound(sum_y as int, n, n * (CHANNEL_LIM as int));
        lemma_sdiv_bound(sum_z as int, n, n * (CHANNEL_LIM as int));
        lemma_sdiv_exact(CHANNEL_LIM as int, n);
    }
    let n = jitters.len() as i64;
    Color { x: int_div(sum_x, n), y: int_div(sum_y, n), z: int_div(sum_z, n) }
}

/// The integer channel value of one averaged color component: held into
/// `[0, 0.999]`, scaled by 256 and rounded down.
pub open spec fn channel_spec(c: int) -> int {
    sdiv(256 * clamp_spec(c, 0, CLAMP_MAX as int), SCALE as int)
}

/// The three integer channel values, each in `[0, 255]`, of an averaged
/// pixel color.
pub fn color_channels(color: &Color) -> (rgb: (u8, u8, u8))
    ensures
        rgb.0 as int == channel_spec(color@.x),
        rgb.1 as int == channel_spec(color@.y),
        rgb.2 as int == channel_spec(color@.z),
{
    let r = channel_value(color.x);
    let g = channel_value(color.y);
    let b = channel_value(color.z);
    (r, g, b)
}

/// One channel of [`color_channels`].
fn channel_value(c: i64) -> (v: u8)
    ensures
        v as int == channel_spec(c as int),
{
    let held = clamp(c, 0, CLAMP_MAX);
    proof {
        lemma_multiply_divide_lt(256 * held as int, SCALE as int, 256int);
        lemma_div_pos_is_pos(256 * held as int, SCALE as int);
    }
    ((256 * (held as u64)) / (SCALE as u64)) as u8
}

/// The channel triple of pixel `k` (row-major, top row first) of a render
/// with one centered sample per pixel.
pub open spec fn render_pixel_spec(
    cam: CameraModel,
    objs: Seq<Sphere>,
    img_w: int,
    img_h: int,
    k: int,
) -> (int, int, int) {
    let row = k / img_w;
    let col = k % img_w;
    let h_idx = img_h - 1 - row;
    let c = sample_color_spec(cam, objs, col, h_idx, img_w, img_h, (0i64, 0i64));
    (channel_spec(c.x), channel_spec(c.y), channel_spec(c.z))
}

/// Render the scene: one unjittered sample per pixel, rows scanned top to
/// bottom and columns left to right, each pixel converted to its integer
/// channel triple.
#[verifier::loop_isolation(false)]
pub fn render(cam: &Camera, world: &HittableList, img_w: usize, img_h: usize) -> (pixels: Vec<
    (u8, u8, u8),
>)
    requires
        camera_wf(cam@),
        world.wf(),
        2 <= img_w <= DIM_MAX,
        2 <= img_h <= DIM_MAX,
    ensures
        pixels@.len() == img_w * img_h,
        forall|k: int|
            0 <= k < pixels@.len() ==> {
                let spec = render_pixel_spec(cam@, world@, img_w as int, img_h as int, k);
                &&& (#[trigger] pixels@[k]).0 as int == spec.0
                &&& pixels@[k].1 as int == spec.1
                &&& pixels@[k].2 as int == spec.2
            },
{
    let mut pixels: Vec<(u8, u8, u8)> = Vec::new();
    let zero_jitters: Vec<(i64, i64)> = vec![(0i64, 0i64)];
    proof {
        assert(zero_jitters@.drop_last() =~= Seq::<(i64, i64)>::empty());
    }
    let mut row: usize = 0;
    while row < img_h
        invariant
            row <= img_h,
            pixels@.len() == row * img_w,
            zero_jitters@.len() == 1,
            zero_jitters@[0] == (0i64, 0i64),
            forall|k: int|
                0 <= k < pixels@.len() ==> {
                    let spec = render_pixel_spec(cam@, world@, img_w as int, img_h as int, k);
                    &&& (#[trigger] pixels@[k]).0 as int == spec.0
                    &&& pixels@[k].1 as int == spec.1
                    &&& pixels@[k].2 as int == spec.2
                },
        decreases img_h - row,
    {
        let h_idx = img_h - 1 - row;
        let mut col: usize = 0;
        while col < img_w
            invariant
                col <= img_w,
                row < img_h,
                h_idx == img_h - 1 - row,
                pixels@.len() == row * img_w + col,
                zero_jitters@.len() == 1,
                zero_jitters@[0] == (0i64, 0i64),
                forall|k: int|
                    0 <= k < pixels@.len() ==> {
                        let spec = render_pixel_spec(cam@, world@, img_w as int, img_h as int, k);
                        &&& (#[trigger] pixels@[k]).0 as int == spec.0
                        &&& pixels@[k].1 as int == spec.1
                        &&& pixels@[k].2 as int == spec.2
                    },
            decreases img_w - col,
        {
            let c = pixel_color(cam, world, col, h_idx, img_w, img_h, &zero_jitters);
            let rgb = color_channels(&c);
            proof {
                let k = row as int * img_w as int + col as int;
                lemma_fundamental_div_mod_converse(k, img_w as int, row as int, col as int);
                let sample = sample_color_spec(
                    cam@,
                    world@,
                    col as int,
                    h_idx as int,
                    img_w as int,
                    img_h as int,
                    (0i64, 0i64),
                );
                reveal_with_fuel(sample_sum_spec, 3);
                assert(zero_jitters@.drop_last() =~= Seq::<(i64, i64)>::empty());
                assert(zero_jitters@.last() == (0i64, 0i64));
                assert(sample_sum_spec(
                    cam@,
                    world@,
                    col as int,
                    h_idx as int,
                    img_w as int,
                    img_h as int,
                    zero_jitters@,
                ) == sample);
                lemma_sdiv_exact(sample.x, 1);
                lemma_sdiv_exact(sample.y, 1);
                lemma_sdiv_exact(sample.z, 1);
                assert(c@ == sample);
            }
            pixels.push(rgb);
            col = col + 1;
        }
        row = row + 1;
        proof {
            assert(row as int * img_w as int == (row - 1) as int * img_w as int + img_w as int)
                by (nonlinear_arith);
        }
    }
    proof {
        assert(img_h as int * img_w as int == img_w as int * img_h as int) by (nonlinear_arith);
    }
    pixels
}

/// With every sample drawn at the same jitter, the multi-sample average is
/// exactly the single-sample color: the sum is the sample count times one
/// color, and the average divides it back out.
pub proof fn lemma_average_of_equal_samples(
    cam: CameraModel,
    objs: Seq<Sphere>,
    w_idx: int,
    h_idx: int,
    img_w: int,
    img_h: int,
    jitters: Seq<(i64, i64)>,
    j: (i64, i64),
)
    requires
        jitters.len() >= 1,
        forall|k: int| 0 <= k < jitters.len() ==> jitters[k] == j,
    ensures
        pixel_color_spec(cam, objs, w_idx, h_idx, img_w, img_h, jitters) == sample_color_spec(
            cam,
            objs,
            w_idx,
            h_idx,
            img_w,
            img_h,
            j,
        ),
{
    let s = sample_color_spec(cam, objs, w_idx, h_idx, img_w, img_h, j);
    lemma_sum_of_equal_samples(cam, objs, w_idx, h_idx, img_w, img_h, jitters, j);
    let n = jitters.len() as int;
    lemma_sdiv_exact(s.x, n);
    lemma_sdiv_exact(s.y, n);
    lemma_sdiv_exact(s.z, n);
    assert(s.x * n == n * s.x && s.y * n == n * s.y && s.z * n == n * s.z) by (nonlinear_arith);
}

proof fn lemma_sum_of_equal_samples(
    cam: CameraModel,
    objs: Seq<Sphere>,
    w_idx: int,
    h_idx: int,
    img_w: int,
    img_h: int,
    jitters: Seq<(i64, i64)>,
    j: (i64, i64),
)
    requires
        forall|k: int| 0 <= k < jitters.len() ==> jitters[k] == j,
    ensures
        sample_sum_spec(cam, objs, w_idx, h_idx, img_w, img_h, jitters) == (Vec3 {
            x: jitters.len() * sample_color_spec(cam, objs, w_idx, h_idx, img_w, img_h, j).x,
            y: jitters.len() * sample_color_spec(cam, objs, w_idx, h_idx, img_w, img_h, j).y,
            z: jitters.len() * sample_color_spec(cam, objs, w_idx, h_idx, img_w, img_h, j).z,
        }),
    decreases jitters.len(),
{
    let s = sample_color_spec(cam, objs, w_idx, h_idx, img_w, img_h, j);
    if jitters.len() > 0 {
        assert(forall|k: int|
            0 <= k < jitters.len() - 1 ==> jitters.drop_last()[k] == #[trigger] jitters[k]);
        lemma_sum_of_equal_samples(cam, objs, w_idx, h_idx, img_w, img_h, jitters.drop_last(), j);
        assert(jitters.last() == j);
        let n = jitters.len() as int;
        assert((n - 1) * s.x + s.x == n * s.x) by (nonlinear_arith);
        assert((n - 1) * s.y + s.y == n * s.y) by (nonlinear_arith);
        assert((n - 1) * s.z + s.z == n * s.z) by (nonlinear_arith);
    } else {
        assert(0 * s.x == 0 && 0 * s.y == 0 && 0 * s.z == 0) by (nonlinear_arith);
    }
}

} // verus!
