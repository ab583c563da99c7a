//! Recursive shading and the pixel sampling loop.

use vstd::prelude::*;

verus! {

use crate::camera::{Camera, cam_wf, cast_from};
use crate::fx::{
    ONE, tdiv, clip, spec_fadd, spec_fsub, spec_fmul, spec_fsqrt, fadd, fsub, fmul, fsqrt, fmax,
    fclamp, fdiv_int, lemma_tdiv_pos, lemma_tdiv_is_ordered,
};
use crate::hittable::{Hittable, HitRecord};
use crate::image::Image;
use crate::material::{Material, mat_wf};
use crate::ray::Ray;
use crate::rng::{rng_from_seed, next_unit};
use crate::shapes::{Sphere, is_sphere_hit, sphere_hit_t};
use crate::vec3::{
    Vector3, V3, v_add, v_dot, v_reflect, v_scale, v_normalize, v_sum, v_zero, v3,
    lemma_v_sum_push,
};
use crate::world::{World, world_wf, is_nearest_hit};

/// Intersections nearer than this epsilon are ignored, so a
/// scattered ray never immediately re-hits the surface it left.
pub const T_MIN_EPS: i64 = 7;

/// `255.999` as a fixed-point scalar.
pub const CHANNEL_SCALE: i64 = 16777150;

/// `0.999`, the upper clamp of a tone-mapped channel.
pub const CHANNEL_CLAMP: i64 = 65470;

/// One output channel: average the accumulated channel over the
/// sample count, tone-map by a square root (gamma two), clamp to
/// `[0, 0.999]`, and scale to an 8-bit integer.
pub open spec fn channel_byte(c: int, samples: int) -> int {
    let scaled = tdiv(c, samples);
    let gamma = spec_fsqrt(if scaled >= 0 { scaled } else { 0 });
    let clamped = if gamma > CHANNEL_CLAMP {
        CHANNEL_CLAMP as int
    } else {
        gamma
    };
    tdiv(spec_fmul(CHANNEL_SCALE as int, clamped), 65536)
}

/// The background gradient a ray that escapes the scene sees: white
/// blended toward sky blue by the upward component of the unit
/// direction.
pub open spec fn background_spec(r: Ray) -> V3 {
    let unit = v_normalize(r.direction@);
    let t = spec_fmul(32768, spec_fadd(unit.y, ONE as int));
    v_add(
        v_scale(spec_fsub(ONE as int, t), v3(ONE as int, ONE as int, ONE as int)),
        v_scale(t, v3(32768, 45875, ONE as int)),
    )
}

/// Averages, gamma-corrects and quantizes an accumulated pixel
/// color.
pub fn translate_color(pixel_color: Vector3, samples: usize) -> (rgb: [u8; 3])
    requires
        0 < samples <= 0x7FFF_FFFF,
    ensures
        rgb[0] == channel_byte(pixel_color@.x, samples as int),
        rgb[1] == channel_byte(pixel_color@.y, samples as int),
        rgb[2] == channel_byte(pixel_color@.z, samples as int),
{
    let n = samples as i64;
    let ir = translate_channel(pixel_color.x, n);
    let ig = translate_channel(pixel_color.y, n);
    let ib = translate_channel(pixel_color.z, n);
    [ir, ig, ib]
}

/// One channel of [`translate_color`].
fn translate_channel(c: i64, n: i64) -> (b: u8)
    requires
        n > 0,
    ensures
        b == channel_byte(c as int, n as int),
{
    let scaled = fdiv_int(c, n);
    let gamma = fsqrt(fmax(scaled, 0));
    let clamped = fclamp(gamma, 0, CHANNEL_CLAMP);
    proof {
        assert(gamma >= 0);
        let w = (CHANNEL_SCALE as int) * clamped;
        assert(0 <= w <= 16777150 * 65470) by (nonlinear_arith)
            requires
                w == 16777150 * clamped,
                0 <= clamped <= 65470,
        ;
        lemma_tdiv_pos(w, 65536);
        lemma_tdiv_is_ordered(w, 16777150int * 65470, 65536);
        lemma_tdiv_is_ordered(tdiv(w, 65536), tdiv(16777150int * 65470, 65536), 65536);
        assert(16777150int * 65470 == 1098400010500);
        assert(1098400010500int / 65536 == 16760254);
        assert(16760254int / 65536 == 255);
        assert(tdiv(tdiv(16777150int * 65470, 65536), 65536) < 256);
        lemma_tdiv_pos(tdiv(w, 65536), 65536);
    }
    let v = fmul(CHANNEL_SCALE, clamped);
    let b = fdiv_int(v, 65536 as i64);
    b as u8
}

/// The hit record describes a perfect mirror whose reflection fails
/// to leave the surface: such a ray is absorbed.
pub open spec fn absorbing_mirror(ray: Ray, rec: HitRecord) -> bool {
    rec.mat matches Material::Metal { albedo, fuzz } && fuzz == 0 && v_dot(
        v_reflect(v_normalize(ray.direction@), rec.normal@),
        rec.normal@,
    ) <= 0
}

/// No ray at all strikes any member of the scene: an empty scene,
/// or one whose members sit outside every search range.
pub open spec fn scene_all_miss(objs: Seq<Sphere>) -> bool {
    forall|r: Ray|
        is_nearest_hit(objs, r, T_MIN_EPS as int, i64::MAX as int, Option::<HitRecord>::None)
}

/// The viewport coordinate of pixel `i` of `n` lies within the
/// pixel's jitter footprint.
pub open spec fn coord_in_span(c: int, i: int, n: int) -> bool
    recommends
        n >= 2,
{
    tdiv(i * 65536, n - 1) <= c <= tdiv(i * 65536 + 65535, n - 1)
}

/// The color is the background seen along some ray the camera can
/// cast through the footprint of pixel `(i, j)` of a `w` by `h`
/// image.
pub open spec fn sample_is_background(
    cam: Camera,
    i: int,
    j: int,
    w: int,
    h: int,
    col: V3,
) -> bool {
    exists|r: Ray, u: int, v: int|
        {
            &&& #[trigger] cast_from(cam, u, v, r)
            &&& coord_in_span(u, i, w)
            &&& coord_in_span(v, j, h)
            &&& col == background_spec(r)
        }
}

/// Everything the sampler promises of one finished pixel: the bytes
/// quantize the fixed-point sum of one color per sample; an
/// exhausted recursion budget makes every sample black; and over a
/// scene that every ray misses, every sample is the background of a
/// ray cast through this pixel's own footprint.
pub open spec fn pixel_contract(
    cam: Camera,
    objs: Seq<Sphere>,
    i: int,
    j: int,
    w: int,
    h: int,
    samples: int,
    depth: int,
    rgb: [u8; 3],
) -> bool {
    exists|cs: Seq<V3>|
        {
            &&& cs.len() == samples
            &&& rgb[0] == channel_byte(v_sum(cs).x, samples)
            &&& rgb[1] == channel_byte(v_sum(cs).y, samples)
            &&& rgb[2] == channel_byte(v_sum(cs).z, samples)
            &&& (depth == 0 ==> (forall|k: int| 0 <= k < cs.len() ==> #[trigger] cs[k] == v_zero()))
            &&& ((depth > 0 && scene_all_miss(objs)) ==> (forall|k: int|
                0 <= k < cs.len() ==> sample_is_background(cam, i, j, w, h, #[trigger] cs[k])))
        }
}

/// Multiplying a scalar by one changes nothing.
proof fn lemma_fmul_one(x: int)
    requires
        i64::MIN <= x <= i64::MAX,
    ensures
        spec_fmul(x, 65536) == x,
        spec_fmul(65536, x) == x,
{
    vstd::arithmetic::div_mod::lemma_mod_multiples_basic(x, 65536);
    assert(x * 65536 == 65536 * x) by (nonlinear_arith);
    crate::fx::lemma_tdiv_exact(x * 65536, 65536);
    vstd::arithmetic::div_mod::lemma_div_multiples_vanish(x, 65536);
}

/// The background gradient never tints blue: its third channel is
/// exactly one, whatever the ray.
pub proof fn lemma_background_blue(r: Ray)
    ensures
        background_spec(r).z == 65536,
{
    let unit = v_normalize(r.direction@);
    let s = spec_fadd(unit.y, ONE as int);
    let q = tdiv(32768 * s, 65536);
    assert(crate::fx::iabs(32768 * s) <= 32768 * 0x8000_0000_0000_0000) by (nonlinear_arith)
        requires
            -0x8000_0000_0000_0000 <= s <= 0x7FFF_FFFF_FFFF_FFFF,
    ;
    lemma_tdiv_pos(crate::fx::iabs(32768 * s), 65536);
    lemma_tdiv_is_ordered(crate::fx::iabs(32768 * s), 32768int * 0x8000_0000_0000_0000, 65536);
    assert(32768int * 0x8000_0000_0000_0000 == 0x4000_0000_0000_0000_0000);
    assert(0x4000_0000_0000_0000_0000int / 65536 == 0x4000_0000_0000_0000);
    assert(crate::fx::iabs(q) == tdiv(crate::fx::iabs(32768 * s), 65536));
    assert(crate::fx::iabs(q) <= 0x4000_0000_0000_0000);
    let t = spec_fmul(32768, s);
    assert(t == q);
    assert(spec_fsub(ONE as int, t) == 65536 - t);
    lemma_fmul_one(65536 - t);
    lemma_fmul_one(t);
}

/// A sum of black samples is black.
proof fn lemma_v_sum_zeros(cs: Seq<V3>)
    requires
        forall|k: int| 0 <= k < cs.len() ==> #[trigger] cs[k] == v_zero(),
    ensures
        v_sum(cs) == v_zero(),
    decreases cs.len(),
{
    if cs.len() > 0 {
        assert(forall|k: int|
            0 <= k < cs.drop_last().len() ==> #[trigger] cs.drop_last()[k] == v_zero());
        lemma_v_sum_zeros(cs.drop_last());
        assert(cs.last() == v_zero());
    }
}

/// Samples whose blue channel is exactly one sum to the sample count
/// in the blue channel.
proof fn lemma_v_sum_blue(cs: Seq<V3>)
    requires
        forall|k: int| 0 <= k < cs.len() ==> (#[trigger] cs[k]).z == 65536,
        cs.len() <= 0x7FFF_FFFF,
    ensures
        v_sum(cs).z == cs.len() * 65536,
    decreases cs.len(),
{
    if cs.len() > 0 {
        assert(forall|k: int|
            0 <= k < cs.drop_last().len() ==> (#[trigger] cs.drop_last()[k]).z == 65536);
        lemma_v_sum_blue(cs.drop_last());
        assert(cs.last().z == 65536);
        assert((cs.len() - 1) * 65536 + 65536 == cs.len() * 65536) by (nonlinear_arith);
        assert(0 <= (cs.len() - 1) * 65536 <= 0x7FFF_FFFF * 65536) by (nonlinear_arith)
            requires
                0 <= cs.len() - 1 <= 0x7FFF_FFFF,
        ;
    }
}

/// A black accumulator quantizes to a zero byte.
proof fn lemma_channel_byte_zero(n: int)
    requires
        n > 0,
    ensures
        channel_byte(0, n) == 0,
{
    assert(tdiv(0, n) == 0);
    crate::fx::lemma_isqrt(0);
    assert(crate::fx::isqrt(0) == 0) by (nonlinear_arith)
        requires
            crate::fx::isqrt(0) >= 0,
            crate::fx::isqrt(0) * crate::fx::isqrt(0) <= 0,
    ;
    assert(tdiv(0int * 65536, 65536) == 0);
    assert(tdiv(0, 65536) == 0);
}

/// A full-intensity accumulator (the blue of `n` background samples)
/// quantizes to 255.
proof fn lemma_channel_byte_full(n: int)
    requires
        0 < n <= 0x7FFF_FFFF,
    ensures
        channel_byte(n * 65536, n) == 255,
{
    vstd::arithmetic::div_mod::lemma_div_multiples_vanish(65536, n);
    assert((n * 65536) / n == 65536);
    assert(0 <= n * 65536) by (nonlinear_arith)
        requires
            n > 0,
    ;
    assert(tdiv(n * 65536, n) == 65536);
    assert(65536int * 65536 == 4294967296);
    assert(65537int * 65537 == 4295098369);
    crate::fx::lemma_isqrt(65536int * 65536);
    crate::fx::lemma_isqrt_unique(4294967296, crate::fx::isqrt(65536int * 65536), 65536);
    assert(spec_fsqrt(65536) == 65536);
    assert(16777150int * 65470 == 1098400010500);
    assert(1098400010500int / 65536 == 16760254);
    assert(tdiv(16777150int * 65470, 65536) == 16760254);
    assert(16760254int / 65536 == 255);
    assert(channel_byte(n * 65536, n) == 255);
}

/// The color carried back along a ray.
///
/// The terminal states are exact: an exhausted recursion budget is
/// black; a ray no scene member intersects is the background
/// gradient; a ray whose nearest hit can only be an absorbing
/// zero-fuzz mirror is black. A scattering bounce multiplies the
/// attenuation into whatever the scattered ray returns.
///
/// With albedos in `[0, 1]` the result stays within `[0, 1]` per
/// channel up to fixed-point rounding only: normalizing a direction
/// of near-quantum magnitude can overshoot unit length by whole
/// ticks, pushing a background channel slightly past one. The
/// quantization clamp in [`translate_color`] absorbs the excess, so
/// no exact range clause is stated here.
pub fn ray_color(ray: Ray, world: &World, depth: usize, rng: &mut rand::rngs::StdRng) -> (c:
    Vector3)
    requires
        world_wf(*world),
    ensures
        depth == 0 ==> c@ == v_zero(),
        (depth > 0 && is_nearest_hit(
            world.objects@,
            ray,
            T_MIN_EPS as int,
            i64::MAX as int,
            Option::None,
        )) ==> c@ == background_spec(ray),
        (depth > 0 && !is_nearest_hit(
            world.objects@,
            ray,
            T_MIN_EPS as int,
            i64::MAX as int,
            Option::None,
        ) && (forall|rec: HitRecord|
            is_nearest_hit(
                world.objects@,
                ray,
                T_MIN_EPS as int,
                i64::MAX as int,
                Some(rec),
            ) ==> absorbing_mirror(ray, rec))) ==> c@ == v_zero(),
    decreases depth,
{
    if depth == 0 {
        return Vector3::zeros();
    }
    let found = world.hit(ray, T_MIN_EPS, i64::MAX);
    match found {
        Some(rec) => {
            proof {
                let k = choose|k: int|
                    0 <= k < world.objects@.len() && #[trigger] is_sphere_hit(
                        world.objects@[k],
                        ray,
                        T_MIN_EPS as int,
                        i64::MAX as int,
                        found,
                    );
                assert(mat_wf(world.objects@[k].mat));
                assert(rec.mat == world.objects@[k].mat);
                assert(is_nearest_hit(
                    world.objects@,
                    ray,
                    T_MIN_EPS as int,
                    i64::MAX as int,
                    Option::Some(rec),
                ));
            }
            match rec.mat.scatter(ray, rec, rng) {
                Some((attenuation, scattered)) => {
                    proof {
                        // An absorbing mirror never reaches this arm:
                        // with zero fuzz, scattering is equivalent to
                        // the reflection leaving the surface.
                        if absorbing_mirror(ray, rec) {
                            assert(v_dot(
                                v_reflect(v_normalize(ray.direction@), rec.normal@),
                                rec.normal@,
                            ) > 0);
                            assert(false);
                        }
                    }
                    let bounced = ray_color(scattered, world, depth - 1, rng);
                    attenuation.elem_mul(bounced)
                },
                None => Vector3::zeros(),
            }
        },
        None => background(ray),
    }
}

/// The background gradient, executable.
fn background(ray: Ray) -> (c: Vector3)
    ensures
        c@ == background_spec(ray),
{
    let unit_direction = ray.direction.normalize();
    let t = fmul(32768, fadd(unit_direction.y, ONE));
    let white = Vector3::new(ONE, ONE, ONE);
    let blue = Vector3::new(32768, 45875, ONE);
    white.scale(fsub(ONE, t)).plus(blue.scale(t))
}

/// One pixel: `samples` rays jittered within the pixel footprint,
/// cast through the camera, shaded recursively, accumulated, then
/// averaged and quantized. Two consequences of the per-sample
/// contract are stated directly: an exhausted budget gives a black
/// pixel, and a scene every ray misses gives a fully blue channel.
pub fn render_pixel(
    world: &World,
    camera: &Camera,
    image: Image,
    i: usize,
    j: usize,
    samples: usize,
    depth: usize,
    rng: &mut rand::rngs::StdRng,
) -> (rgb: [u8; 3])
    requires
        world_wf(*world),
        cam_wf(*camera),
        2 <= image.width <= 1000000,
        2 <= image.height <= 1000000,
        i < image.width,
        j < image.height,
        0 < samples <= 0x7FFF_FFFF,
    ensures
        pixel_contract(
            *camera,
            world.objects@,
            i as int,
            j as int,
            image.width as int,
            image.height as int,
            samples as int,
            depth as int,
            rgb,
        ),
        depth == 0 ==> rgb[0] == 0 && rgb[1] == 0 && rgb[2] == 0,
        (depth > 0 && scene_all_miss(world.objects@)) ==> rgb[2] == 255,
{
    let mut pixel_color = Vector3::zeros();
    let ghost mut cs: Seq<V3> = Seq::empty();
    let mut s: usize = 0;
    while s < samples
        invariant
            world_wf(*world),
            cam_wf(*camera),
            2 <= image.width <= 1000000,
            2 <= image.height <= 1000000,
            i < image.width,
            j < image.height,
            s <= samples,
            cs.len() == s,
            pixel_color@ == v_sum(cs),
            depth == 0 ==> (forall|k: int| 0 <= k < cs.len() ==> #[trigger] cs[k] == v_zero()),
            (depth > 0 && scene_all_miss(world.objects@)) ==> (forall|k: int|
                0 <= k < cs.len() ==> sample_is_background(
                    *camera,
                    i as int,
                    j as int,
                    image.width as int,
                    image.height as int,
                    #[trigger] cs[k],
                )),
        decreases samples - s,
    {
        let u = pixel_coord(i, image.width, rng);
        let v = pixel_coord(j, image.height, rng);
        let r = camera.cast_ray(u, v, rng);
        let sample = ray_color(r, world, depth, rng);
        proof {
            if depth > 0 && scene_all_miss(world.objects@) {
                assert(is_nearest_hit(
                    world.objects@,
                    r,
                    T_MIN_EPS as int,
                    i64::MAX as int,
                    Option::<HitRecord>::None,
                ));
                assert(sample@ == background_spec(r));
                assert(cast_from(*camera, u as int, v as int, r));
                assert(sample_is_background(
                    *camera,
                    i as int,
                    j as int,
                    image.width as int,
                    image.height as int,
                    sample@,
                ));
            }
            lemma_v_sum_push(cs, sample@);
            cs = cs.push(sample@);
        }
        pixel_color = pixel_color.plus(sample);
        s = s + 1;
    }
    let rgb = translate_color(pixel_color, samples);
    proof {
        assert(pixel_contract(
            *camera,
            world.objects@,
            i as int,
            j as int,
            image.width as int,
            image.height as int,
            samples as int,
            depth as int,
            rgb,
        ));
        if depth == 0 {
            lemma_v_sum_zeros(cs);
            lemma_channel_byte_zero(samples as int);
        }
        if depth > 0 && scene_all_miss(world.objects@) {
            assert forall|k: int| 0 <= k < cs.len() implies (#[trigger] cs[k]).z == 65536 by {
                let (r, u, v) = choose|r: Ray, u: int, v: int|
                    {
                        &&& #[trigger] cast_from(*camera, u, v, r)
                        &&& coord_in_span(u, i as int, image.width as int)
                        &&& coord_in_span(v, j as int, image.height as int)
                        &&& cs[k] == background_spec(r)
                    };
                lemma_background_blue(r);
            }
            lemma_v_sum_blue(cs);
            lemma_channel_byte_full(samples as int);
        }
    }
    rgb
}

/// The normalized viewport coordinate of pixel index `i` of `n`,
/// jittered uniformly within the pixel's footprint.
fn pixel_coord(i: usize, n: usize, rng: &mut rand::rngs::StdRng) -> (c: i64)
    requires
        2 <= n <= 1000000,
        i < n,
    ensures
        0 <= c <= 131071,
        coord_in_span(c as int, i as int, n as int),
{
    let jitter = next_unit(rng);
    let num: i64 = (i as i64) * 65536 + jitter;
    let den: i64 = (n as i64) - 1;
    proof {
        let w = num as int;
        assert((i as int) * 65536 <= w <= (i as int) * 65536 + 65535);
        assert(0 <= w <= (den as int) * 65536 + 65535);
        lemma_tdiv_pos(w, den as int);
        lemma_tdiv_is_ordered((i as int) * 65536, w, den as int);
        lemma_tdiv_is_ordered(w, (i as int) * 65536 + 65535, den as int);
        lemma_tdiv_is_ordered(w, (den as int) * 65536 + 65535, den as int);
        vstd::arithmetic::div_mod::lemma_hoist_over_denominator(65535, 65536, den as nat);
        vstd::arithmetic::div_mod::lemma_div_nonincreasing(65535, den as int);
        vstd::arithmetic::div_mod::lemma_div_pos_is_pos(65535, den as int);
        assert(tdiv((den as int) * 65536 + 65535, den as int) <= 131071);
        crate::fx::lemma_tdiv_pos((i as int) * 65536, den as int);
    }
    fdiv_int(num, den)
}

/// The generator seed of the pixel at buffer index `idx`: the
/// global seed, xored with the index spread by an odd multiplier so
/// that neighbouring pixels get unrelated streams.
pub open spec fn spec_pixel_seed(seed: u64, idx: u64) -> u64 {
    seed ^ vstd::wrapping::u64_specs::wrapping_mul(idx, 0x9E37_79B9_7F4A_7C15)
}

/// Executable form of [`spec_pixel_seed`]; the scheduler in charge
/// of the pixel loop derives each pixel's generator from it.
pub fn pixel_seed(seed: u64, idx: u64) -> (s: u64)
    ensures
        s == spec_pixel_seed(seed, idx),
{
    seed ^ idx.wrapping_mul(0x9E37_79B9_7F4A_7C15)
}

/// Renders the whole image into a row-major buffer, top row first:
/// the pixel at buffer index `p` is column `p % width` of viewport
/// row `height - 1 - p / width`, and meets the per-pixel contract
/// for those coordinates. Every pixel owns a generator seeded from
/// the global seed and its own index, so the sampling of one pixel
/// never depends on another.
pub fn render(
    world: &World,
    image: Image,
    camera: &Camera,
    samples: usize,
    depth: usize,
    seed: u64,
) -> (buf: Vec<[u8; 3]>)
    requires
        world_wf(*world),
        cam_wf(*camera),
        2 <= image.width <= 1000000,
        2 <= image.height <= 1000000,
        image.width * image.height <= usize::MAX,
        0 < samples <= 0x7FFF_FFFF,
    ensures
        buf@.len() == image.width * image.height,
        forall|p: int|
            0 <= p < buf@.len() ==> #[trigger] pixel_contract(
                *camera,
                world.objects@,
                p % (image.width as int),
                image.height - 1 - p / (image.width as int),
                image.width as int,
                image.height as int,
                samples as int,
                depth as int,
                buf@[p],
            ),
        depth == 0 ==> (forall|p: int|
            0 <= p < buf@.len() ==> (#[trigger] buf@[p])[0] == 0 && buf@[p][1] == 0 && buf@[p][2]
                == 0),
        (depth > 0 && scene_all_miss(world.objects@)) ==> (forall|p: int|
            0 <= p < buf@.len() ==> (#[trigger] buf@[p])[2] == 255),
{
    let mut buf: Vec<[u8; 3]> = Vec::new();
    let mut row: usize = 0;
    while row < image.height
        invariant
            world_wf(*world),
            cam_wf(*camera),
            2 <= image.width <= 1000000,
            2 <= image.height <= 1000000,
            image.width * image.height <= usize::MAX,
            0 < samples <= 0x7FFF_FFFF,
            row <= image.height,
            buf@.len() == row * image.width,
            forall|p: int|
                0 <= p < buf@.len() ==> #[trigger] pixel_contract(
                    *camera,
                    world.objects@,
                    p % (image.width as int),
                    image.height - 1 - p / (image.width as int),
                    image.width as int,
                    image.height as int,
                    samples as int,
                    depth as int,
                    buf@[p],
                ),
            depth == 0 ==> (forall|p: int|
                0 <= p < buf@.len() ==> (#[trigger] buf@[p])[0] == 0 && buf@[p][1] == 0
                    && buf@[p][2] == 0),
            (depth > 0 && scene_all_miss(world.objects@)) ==> (forall|p: int|
                0 <= p < buf@.len() ==> (#[trigger] buf@[p])[2] == 255),
        decreases image.height - row,
    {
        let j = image.height - 1 - row;
        let mut col: usize = 0;
        proof {
            assert((row + 1) * image.width <= image.width * image.height) by (nonlinear_arith)
                requires
                    row + 1 <= image.height,
                    image.width >= 0,
            ;
        }
        while col < image.width
            invariant
                world_wf(*world),
                cam_wf(*camera),
                2 <= image.width <= 1000000,
                2 <= image.height <= 1000000,
                row < image.height,
                j == image.height - 1 - row,
                col <= image.width,
                (row + 1) * image.width <= usize::MAX,
                0 < samples <= 0x7FFF_FFFF,
                buf@.len() == row * image.width + col,
                forall|p: int|
                    0 <= p < buf@.len() ==> #[trigger] pixel_contract(
                        *camera,
                        world.objects@,
                        p % (image.width as int),
                        image.height - 1 - p / (image.width as int),
                        image.width as int,
                        image.height as int,
                        samples as int,
                        depth as int,
                        buf@[p],
                    ),
                depth == 0 ==> (forall|p: int|
                    0 <= p < buf@.len() ==> (#[trigger] buf@[p])[0] == 0 && buf@[p][1] == 0
                        && buf@[p][2] == 0),
                (depth > 0 && scene_all_miss(world.objects@)) ==> (forall|p: int|
                    0 <= p < buf@.len() ==> (#[trigger] buf@[p])[2] == 255),
            decreases image.width - col,
        {
            proof {
                assert(row * image.width + col < (row + 1) * image.width) by (nonlinear_arith)
                    requires
                        col < image.width,
                        row >= 0,
                ;
            }
            let idx = row * image.width + col;
            let pixel_seed_v = pixel_seed(seed, idx as u64);
            let mut pixel_rng = rng_from_seed(pixel_seed_v);
            let rgb = render_pixel(world, camera, image, col, j, samples, depth, &mut pixel_rng);
            proof {
                assert((row * image.width + col) == (row as int) * (image.width as int) + (
                col as int)) by (nonlinear_arith)
                    requires
                        row * image.width + col < (row + 1) * image.width,
                        (row + 1) * image.width <= usize::MAX,
                ;
                vstd::arithmetic::div_mod::lemma_fundamental_div_mod_converse(
                    idx as int,
                    image.width as int,
                    row as int,
                    col as int,
                );
                assert((idx as int) % (image.width as int) == col as int);
                assert((idx as int) / (image.width as int) == row as int);
            }
            buf.push(rgb);
            col = col + 1;
        }
        proof {
            assert((row + 1) * image.width == row * image.width + image.width)
                by (nonlinear_arith);
        }
        row = row + 1;
    }
    proof {
        assert(image.height * image.width == image.width * image.height) by (nonlinear_arith);
    }
    buf
}

} // verus!
