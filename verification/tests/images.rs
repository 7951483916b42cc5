//! Pictures: comparing and denoising them, the sky around a scene, and where samples
//! fall within a pixel.
use aec_render::compare::{
    check_dimensions, ssim_luminance, ssim_rgba_u8, CompareError, Measures, SsimArithmetic,
};
use aec_render::denoise::{
    bilateral_denoise, nlm_denoise, BilateralParams, Denoiser, ImageRgb, Likeness, LumaArithmetic,
    NlmParams, Tally, Tap,
};
use aec_render::environment::{
    cdf_search, check_size, CdfArithmetic, EnvironmentError, EnvironmentMap, Outlook, SkyPlace,
    Surrounding,
};
use aec_render::geometry::{Vec2, Vec3, Vec4};
use aec_render::sampling::{halton, pixel_rotation_seed, stratified_jitter, RadicalSum};
use aec_render::single::Single;
use aec_render::tiles::{assemble, generate_tiles, AccumulationBuffer, Tile};
use std::f32::consts::PI;

fn num(x: f32) -> Single {
    Single::from_bits(x.to_bits())
}

fn val(x: Single) -> f32 {
    f32::from_bits(x.to_bits())
}

fn lib(v: glam::Vec3) -> Vec3 {
    Vec3::new(num(v.x), num(v.y), num(v.z))
}

fn gl(v: Vec3) -> glam::Vec3 {
    glam::Vec3::new(val(v.x), val(v.y), val(v.z))
}

fn rgb(p: [f32; 3]) -> Vec3 {
    Vec3::new(num(p[0]), num(p[1]), num(p[2]))
}

fn channels(v: Vec3) -> [f32; 3] {
    [val(v.x), val(v.y), val(v.z)]
}

fn plus(a: Single, b: Single) -> Single {
    num(val(a) + val(b))
}

fn minus(a: Single, b: Single) -> Single {
    num(val(a) - val(b))
}

fn times(a: Single, b: Single) -> Single {
    num(val(a) * val(b))
}

fn over(a: Single, b: Single) -> Single {
    num(val(a) / val(b))
}

fn over_count(a: Single, n: usize) -> Single {
    num(val(a) / n as f32)
}

fn luma(v: Vec3) -> Single {
    num(0.2126 * val(v.x) + 0.7152 * val(v.y) + 0.0722 * val(v.z))
}

// Comparing pictures.

fn byte_luma(r: u8, g: u8, b: u8) -> Single {
    num(0.2126 * r as f32 + 0.7152 * g as f32 + 0.0722 * b as f32)
}

fn index(m: Measures) -> Single {
    let c1 = (0.01_f32 * 255.0).powi(2);
    let c2 = (0.03_f32 * 255.0).powi(2);
    let (mu_a, mu_b) = (val(m.mean_a), val(m.mean_b));
    let (var_a, var_b) = (val(m.variance_a), val(m.variance_b));
    let numerator = (2.0 * mu_a * mu_b + c1) * (2.0 * val(m.covariance) + c2);
    let denominator = (mu_a * mu_a + mu_b * mu_b + c1) * (var_a + var_b + c2);
    num(numerator / denominator)
}

fn ssim(a: &Vec<u8>, b: &Vec<u8>, width: u32, height: u32) -> Result<f32, CompareError> {
    let numbers = SsimArithmetic { plus, minus, times, over: over_count, index };
    ssim_rgba_u8(a, b, width, height, &byte_luma, &numbers).map(val)
}

fn solid_image(w: u32, h: u32, rgba: [u8; 4]) -> Vec<u8> {
    let mut v = Vec::with_capacity((w * h * 4) as usize);
    for _ in 0..(w * h) {
        v.extend_from_slice(&rgba);
    }
    v
}

#[test]
fn identical_images_score_one() {
    let img = solid_image(32, 32, [128, 200, 75, 255]);
    let s = ssim(&img, &img, 32, 32).expect("ssim");
    assert!((s - 1.0).abs() < 1e-3, "expected ~1.0, got {s}");
}

#[test]
fn likeness_does_not_depend_on_the_order_of_the_pictures() {
    for side in [4_u32, 16] {
        let a: Vec<u8> = (0..side * side * 4).map(|i| (i * 37 % 251) as u8).collect();
        let b: Vec<u8> = (0..side * side * 4).map(|i| (i * 91 % 241) as u8).collect();
        assert_eq!(ssim(&a, &b, side, side), ssim(&b, &a, side, side));
        assert_ne!(ssim(&a, &b, side, side), ssim(&a, &a, side, side));
    }
}

#[test]
fn equal_colors_score_one_whatever_their_alpha() {
    for side in [4_u32, 16] {
        let a: Vec<u8> = (0..side * side * 4).map(|i| (i * 37 % 251) as u8).collect();
        let mut b = a.clone();
        for i in 0..(side * side) as usize {
            b[4 * i + 3] = 255 - a[4 * i + 3];
        }
        assert_eq!(ssim(&a, &b, side, side), Ok(1.0));
    }
}

#[test]
fn pure_noise_vs_clean_is_below_one_but_positive() {
    let w = 32;
    let h = 32;
    let clean = solid_image(w, h, [128, 128, 128, 255]);
    let mut noisy = clean.clone();
    for i in 0..(w * h) as usize {
        let n = if i % 2 == 0 { 25 } else { -25_i32 };
        for c in 0..3 {
            noisy[i * 4 + c] = (clean[i * 4 + c] as i32 + n).clamp(0, 255) as u8;
        }
    }
    let s = ssim(&clean, &noisy, w, h).expect("ssim");
    assert!(s < 1.0, "noisy SSIM should be < 1.0, got {s}");
    assert!(s > 0.0, "noisy SSIM should be > 0, got {s}");
}

#[test]
fn denoised_vs_noisy_scores_above_eighty_percent() {
    let w = 64;
    let h = 64;
    let mut clean = Vec::with_capacity((w * h * 4) as usize);
    for y in 0..h {
        for x in 0..w {
            let v = ((x + y) * 4).min(255) as u8;
            clean.extend_from_slice(&[v, v, v, 255]);
        }
    }
    let mut noisy = clean.clone();
    let mut rng = fastrand::Rng::with_seed(42);
    for i in 0..(w * h) as usize {
        let n: i32 = rng.i32(-10..=10);
        for c in 0..3 {
            noisy[i * 4 + c] = (clean[i * 4 + c] as i32 + n).clamp(0, 255) as u8;
        }
    }
    let s = ssim(&clean, &noisy, w, h).expect("ssim");
    assert!(s > 0.8, "denoised SSIM should be > 0.8, got {s}");
    assert!(s < 1.0, "denoised SSIM should be < 1.0, got {s}");
}

#[test]
fn mismatched_buffer_size_returns_buffer_size_error() {
    let a = solid_image(8, 8, [0, 0, 0, 255]);
    let b = solid_image(16, 8, [0, 0, 0, 255]);
    let err = ssim(&a, &b, 8, 8).unwrap_err();
    match err {
        CompareError::BufferSize { width, height, expected_bytes, a_bytes, b_bytes } => {
            assert_eq!(width, 8);
            assert_eq!(height, 8);
            assert_eq!(expected_bytes, 8 * 8 * 4);
            assert_eq!(a_bytes, 8 * 8 * 4);
            assert_eq!(b_bytes, 16 * 8 * 4);
        }
        other => panic!("expected BufferSize, got {other:?}"),
    }
}

#[test]
fn buffer_size_error_message_contains_actual_byte_counts() {
    let a = solid_image(2, 2, [0, 0, 0, 255]);
    let b = solid_image(4, 4, [0, 0, 0, 255]);
    let err = ssim(&a, &b, 2, 2).unwrap_err();
    let msg = err.message();
    assert!(msg.contains("16 bytes"), "expected expected_bytes: {msg}");
    assert!(msg.contains("a=16 bytes"), "expected a_bytes: {msg}");
    assert!(msg.contains("b=64 bytes"), "expected b_bytes: {msg}");
    assert_eq!(
        msg,
        "buffer size mismatch: expected 16 bytes for 2x2x4, got a=16 bytes, b=64 bytes"
    );
}

#[test]
fn pictures_of_two_sizes_are_not_compared() {
    assert_eq!(check_dimensions(4, 4, 4, 4), Ok(()));
    let err = check_dimensions(4, 4, 4, 5).unwrap_err();
    assert_eq!(
        err,
        CompareError::DimensionMismatch { a_width: 4, a_height: 4, b_width: 4, b_height: 5 }
    );
    assert_eq!(err.message(), "dimension mismatch: a=4x4, b=4x5");
}

#[test]
fn alpha_makes_no_difference() {
    let a = solid_image(12, 12, [10, 20, 30, 0]);
    let b = solid_image(12, 12, [10, 20, 30, 255]);
    let c = solid_image(12, 12, [90, 20, 30, 255]);
    assert_eq!(ssim(&a, &c, 12, 12), ssim(&b, &c, 12, 12));
}

#[test]
fn small_pictures_are_compared_whole() {
    let numbers = SsimArithmetic { plus, minus, times, over: over_count, index };
    let a = vec![num(1.0), num(3.0)];
    let b = vec![num(2.0), num(2.0)];
    let got = val(ssim_luminance(&a, &b, 2, 1, &numbers));
    let c1 = (0.01_f32 * 255.0).powi(2);
    let c2 = (0.03_f32 * 255.0).powi(2);
    let want = ((8.0 + c1) * c2) / ((8.0 + c1) * (1.0 + c2));
    assert!((got - want).abs() < 1e-6, "got {got}, want {want}");
    assert_eq!(val(ssim_luminance(&vec![], &vec![], 0, 4, &numbers)), 0.0);
}

// Denoising.

fn gather(t: Tally, tap: Tap) -> Tally {
    let p = tap.params;
    let inverse = |sigma: Single| 1.0 / (2.0 * val(sigma) * val(sigma) + 1.0e-6);
    let space = ((tap.dx * tap.dx + tap.dy * tap.dy) as f32) * inverse(p.sigma_space);
    let dl = val(luma(tap.sample.color)) - val(luma(tap.center.color));
    let color = dl.powi(2) * inverse(p.sigma_color);
    let normal = match (tap.center.normal, tap.sample.normal) {
        (Some(c), Some(s)) => {
            let (c, s) = (channels(c), channels(s));
            let dot = (c[0] * s[0] + c[1] * s[1] + c[2] * s[2]).clamp(-1.0, 1.0);
            (1.0 - dot).powi(2) * inverse(p.sigma_normal)
        }
        _ => 0.0,
    };
    let albedo = match (tap.center.albedo, tap.sample.albedo) {
        (Some(c), Some(s)) => {
            let (c, s) = (channels(c), channels(s));
            let d = [c[0] - s[0], c[1] - s[1], c[2] - s[2]];
            (d[0] * d[0] + d[1] * d[1] + d[2] * d[2]) * inverse(p.sigma_albedo)
        }
        _ => 0.0,
    };
    weighted(t, (-(space + color + normal + albedo)).exp(), tap.sample.color)
}

fn weighted(t: Tally, weight: f32, color: Vec3) -> Tally {
    let (s, c) = (channels(t.sum), channels(color));
    Tally {
        sum: rgb([s[0] + weight * c[0], s[1] + weight * c[1], s[2] + weight * c[2]]),
        weight: num(val(t.weight) + weight),
    }
}

fn divide(v: Vec3, by: Single) -> Vec3 {
    let c = channels(v);
    rgb([c[0] / val(by), c[1] / val(by), c[2] / val(by)])
}

fn differ(sum: Single, a: Vec3, b: Vec3) -> Single {
    let (a, b) = (channels(a), channels(b));
    let (dr, dg, db) = (a[0] - b[0], a[1] - b[1], a[2] - b[2]);
    num(val(sum) + (dr * dr + dg * dg + db * db))
}

fn weigh(t: Tally, l: Likeness) -> Tally {
    let side = 2 * l.params.patch_radius.max(0) + 1;
    let inv_h2 = 1.0 / (val(l.params.h) * val(l.params.h) * (side * side) as f32 + 1.0e-6);
    weighted(t, (-val(l.difference) * inv_h2).exp(), l.color)
}

fn square(a: Single, mean: Single) -> Single {
    num((val(a) - val(mean)) * (val(a) - val(mean)))
}

fn spread(sum: Single, n: usize) -> Single {
    num(val(sum) / (n as f32 - 1.0))
}

fn luma_variance(image: &ImageRgb) -> f32 {
    let numbers = LumaArithmetic { luma, plus, mean: over_count, square, spread };
    val(image.luma_variance(&numbers))
}

fn bilateral(
    color: &ImageRgb,
    normal: Option<&ImageRgb>,
    albedo: Option<&ImageRgb>,
    params: BilateralParams,
) -> ImageRgb {
    bilateral_denoise(color, normal, albedo, params, &gather, &divide)
}

fn synthesise_noisy_edge(width: u32, height: u32, noise_amplitude: f32) -> (ImageRgb, ImageRgb) {
    let mut color = ImageRgb::new(width, height);
    let mut normal = ImageRgb::new(width, height);
    let mut rng = fastrand::Rng::with_seed(0xC0FFEE);
    for y in 0..height {
        for x in 0..width {
            let i = (y * width + x) as usize;
            let half = width / 2;
            let base = if x < half { 0.2 } else { 0.8 };
            let n = (rng.f32() - 0.5) * 2.0 * noise_amplitude;
            color.pixels[i] = rgb([(base + n).clamp(0.0, 1.0); 3]);
            normal.pixels[i] = if x < half { rgb([1.0, 0.0, 0.0]) } else { rgb([-1.0, 0.0, 0.0]) };
        }
    }
    (color, normal)
}

fn left_half(image: &ImageRgb, width: u32) -> Vec<Vec3> {
    image
        .pixels
        .iter()
        .enumerate()
        .filter_map(|(i, p)| if (i as u32 % width) < width / 2 { Some(*p) } else { None })
        .collect()
}

#[test]
fn bilateral_reduces_variance() {
    let (color, normal) = synthesise_noisy_edge(64, 64, 0.15);
    let noisy_var = luma_variance(&color);
    let denoised = bilateral(&color, Some(&normal), None, BilateralParams::default());
    let clean_var = luma_variance(&denoised);
    let half = 64u32 / 2;
    let var_noisy_left = luma_variance(&ImageRgb::from_pixels(half, 64, left_half(&color, 64)));
    let var_clean_left = luma_variance(&ImageRgb::from_pixels(half, 64, left_half(&denoised, 64)));
    assert!(
        var_clean_left < var_noisy_left * 0.5,
        "left-half variance should halve (noisy={var_noisy_left}, clean={var_clean_left}, global noisy={noisy_var}, global clean={clean_var})"
    );
}

#[test]
fn bilateral_preserves_edge_with_normal_guidance() {
    let (color, normal) = synthesise_noisy_edge(64, 64, 0.05);
    let denoised = bilateral(
        &color,
        Some(&normal),
        None,
        BilateralParams {
            radius: 3,
            sigma_space: num(4.0),
            sigma_color: num(1.0),
            sigma_normal: num(0.05),
            sigma_albedo: num(0.5),
        },
    );
    let left = channels(denoised.pixels[(32 * 64 + 30) as usize]);
    let right = channels(denoised.pixels[(32 * 64 + 33) as usize]);
    assert!(left[0] < 0.45, "left edge should stay dark, got {left:?}");
    assert!(right[0] > 0.55, "right edge should stay bright, got {right:?}");
}

#[test]
fn nlm_reduces_variance_of_constant_field() {
    let mut rng = fastrand::Rng::with_seed(42);
    let mut color = ImageRgb::new(32, 32);
    for p in color.pixels.iter_mut() {
        let n = (rng.f32() - 0.5) * 0.2;
        *p = rgb([0.5 + n, 0.5 + n, 0.5 + n]);
    }
    let noisy_var = luma_variance(&color);
    let denoised = nlm_denoise(
        &color,
        NlmParams { search_radius: 4, patch_radius: 1, h: num(0.1) },
        &differ,
        &weigh,
        &divide,
    );
    let clean_var = luma_variance(&denoised);
    assert!(
        clean_var < noisy_var * 0.5,
        "NLM should halve the variance of a flat field (noisy={noisy_var}, clean={clean_var})"
    );
}

#[test]
fn bilateral_without_aux_buffers_still_runs() {
    let mut rng = fastrand::Rng::with_seed(7);
    let mut color = ImageRgb::new(16, 16);
    for p in color.pixels.iter_mut() {
        let n = (rng.f32() - 0.5) * 0.5;
        *p = rgb([(0.3 + n).max(0.0); 3]);
    }
    let noisy_var = luma_variance(&color);
    let out = bilateral(&color, None, None, BilateralParams::default());
    let var = luma_variance(&out);
    assert!(var <= noisy_var, "even without aux buffers should not increase variance");
}

#[test]
fn denoiser_enum_dispatches_correctly() {
    let mut rng = fastrand::Rng::with_seed(3);
    let mut color = ImageRgb::new(16, 16);
    for p in color.pixels.iter_mut() {
        *p = rgb([rng.f32(); 3]);
    }
    let apply = |d: Denoiser| d.apply(&color, None, None, &gather, &differ, &weigh, &divide);
    let out_b = apply(Denoiser::Bilateral);
    let out_n = apply(Denoiser::Nlm);
    assert_eq!(out_b.width, 16);
    assert_eq!(out_n.height, 16);
    let in_var = luma_variance(&color);
    assert!(luma_variance(&out_b) <= in_var * 1.05);
    assert!(luma_variance(&out_n) <= in_var * 1.05);
    assert_eq!(out_b, bilateral(&color, None, None, BilateralParams::default()));
    assert_eq!(out_n, nlm_denoise(&color, NlmParams::default(), &differ, &weigh, &divide));
    assert_ne!(out_b, out_n);
}

#[test]
fn image_idx_clamps_out_of_bounds_samples() {
    let img = ImageRgb::new(4, 4);
    let i = img.idx(-5, 100);
    assert!(i < img.pixels.len());
    assert_eq!(i, 12);
    assert_eq!(img.idx(100, -5), 3);
    assert_eq!(img.idx(2, 1), 6);
}

#[test]
fn from_pixels_roundtrips() {
    let pix = vec![rgb([1.0, 2.0, 3.0]); 9];
    let img = ImageRgb::from_pixels(3, 3, pix.clone());
    assert_eq!(img.pixels, pix);
}

#[test]
fn bilateral_normal_and_albedo_slots_are_not_interchangeable() {
    let w = 5_u32;
    let h = 5_u32;
    let pixels: Vec<Vec3> = (0..(w * h))
        .map(|i| {
            let x = (i % w) as f32;
            let y = (i / w) as f32;
            let v = 0.5 + 0.3 * ((x * 0.7 + y * 1.3).sin());
            rgb([v, v, v])
        })
        .collect();
    let color = ImageRgb::from_pixels(w, h, pixels);
    let n_like = ImageRgb::from_pixels(
        w,
        h,
        (0..(w * h))
            .map(|i| {
                let t = i as f32 * 0.31;
                let nx = t.sin();
                let ny = t.cos();
                let nz = (1.0 - nx * nx - ny * ny).max(0.0).sqrt();
                rgb([nx, ny, nz])
            })
            .collect(),
    );
    let a_like = ImageRgb::from_pixels(
        w,
        h,
        (0..(w * h))
            .map(|i| {
                let t = i as f32 * 0.17;
                rgb([0.5 + 0.4 * t.sin(), 0.5 + 0.4 * t.cos(), 0.5])
            })
            .collect(),
    );
    let params = BilateralParams {
        radius: 2,
        sigma_space: num(2.0),
        sigma_color: num(0.5),
        sigma_normal: num(0.6),
        sigma_albedo: num(0.6),
    };
    let correct = bilateral(&color, Some(&n_like), Some(&a_like), params);
    let swapped = bilateral(&color, Some(&a_like), Some(&n_like), params);
    let mut max_abs_diff = 0.0_f32;
    for (c, s) in correct.pixels.iter().zip(swapped.pixels.iter()) {
        let (c, s) = (channels(*c), channels(*s));
        for ch in 0..3 {
            max_abs_diff = max_abs_diff.max((c[ch] - s[ch]).abs());
        }
    }
    assert!(
        max_abs_diff > 1.0e-3,
        "bilateral_denoise must distinguish (normal, albedo) from (albedo, normal); got max_abs_diff = {max_abs_diff}"
    );
}

#[test]
fn a_filter_without_reach_keeps_the_picture() {
    let color = ImageRgb::from_pixels(2, 1, vec![rgb([0.25; 3]), rgb([0.75; 3])]);
    let params = BilateralParams { radius: -3, ..BilateralParams::default() };
    assert_eq!(bilateral(&color, None, None, params), color);
    let nothing = |_: Tally, _: Tap| Tally { sum: rgb([9.0; 3]), weight: num(1.0e-10) };
    let usual = BilateralParams::default();
    assert_eq!(bilateral_denoise(&color, None, None, usual, &nothing, &divide), color);
}

#[test]
fn one_pixel_does_not_vary() {
    let one = ImageRgb::from_pixels(1, 1, vec![rgb([0.5; 3])]);
    assert_eq!(luma_variance(&one), 0.0);
    let two = ImageRgb::from_pixels(2, 1, vec![rgb([0.0; 3]), rgb([1.0; 3])]);
    assert!((luma_variance(&two) - 0.5).abs() < 1e-6);
}

// The sky.

fn cell(row: u32, height: u32, pixel: Vec3) -> Single {
    let v = (row as f32 + 0.5) / height as f32;
    let sin_theta = (v * PI).sin().max(0.0);
    num(val(luma(pixel)) * sin_theta)
}

fn sky(width: u32, height: u32, pixels: Vec<[f32; 3]>, intensity: f32) -> EnvironmentMap {
    let numbers = CdfArithmetic { cell, plus, over };
    let pixels: Vec<Vec3> = pixels.into_iter().map(rgb).collect();
    EnvironmentMap::from_pixels(width, height, pixels, num(intensity), &numbers)
}

fn angles(dir: Vec3) -> (f32, f32) {
    let n = gl(dir).normalize_or_zero();
    let theta = n.y.clamp(-1.0, 1.0).acos();
    let phi = n.z.atan2(n.x);
    ((phi + PI) / (2.0 * PI), theta / PI)
}

fn sky_place(dir: Vec3, width: u32, height: u32) -> SkyPlace {
    let (u, v) = angles(dir);
    let px = u * width as f32 - 0.5;
    let py = v * height as f32 - 0.5;
    SkyPlace {
        column: px.floor() as i64,
        row: py.floor() as i64,
        tx: num(px - px.floor()),
        ty: num(py - py.floor()),
    }
}

fn sky_blend(s: Surrounding, p: SkyPlace, intensity: Single) -> Vec3 {
    let lerp3 = |a: glam::Vec3, b: glam::Vec3, t: f32| a + (b - a) * t;
    let p0 = lerp3(gl(s.upper_left), gl(s.upper_right), val(p.tx));
    let p1 = lerp3(gl(s.lower_left), gl(s.lower_right), val(p.tx));
    lib(lerp3(p0, p1, val(p.ty)) * val(intensity))
}

fn sky_pixel(dir: Vec3, width: u32, height: u32) -> (i32, i32) {
    let (u, v) = angles(dir);
    ((u * width as f32) as i32, (v * height as f32) as i32)
}

fn sky_density(o: Outlook) -> Single {
    num(val(luma(o.pixel)) * (o.width as f32) * (o.height as f32)
        / (2.0 * PI * PI * val(o.total_integral)))
}

fn dim(v: Vec3, by: Single) -> Vec3 {
    lib(gl(v) * val(by))
}

fn look(env: &EnvironmentMap, dir: glam::Vec3) -> glam::Vec3 {
    gl(env.sample_direction(lib(dir), &sky_place, &sky_blend))
}

fn importance(env: &EnvironmentMap, u1: f32, u2: f32) -> Option<(glam::Vec3, glam::Vec3, f32)> {
    let (w, h) = (env.width, env.height);
    let direction = |x: u32, y: u32| {
        let u = (x as f32 + 0.5) / w as f32;
        let v = (y as f32 + 0.5) / h as f32;
        let phi = u * 2.0 * PI - PI;
        let theta = v * PI;
        let s = theta.sin();
        lib(glam::Vec3::new(s * phi.cos(), theta.cos(), s * phi.sin()).normalize_or_zero())
    };
    let density = |dir: Vec3| env.pdf_direction(dir, &sky_pixel, &sky_density);
    env.sample_importance(num(u1), num(u2), direction, dim, density)
        .map(|(dir, radiance, pdf)| (gl(dir), gl(radiance), val(pdf)))
}

fn red_white_env() -> EnvironmentMap {
    let pixels = vec![
        [1.0, 0.0, 0.0],
        [1.0, 0.0, 0.0],
        [1.0, 0.0, 0.0],
        [1.0, 0.0, 0.0],
        [1.0, 1.0, 1.0],
        [1.0, 1.0, 1.0],
        [1.0, 1.0, 1.0],
        [1.0, 1.0, 1.0],
    ];
    sky(4, 2, pixels, 1.0)
}

#[test]
fn sample_direction_returns_correct_band() {
    let env = red_white_env();
    let s = look(&env, glam::Vec3::Y);
    assert!(s.x > 0.5, "expected red, got {s:?}");
    assert!(s.z < 0.5, "expected red, got {s:?}");
    let s = look(&env, -glam::Vec3::Y);
    assert!(s.x > 0.5 && s.y > 0.5 && s.z > 0.5, "expected white, got {s:?}");
}

#[test]
fn importance_sample_pdf_is_positive() {
    let env = red_white_env();
    let (_dir, _rad, pdf) = importance(&env, 0.3, 0.7).expect("sample");
    assert!(pdf > 0.0);
}

#[test]
fn importance_sample_biases_toward_bright_rows() {
    let mut pixels = vec![[0.01_f32, 0.01, 0.01]; 16];
    pixels[8] = [10.0, 10.0, 10.0];
    pixels[9] = [10.0, 10.0, 10.0];
    pixels[10] = [10.0, 10.0, 10.0];
    pixels[11] = [10.0, 10.0, 10.0];
    let env = sky(4, 4, pixels, 1.0);
    let mut bright_count = 0;
    let n = 1000;
    for i in 0..n {
        let u1 = (i as f32 + 0.5) / n as f32;
        let u2 = 0.5;
        if let Some((dir, _, _)) = importance(&env, u1, u2) {
            let theta = dir.y.clamp(-1.0, 1.0).acos();
            let v = theta / PI;
            let y_row = (v * 4.0) as usize;
            if y_row == 2 {
                bright_count += 1;
            }
        }
    }
    assert!(bright_count > 600, "bright_count = {bright_count}/{n}");
}

#[test]
fn empty_environment_does_not_panic() {
    let env = sky(0, 0, vec![], 1.0);
    assert!(look(&env, glam::Vec3::Y).length_squared() == 0.0);
    assert!(importance(&env, 0.5, 0.5).is_none());
}

#[test]
fn a_dark_sky_is_never_picked() {
    let env = sky(2, 2, vec![[0.0; 3]; 4], 1.0);
    assert!(importance(&env, 0.5, 0.5).is_none());
    assert_eq!(
        val(env.pdf_direction(lib(glam::Vec3::Y), &sky_pixel, &sky_density)),
        0.0
    );
}

#[test]
fn directions_of_one_pixel_are_equally_dense() {
    let env = sky(4, 2, vec![[1.0; 3]; 8], 1.0);
    let density = |dir: glam::Vec3| val(env.pdf_direction(lib(dir), &sky_pixel, &sky_density));
    let low = density(glam::Vec3::new(0.9, 0.1, 0.2));
    let high = density(glam::Vec3::new(0.2, 0.9, 0.1));
    assert_eq!(low, high);
    let expected = val(luma(rgb([1.0; 3]))) * 8.0 / (2.0 * PI * PI * val(env.total_integral));
    assert_eq!(low, expected);
}

#[test]
fn light_adds_up_from_left_to_right_and_from_top_to_bottom() {
    let numbers = CdfArithmetic { cell: |_: u32, _: u32, p: Vec3| p.x, plus, over };
    let reds = vec![rgb([1.0; 3]), rgb([3.0; 3]), rgb([0.0; 3]), rgb([4.0; 3])];
    let env = EnvironmentMap::from_pixels(2, 2, reds, num(1.0), &numbers);
    let row: Vec<f32> = env.conditional_cdf.iter().map(|x| val(*x)).collect();
    assert_eq!(row, vec![0.25, 1.0, 0.0, 1.0]);
    let rows: Vec<f32> = env.row_integrals.iter().map(|x| val(*x)).collect();
    assert_eq!(rows, vec![4.0, 4.0]);
    let above: Vec<f32> = env.marginal_cdf.iter().map(|x| val(*x)).collect();
    assert_eq!(above, vec![0.5, 1.0]);
    assert_eq!(val(env.total_integral), 8.0);
}

#[test]
fn searching_finds_the_first_entry_that_reaches() {
    let cdf = vec![num(0.25), num(0.5), num(0.5), num(1.0)];
    assert_eq!(cdf_search(&cdf, num(0.0)), 0);
    assert_eq!(cdf_search(&cdf, num(0.25)), 0);
    assert_eq!(cdf_search(&cdf, num(0.3)), 1);
    assert_eq!(cdf_search(&cdf, num(0.7)), 3);
    assert_eq!(cdf_search(&cdf, num(2.0)), 3);
    assert_eq!(cdf_search(&vec![], num(0.5)), 0);
}

#[test]
fn the_sky_goes_on_around_and_ends_above_and_below() {
    let reds = vec![[1.0, 0.0, 0.0], [2.0, 0.0, 0.0], [3.0, 0.0, 0.0], [4.0, 0.0, 0.0]];
    let env = sky(2, 2, reds, 1.0);
    let s = env.around(1, 0);
    assert_eq!(channels(s.upper_left)[0], 2.0);
    assert_eq!(channels(s.upper_right)[0], 1.0);
    assert_eq!(channels(s.lower_left)[0], 4.0);
    assert_eq!(channels(s.lower_right)[0], 3.0);
    let s = env.around(-1, -1);
    assert_eq!(channels(s.upper_left)[0], 2.0);
    assert_eq!(channels(s.lower_left)[0], 2.0);
    let s = env.around(0, 7);
    assert_eq!(channels(s.upper_left)[0], 3.0);
    assert_eq!(channels(s.lower_left)[0], 3.0);
}

#[test]
fn a_sky_needs_a_size() {
    assert_eq!(check_size(2, 3), Ok(()));
    let err = check_size(0, 3).unwrap_err();
    assert_eq!(err, EnvironmentError::EmptyImage(0, 3));
    assert_eq!(err.message(), "environment image has zero dimensions (0x3)");
}

// Where samples fall.

fn add_digit(so_far: RadicalSum, digit: u32, base: u32) -> RadicalSum {
    let inv_b = 1.0 / base as f32;
    let weight = val(so_far.weight) * inv_b;
    RadicalSum { weight: num(weight), sum: num(val(so_far.sum) + weight * digit as f32) }
}

fn shift(a: Single, b: Single) -> Single {
    num((val(a) + val(b)).fract())
}

fn halton_at(index: u32, base: u32) -> f32 {
    val(halton(index, base, &add_digit))
}

fn jitter(sample_index: u32, seed: [f32; 2]) -> (f32, f32) {
    let seed = Vec2 { x: num(seed[0]), y: num(seed[1]) };
    let p = stratified_jitter(sample_index, seed, &add_digit, &shift);
    (val(p.x), val(p.y))
}

fn rotation(px: u32, py: u32) -> [f32; 2] {
    let p = pixel_rotation_seed(px, py);
    [val(p.x), val(p.y)]
}

#[test]
fn halton_returns_zero_at_zero() {
    assert_eq!(halton_at(0, 2), 0.0);
    assert_eq!(halton_at(0, 3), 0.0);
}

#[test]
fn halton_base_two_matches_van_der_corput() {
    let expected = [0.5_f32, 0.25, 0.75, 0.125, 0.625, 0.375, 0.875, 0.0625];
    for (i, want) in expected.iter().enumerate() {
        let got = halton_at((i as u32) + 1, 2);
        assert!((got - want).abs() < 1e-6, "halton(2)[{i}] = {got}, want {want}");
    }
}

#[test]
fn halton_base_three_matches_known_prefix() {
    let expected = [
        1.0_f32 / 3.0,
        2.0 / 3.0,
        1.0 / 9.0,
        4.0 / 9.0,
        7.0 / 9.0,
        2.0 / 9.0,
        5.0 / 9.0,
        8.0 / 9.0,
    ];
    for (i, want) in expected.iter().enumerate() {
        let got = halton_at((i as u32) + 1, 3);
        assert!((got - want).abs() < 1e-5, "halton(3)[{i}] = {got}, want {want}");
    }
}

#[test]
fn halton_stays_strictly_below_one() {
    for i in 1..=4096u32 {
        let v2 = halton_at(i, 2);
        let v3 = halton_at(i, 3);
        assert!(v2 < 1.0, "halton(2)[{i}] = {v2}");
        assert!(v3 < 1.0, "halton(3)[{i}] = {v3}");
        assert!(v2 >= 0.0);
        assert!(v3 >= 0.0);
    }
}

#[test]
fn stratified_jitter_stays_in_unit_square() {
    for s in 0..256u32 {
        let (jx, jy) = jitter(s, [0.3, 0.7]);
        assert!((0.0..1.0).contains(&jx), "jx out of range: {jx}");
        assert!((0.0..1.0).contains(&jy), "jy out of range: {jy}");
    }
}

#[test]
fn stratified_jitter_has_lower_discrepancy_than_pure_random() {
    const N: u32 = 64;
    const GRID: usize = 4;
    let mut halton_cells = [[false; GRID]; GRID];
    let mut random_cells = [[false; GRID]; GRID];
    for s in 0..N {
        let (jx, jy) = jitter(s, [0.0, 0.0]);
        let cx = (jx * GRID as f32) as usize;
        let cy = (jy * GRID as f32) as usize;
        halton_cells[cx.min(GRID - 1)][cy.min(GRID - 1)] = true;
    }
    let mut rng = fastrand::Rng::with_seed(0xCAFEBABE);
    for _ in 0..N {
        let cx = (rng.f32() * GRID as f32) as usize;
        let cy = (rng.f32() * GRID as f32) as usize;
        random_cells[cx.min(GRID - 1)][cy.min(GRID - 1)] = true;
    }
    let filled = |cells: &[[bool; GRID]; GRID]| -> u32 {
        cells.iter().map(|row| row.iter().filter(|c| **c).count() as u32).sum()
    };
    let halton_filled = filled(&halton_cells);
    let random_filled = filled(&random_cells);
    assert_eq!(
        halton_filled,
        (GRID * GRID) as u32,
        "64 samples must fill all 16 stratification cells"
    );
    assert!(
        halton_filled >= random_filled,
        "coverage {} must beat or tie pure-random {}",
        halton_filled,
        random_filled
    );
}

#[test]
fn pixel_rotation_seed_is_deterministic_across_calls() {
    for (px, py) in [(0, 0), (1, 0), (0, 1), (12345, 6789), (u32::MAX, u32::MAX)] {
        let a = rotation(px, py);
        let b = rotation(px, py);
        assert_eq!(a, b, "({px}, {py}) must be deterministic");
        assert!((0.0..1.0).contains(&a[0]) && (0.0..1.0).contains(&a[1]));
    }
}

#[test]
fn pixel_rotation_seed_stays_strictly_below_one() {
    let coords = [
        (0u32, 0u32),
        (1, 0),
        (0, 1),
        (u32::MAX, 0),
        (0, u32::MAX),
        (u32::MAX, u32::MAX),
        (u32::MAX - 1, u32::MAX - 1),
    ];
    for (px, py) in coords {
        let [a, b] = rotation(px, py);
        assert!(a < 1.0, "pixel_rotation_seed({px}, {py})[0] = {a}, must be < 1.0");
        assert!(b < 1.0, "pixel_rotation_seed({px}, {py})[1] = {b}, must be < 1.0");
        assert!(a >= 0.0);
        assert!(b >= 0.0);
    }
    for px in 0..256u32 {
        for py in 0..256u32 {
            let [a, b] = rotation(px, py);
            assert!(a < 1.0 && b < 1.0 && a >= 0.0 && b >= 0.0);
        }
    }
}

#[test]
fn pixel_rotation_seed_decorrelates_neighbouring_pixels() {
    let mut min_dist = f32::INFINITY;
    for px in 0..16u32 {
        for py in 0..16u32 {
            let here = rotation(px, py);
            if px + 1 < 16 {
                let east = rotation(px + 1, py);
                let dx = (here[0] - east[0]).abs();
                let dy = (here[1] - east[1]).abs();
                min_dist = min_dist.min(dx.max(dy));
            }
        }
    }
    assert!(min_dist > 0.01, "neighbouring-pixel rotation distance too small ({min_dist})");
}

#[test]
fn stratified_jitter_progressive_index_yields_coherent_low_discrepancy() {
    const GRID: usize = 4;
    let seed = rotation(7, 11);
    let mut combined = [[false; GRID]; GRID];
    let mut pass_a = [[false; GRID]; GRID];
    let mut pass_b = [[false; GRID]; GRID];
    let mark = |cells: &mut [[bool; GRID]; GRID], jx: f32, jy: f32| {
        let cx = ((jx * GRID as f32) as usize).min(GRID - 1);
        let cy = ((jy * GRID as f32) as usize).min(GRID - 1);
        cells[cx][cy] = true;
    };
    for s in 0..4u32 {
        let (jx, jy) = jitter(s, seed);
        mark(&mut pass_a, jx, jy);
        mark(&mut combined, jx, jy);
    }
    for s in 0..4u32 {
        let (jx, jy) = jitter(4 + s, seed);
        mark(&mut pass_b, jx, jy);
        mark(&mut combined, jx, jy);
    }
    let count = |c: &[[bool; GRID]; GRID]| c.iter().flatten().filter(|b| **b).count();
    let na = count(&pass_a);
    let nb = count(&pass_b);
    let nc = count(&combined);
    assert!(
        nc > na && nc > nb,
        "two passes with advancing index must cover more cells than either alone: pass_a={na}, pass_b={nb}, combined={nc}"
    );
}

#[test]
fn rotation_comes_from_the_scrambled_place() {
    // The place (0, 0) scrambles to 0xE220A8397B1DCDAF.
    assert_eq!(
        rotation(0, 0),
        [0x20A839 as f32 / 16_777_216.0, 0x1DCDAF as f32 / 16_777_216.0]
    );
}

#[test]
fn the_last_sample_index_stays_in_range() {
    assert_eq!(jitter(u32::MAX, [0.0, 0.0]), jitter(u32::MAX - 1, [0.0, 0.0]));
}

#[test]
fn stratified_jitter_saturates_at_u32_max_instead_of_panicking() {
    let seed = rotation(0, 0);
    let (jx, jy) = jitter(u32::MAX, seed);
    assert!(jx.is_finite() && (0.0..1.0).contains(&jx));
    assert!(jy.is_finite() && (0.0..1.0).contains(&jy));
    let (jx_a, jy_a) = jitter(u32::MAX - 2, seed);
    assert!(
        (jx_a - jx).abs() > 1e-6 || (jy_a - jy).abs() > 1e-6,
        "samples below the saturation boundary must differ from the saturated one"
    );
}

// Tiles.

fn plus4(a: Vec4, b: Vec4) -> Vec4 {
    Vec4 { x: plus(a.x, b.x), y: plus(a.y, b.y), z: plus(a.z, b.z), w: plus(a.w, b.w) }
}

fn entry(x: f32) -> Vec4 {
    Vec4 { x: num(x), y: num(x), z: num(x), w: num(1.0) }
}

#[test]
fn tiles_cover_each_pixel_once() {
    let tiles = generate_tiles(70, 33, 32);
    assert_eq!(tiles.len(), 6);
    assert_eq!(tiles[5], Tile { x_start: 64, y_start: 32, x_end: 70, y_end: 33 });
    for y in 0..33 {
        for x in 0..70 {
            let holding = tiles
                .iter()
                .filter(|t| t.x_start <= x && x < t.x_end && t.y_start <= y && y < t.y_end)
                .count();
            assert_eq!(holding, 1);
        }
    }
    assert_eq!(tiles[5].pixel_count(), 6);
    assert_eq!((tiles[5].width(), tiles[5].height()), (6, 1));
}

#[test]
fn rendered_tiles_come_together_in_one_picture() {
    let chunks = vec![vec![entry(1.0)], vec![entry(2.0)], vec![], vec![entry(4.0)]];
    let buffer = assemble(2, 2, 1, &chunks, &plus4);
    let reds: Vec<f32> = buffer.pixels.iter().map(|p| val(p.x)).collect();
    assert_eq!(reds, vec![1.0, 2.0, 0.0, 4.0]);
    let average = |p: Vec4| {
        let n = val(p.w).max(1.0);
        rgb([val(p.x) / n, val(p.y) / n, val(p.z) / n])
    };
    let means = buffer.average_rgb(average);
    assert_eq!(channels(means[3]), [4.0; 3]);
    let tone = |p: Vec4| (val(p.x) as u8, val(p.y) as u8 + 1, val(p.z) as u8 + 2);
    assert_eq!(buffer.as_srgb8(tone), vec![1, 2, 3, 2, 3, 4, 0, 1, 2, 4, 5, 6]);
}

#[test]
fn a_tile_is_added_where_it_lies() {
    let mut buffer = AccumulationBuffer::new(3, 2);
    let tile = Tile { x_start: 1, y_start: 0, x_end: 3, y_end: 2 };
    let chunk = vec![entry(1.0), entry(2.0), entry(3.0), entry(4.0)];
    buffer.add_tile(tile, &chunk, &plus4);
    buffer.add_tile(tile, &chunk, &plus4);
    let reds: Vec<f32> = buffer.pixels.iter().map(|p| val(p.x)).collect();
    assert_eq!(reds, vec![0.0, 2.0, 4.0, 0.0, 6.0, 8.0]);
}
