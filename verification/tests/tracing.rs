//! Materials, paths of light, and the renders that are made of them.
use std::cell::RefCell;
use std::f32::consts::{PI, TAU};
use std::sync::Arc;

use aec_render::bvh::{BuilderTriangle, SplitCandidate};
use aec_render::denoise::{Denoiser, ImageRgb, Likeness, Tally, Tap};
use aec_render::environment::EnvironmentMap;
use aec_render::final_render::{
    build_path_trace_scene, encode_srgb8, encode_srgb8_with_denoiser,
    path_trace_config_from_preset, preset_denoiser, scene_sky, FinalRenderError,
    FinalRenderPipeline, Guides, PictureArithmetic,
};
use aec_render::geometry::{Aabb, Mat4, Vec2, Vec3, Vec4};
use aec_render::gpu_trace::{
    build_camera_frame, check_adapter, choose_tracer, collect_readback, plan_dispatch,
    shader_verdict, storage_bytes, validate_shader, CameraFrame, GpuSceneBuffers, GpuTraceError, LightGpu, Tracer, SHADER_SOURCE,
};
use aec_render::ies::{IesPhotometricType, IesProfile};
use aec_render::intersect::{
    ray_aabb_t, safe_inverse, Intersection, Ray, ShadingTriangle, Slabs, TriangleTest,
};
use aec_render::light_sampling::{LampArithmetic, LampDraws, LightReach, NativeLight, Squares};
use aec_render::lighting::{Curve, SkyParams};
use aec_render::material::{
    eval_bsdf, ggx_d, ggx_g_smith, pdf_bsdf, refract_snell, sample_bsdf, sample_normal_map,
    sample_textured_material, tangent_basis, Aim, Bend, BsdfSample, Crossing, Finish, LightPath,
    Lobe, LobeOdds, MaterialTextureBindings, PathTraceMaterial, Perturbed, ScatterArithmetic,
    ScatterDraws, Scattering, Sides, TangentFrame, TextureId,
};
use aec_render::materials::library::MaterialLibrary;
use aec_render::materials::material::PbrMaterial;
use aec_render::panorama::{PanoramaError, PanoramaPipeline};
use aec_render::path_trace::{
    transform_point, CameraProjection, Course, Meeting, PathTraceConfig, PathTraceScene,
    SceneArithmetic, ViewArithmetic,
};
use aec_render::path_walk::{
    LampLight, Lens, Moments, Optics, PixelSample, Purpose, Sight, Strike, Surface,
    TilePassResult,
};
use aec_render::photometry::{AngleArithmetic, Blend};
use aec_render::preset::{HardwareTier, RenderPreset};
use aec_render::preview::{
    kelvin_to_rgb, pick_camera, pick_sky_state, scene_world_sphere, tier_resolution_scale,
    tier_tile_size, transform_to_mat4, PreviewBuildError, PreviewMaterial, PreviewPipeline,
    SkyState, Sphere,
};
use aec_render::scene::{RenderCamera, RenderLight, RenderScene, SerializedMesh};
use aec_render::single::Single;
use aec_render::tiles::{assemble, generate_tiles, AccumulationBuffer, Tile};

fn num(x: f32) -> Single {
    Single::from_bits(x.to_bits())
}

fn val(x: Single) -> f32 {
    f32::from_bits(x.to_bits())
}

fn lib(v: glam::Vec3) -> Vec3 {
    Vec3::new(num(v.x), num(v.y), num(v.z))
}

fn gl(v: Vec3) -> glam::Vec3 {
    glam::Vec3::new(val(v.x), val(v.y), val(v.z))
}

fn at(x: f32, y: f32, z: f32) -> glam::Vec3 {
    glam::Vec3::new(x, y, z)
}

fn vec3(x: f32, y: f32, z: f32) -> Vec3 {
    lib(at(x, y, z))
}

fn approx(a: glam::Vec3, b: glam::Vec3, eps: f32) -> bool {
    (a - b).length() < eps
}

// ---- scattering --------------------------------------------------------

fn spread(n_dot_h: Single, alpha: Single) -> Single {
    let a2 = val(alpha) * val(alpha);
    let denom = (val(n_dot_h) * val(n_dot_h)) * (a2 - 1.0) + 1.0;
    num(a2 / (PI * denom * denom).max(1e-20))
}

fn ggx(n_dot_h: f32, alpha: f32) -> f32 {
    val(ggx_d(num(n_dot_h), num(alpha), &spread))
}

fn masking(n_dot_v: Single, n_dot_l: Single, alpha: Single) -> Crossing<Single> {
    let (v, l, a2) = (val(n_dot_v), val(n_dot_l), val(alpha) * val(alpha));
    let g_v = l * (a2 + (1.0 - a2) * v * v).sqrt();
    let g_l = v * (a2 + (1.0 - a2) * l * l).sqrt();
    let denom = g_v + g_l;
    Crossing { divisor: num(denom), value: num((2.0 * v * l) / denom) }
}

fn smith(n_dot_v: f32, n_dot_l: f32, alpha: f32) -> f32 {
    val(ggx_g_smith(num(n_dot_v), num(n_dot_l), num(alpha), &masking))
}

fn bend(wo: Vec3, n: Vec3, eta: Single) -> Bend {
    let (wo, n, eta) = (gl(wo), gl(n), val(eta));
    let cos_i = n.dot(wo).min(1.0);
    let sin2_t = eta * eta * (1.0 - cos_i * cos_i);
    let cos_t = (1.0 - sin2_t).sqrt();
    Bend { sin2_t: num(sin2_t), direction: lib(-eta * wo + (eta * cos_i - cos_t) * n) }
}

fn frame(n: Vec3, sign: Single) -> (Vec3, Vec3) {
    let (n, sign) = (gl(n), val(sign));
    let a = -1.0 / (sign + n.z);
    let b = n.x * n.y * a;
    let t = at(1.0 + sign * n.x * n.x * a, sign * b, -sign * n.x);
    let bt = at(b, sign + n.y * n.y * a, -n.y);
    (lib(t.normalize()), lib(bt.normalize()))
}

fn basis(n: glam::Vec3) -> (glam::Vec3, glam::Vec3) {
    let (t, b) = tangent_basis(lib(n), &frame);
    (gl(t), gl(b))
}

fn fresnel_schlick(cos_theta: f32, f0: glam::Vec3) -> glam::Vec3 {
    let pow5 = (1.0 - cos_theta).max(0.0).powi(5);
    f0 + (glam::Vec3::splat(1.0) - f0) * pow5
}

fn f0(m: &PathTraceMaterial) -> glam::Vec3 {
    let f = (val(m.ior) - 1.0) / (val(m.ior) + 1.0);
    glam::Vec3::splat(f * f).lerp(gl(m.base_color), val(m.metallic))
}

fn transmission_weight(m: &PathTraceMaterial) -> f32 {
    val(m.transmission) * (1.0 - val(m.metallic))
}

fn sides(p: LightPath) -> Sides {
    Sides {
        n_dot_l: num(gl(p.n).dot(gl(p.wi))),
        n_dot_v: num(gl(p.n).dot(gl(p.wo))),
        p_trans: num(transmission_weight(&p.material)),
    }
}

fn share_through(p: LightPath) -> Crossing<Vec3> {
    let m = &p.material;
    let (n, wi, wo) = (gl(p.n), gl(p.wi), gl(p.wo));
    let alpha = (val(m.roughness) * val(m.roughness)).max(0.001);
    let eta = 1.0 / val(m.ior);
    let ht = -(eta * wi + wo).normalize();
    let n_dot_h = n.dot(ht).abs();
    let v_dot_h = wo.dot(ht).abs();
    let l_dot_h = wi.dot(ht).abs();
    let t_frac = glam::Vec3::ONE - fresnel_schlick(v_dot_h, f0(m));
    let d = ggx(n_dot_h, alpha);
    let g = smith(n.dot(wo).abs(), n.dot(wi).abs(), alpha);
    let denom = (eta * l_dot_h + v_dot_h).powi(2);
    let value = t_frac * gl(m.base_color) * d * g
        * (v_dot_h * l_dot_h / (n.dot(wo).abs() * denom).max(1e-20));
    Crossing { divisor: num(denom), value: lib(value) }
}

fn share_over(p: LightPath) -> Vec3 {
    let m = &p.material;
    let (n, wi, wo) = (gl(p.n), gl(p.wi), gl(p.wo));
    let h = (wi + wo).normalize();
    let n_dot_h = n.dot(h).max(0.0);
    let v_dot_h = wo.dot(h).max(0.0);
    let alpha = val(m.roughness) * val(m.roughness);
    let f = fresnel_schlick(v_dot_h, f0(m));
    let (n_dot_v, n_dot_l) = (n.dot(wo), n.dot(wi));
    let specular = f * ggx(n_dot_h, alpha) * smith(n_dot_v, n_dot_l, alpha)
        / (4.0 * n_dot_v * n_dot_l).max(1e-20);
    let k_d = (glam::Vec3::splat(1.0) - f)
        * (1.0 - val(m.metallic))
        * (1.0 - transmission_weight(m));
    lib(k_d * gl(m.base_color) / PI + specular)
}

fn density_through(p: LightPath) -> Crossing<Single> {
    let m = &p.material;
    let (n, wi, wo) = (gl(p.n), gl(p.wi), gl(p.wo));
    let alpha = (val(m.roughness) * val(m.roughness)).max(0.001);
    let eta = 1.0 / val(m.ior);
    let ht = -(eta * wi + wo).normalize();
    let n_dot_h = n.dot(ht).abs();
    let v_dot_h = wo.dot(ht).abs().max(1e-6);
    let l_dot_h = wi.dot(ht).abs().max(1e-6);
    let denom = (eta * l_dot_h + v_dot_h).powi(2);
    let pdf = ggx(n_dot_h, alpha) * n_dot_h * l_dot_h / denom;
    Crossing { divisor: num(denom), value: num(transmission_weight(m) * pdf) }
}

fn density_over(p: LightPath) -> Single {
    let m = &p.material;
    let (n, wi, wo) = (gl(p.n), gl(p.wi), gl(p.wo));
    let alpha = val(m.roughness) * val(m.roughness);
    let diffuse_pdf = n.dot(wi) / PI;
    let h = (wi + wo).normalize();
    let n_dot_h = n.dot(h).max(0.0);
    let v_dot_h = wo.dot(h).max(0.0).max(1e-6);
    let specular_pdf = ggx(n_dot_h, alpha) * n_dot_h / (4.0 * v_dot_h);
    let fresnel = fresnel_schlick(v_dot_h, f0(m));
    let raw = ((fresnel.x + fresnel.y + fresnel.z) / 3.0).clamp(0.0, 1.0);
    let raw = val(m.metallic).max(raw);
    let budget = 1.0 - transmission_weight(m);
    num(raw * budget * specular_pdf + (1.0 - raw) * budget * diffuse_pdf)
}

fn half_vector(s: &Scattering) -> glam::Vec3 {
    let n = gl(s.n);
    let (t, b) = basis(n);
    let rough = val(s.material.roughness);
    let alpha = (rough * rough).max(0.001);
    let (u1, u2) = (val(s.rng.u1), val(s.rng.u2));
    let phi = 2.0 * PI * u1;
    let cos_theta = ((1.0 - u2) / (u2 * (alpha * alpha - 1.0) + 1.0)).sqrt().clamp(0.0, 1.0);
    let sin_theta = (1.0 - cos_theta * cos_theta).sqrt();
    (t * (phi.cos() * sin_theta) + b * (phi.sin() * sin_theta) + n * cos_theta)
        .normalize_or_zero()
}

fn facet_fresnel(s: &Scattering) -> (glam::Vec3, f32) {
    let v_dot_h = gl(s.wo).dot(half_vector(s)).max(0.0);
    let f = fresnel_schlick(v_dot_h, f0(&s.material));
    (f, ((f.x + f.y + f.z) / 3.0).clamp(0.0, 1.0))
}

fn odds(s: Scattering) -> LobeOdds {
    let n_dot_v = gl(s.n).dot(gl(s.wo));
    let f = fresnel_schlick(n_dot_v, f0(&s.material));
    let raw = ((f.x + f.y + f.z) / 3.0).clamp(0.0, 1.0);
    let raw = val(s.material.metallic).max(raw);
    let p_trans = transmission_weight(&s.material);
    LobeOdds {
        n_dot_v: num(n_dot_v),
        p_trans: num(p_trans),
        p_trans_or_spec: num(p_trans + raw * (1.0 - p_trans)),
        reflect_share: num(facet_fresnel(&s).1),
    }
}

fn cosine_weighted(n: glam::Vec3, u1: f32, u2: f32) -> glam::Vec3 {
    let (t, b) = basis(n);
    let phi = 2.0 * PI * u1;
    let (cos_theta, sin_theta) = ((1.0 - u2).sqrt(), u2.sqrt());
    let local = at(sin_theta * phi.cos(), sin_theta * phi.sin(), cos_theta);
    (t * local.x + b * local.y + n * local.z).normalize()
}

fn aim(s: Scattering, lobe: Lobe) -> Aim {
    let (n, wo) = (gl(s.n), gl(s.wo));
    let (u1, u2) = (val(s.rng.u1), val(s.rng.u2));
    let mut turn = num(0.0);
    let wi = match lobe {
        Lobe::Diffuse => cosine_weighted(n, u1, u2),
        Lobe::Specular => {
            let (t, b) = basis(n);
            let rough = val(s.material.roughness);
            let alpha = rough * rough;
            let phi = 2.0 * PI * u1;
            let cos_theta =
                ((1.0 - u2) / (u2 * (alpha * alpha - 1.0) + 1.0)).sqrt().clamp(0.0, 1.0);
            let sin_theta = (1.0 - cos_theta * cos_theta).max(0.0).sqrt();
            let h = t * (sin_theta * phi.cos()) + b * (sin_theta * phi.sin()) + n * cos_theta;
            (2.0 * wo.dot(h) * h - wo).normalize()
        }
        Lobe::Reflection => {
            let h = half_vector(&s);
            2.0 * wo.dot(h).max(0.0) * h - wo
        }
        Lobe::Refraction => {
            let b = bend(s.wo, lib(half_vector(&s)), num(1.0 / val(s.material.ior)));
            turn = b.sin2_t;
            gl(b.direction)
        }
    };
    Aim { direction: lib(wi), cosine: num(n.dot(wi)), turn }
}

fn carry(share: Vec3, cosine: Single, pdf: Single) -> Vec3 {
    lib(gl(share) * val(cosine) / val(pdf))
}

fn clear(s: Scattering) -> Vec3 {
    let (f, average) = facet_fresnel(&s);
    let m = &s.material;
    lib(gl(m.base_color) * (glam::Vec3::ONE - f) * val(m.transmission)
        / (1.0 - average).max(1e-6))
}

fn scatter(
    m: &PathTraceMaterial,
    n: glam::Vec3,
    wo: glam::Vec3,
    r: [f32; 4],
) -> Option<BsdfSample> {
    let numbers = ScatterArithmetic {
        sides,
        share_through,
        share_over,
        density_through,
        density_over,
        odds,
        aim,
        carry,
        clear,
    };
    let rng = ScatterDraws { lobe: num(r[0]), u1: num(r[1]), u2: num(r[2]), split: num(r[3]) };
    sample_bsdf(m, lib(n), lib(wo), rng, &numbers)
}

fn material(
    base: glam::Vec3,
    metallic: f32,
    roughness: f32,
    transmission: f32,
) -> PathTraceMaterial {
    PathTraceMaterial {
        base_color: lib(base),
        metallic: num(metallic),
        roughness: num(roughness),
        ior: num(1.5),
        emissive: vec3(0.0, 0.0, 0.0),
        transmission: num(transmission),
        ao: num(1.0),
        texture_bindings: None,
    }
}

#[test]
fn ggx_d_normalisation_unit_alpha() {
    let d = ggx(1.0, 1.0);
    assert!((d - 1.0 / PI).abs() < 1e-5);
    assert_eq!(ggx(0.0, 0.5), 0.0);
    assert_eq!(ggx(-0.5, 0.5), 0.0);
}

#[test]
fn ggx_g_smith_in_unit_range() {
    let g = smith(0.5, 0.5, 0.5);
    assert!((0.0..=2.0).contains(&g));
    assert_eq!(smith(0.0, 0.0, 0.5), 0.0);
}

#[test]
fn tangent_basis_is_orthonormal() {
    let n = at(1.0, 2.0, 3.0).normalize();
    let (t, b) = basis(n);
    assert!(t.dot(n).abs() < 1e-5);
    assert!(b.dot(n).abs() < 1e-5);
    assert!(t.dot(b).abs() < 1e-5);
    assert!((t.length() - 1.0).abs() < 1e-4);
    assert!((b.length() - 1.0).abs() < 1e-4);
}

#[test]
fn tangent_basis_of_a_level_normal_is_finite() {
    for n in [at(1.0, 0.0, 0.0), at(0.0, 1.0, -0.0), at(0.0, 0.0, -1.0)] {
        let (t, b) = basis(n);
        assert!(t.is_finite() && b.is_finite(), "{n:?}: {t:?} {b:?}");
    }
}

#[test]
fn cosine_weighted_sample_is_in_hemisphere() {
    let n = glam::Vec3::Z;
    for _ in 0..100 {
        let s = cosine_weighted(n, fastrand::f32(), fastrand::f32());
        assert!(s.dot(n) >= -1e-4);
    }
}

#[test]
fn furnace_test_diffuse_energy_conserving() {
    let mat = material(glam::Vec3::ONE, 0.0, 1.0, 0.0);
    let n = glam::Vec3::Z;
    let wo = at(0.3, 0.0, 1.0).normalize();
    let n_samples = 4096;
    let mut sum = glam::Vec3::ZERO;
    for _ in 0..n_samples {
        let r = [fastrand::f32(), fastrand::f32(), fastrand::f32(), fastrand::f32()];
        if let Some(s) = scatter(&mat, n, wo, r) {
            sum += gl(s.weight);
        }
    }
    let avg = sum / n_samples as f32;
    assert!(avg.x > 0.6 && avg.x < 1.2, "average reflectance not energy-conserving: {avg:?}");
}

#[test]
fn bsdf_eval_is_zero_below_horizon() {
    let mat = PathTraceMaterial::default_grey();
    let n = glam::Vec3::Z;
    let wi = at(0.0, 0.0, -1.0);
    let wo = glam::Vec3::Z;
    let eval =
        eval_bsdf(&mat, lib(n), lib(wi), lib(wo), &sides, &share_through, &share_over);
    assert!(gl(eval) == glam::Vec3::ZERO);
    let pdf =
        pdf_bsdf(&mat, lib(n), lib(wi), lib(wo), &sides, &density_through, &density_over);
    assert_eq!(val(pdf), 0.0);
}

#[test]
fn light_straight_over_a_matt_surface_has_its_share() {
    let mat = material(glam::Vec3::ONE, 0.0, 1.0, 0.0);
    let z = lib(glam::Vec3::Z);
    let eval = gl(eval_bsdf(&mat, z, z, z, &sides, &share_through, &share_over));
    // (1 - 0.04) / pi + 0.04 / pi / 4.
    assert!((eval.x - (0.96 / PI + 0.01 / PI)).abs() < 1e-4, "{eval:?}");
    let pdf = val(pdf_bsdf(&mat, z, z, z, &sides, &density_through, &density_over));
    assert!((pdf - (0.04 * 0.25 / PI + 0.96 / PI)).abs() < 1e-4, "{pdf}");
}

#[test]
fn light_through_glass_has_a_share_from_behind() {
    let glass = material(glam::Vec3::ONE, 0.0, 0.5, 1.0);
    let (n, wo) = (lib(glam::Vec3::Z), lib(glam::Vec3::Z));
    let wi = lib(at(0.1, 0.0, -1.0).normalize());
    let through = gl(eval_bsdf(&glass, n, wi, wo, &sides, &share_through, &share_over));
    assert!(through.x > 0.0);
    let vanishing = |_: LightPath| Crossing { divisor: num(1e-21), value: vec3(9.0, 9.0, 9.0) };
    let none = gl(eval_bsdf(&glass, n, wi, wo, &sides, &vanishing, &share_over));
    assert_eq!(none, glam::Vec3::ZERO);
}

#[test]
fn a_surface_seen_from_behind_scatters_nothing() {
    let mat = PathTraceMaterial::default_grey();
    assert!(scatter(&mat, glam::Vec3::Z, -glam::Vec3::Z, [0.5; 4]).is_none());
}

#[test]
fn from_pbr_clamps_inputs() {
    let pbr = PbrMaterial {
        id: "x".to_string(),
        name: "x".to_string(),
        albedo: vec3(0.5, 0.5, 0.5),
        metallic: num(2.0),
        roughness: num(-0.5),
        ior: num(0.5),
        emissive: vec3(0.0, 0.0, 0.0),
        ao: num(1.5),
        transmission: num(-1.0),
        albedo_map: None,
        normal_map: None,
        metallic_roughness_map: None,
        ao_map: None,
        emissive_map: None,
        tags: vec![],
        style_tags: vec![],
        vendor_id: None,
    };
    let m = PathTraceMaterial::from_pbr(&pbr);
    assert_eq!(val(m.metallic), 1.0);
    assert_eq!(val(m.roughness), 0.0);
    assert!(val(m.ior) >= 1.0);
    assert_eq!(val(m.ao), 1.0);
    assert_eq!(val(m.transmission), 0.0);
    let none =
        MaterialTextureBindings { albedo: None, normal: None, metallic_roughness: None, emissive: None };
    assert_eq!(PathTraceMaterial::from_pbr_with_textures(&pbr, none), m);
    let some = MaterialTextureBindings { normal: Some(TextureId { index: 3 }), ..none };
    let bound = PathTraceMaterial::from_pbr_with_textures(&pbr, some);
    assert_eq!(bound.texture_bindings, Some(some));
}

/// A checker of two by two: the texel of the nearest corner, top row last.
fn checker(uv: Vec2) -> f32 {
    let column = usize::from(val(uv.x) >= 0.5);
    let row = usize::from(val(uv.y) < 0.5);
    [[0.0, 1.0], [1.0, 0.0]][row][column]
}

fn tint(_: TextureId, uv: Vec2, color: Vec3) -> Vec3 {
    lib(gl(color) * checker(uv))
}

fn rescale(_: TextureId, uv: Vec2, finish: Finish) -> Finish {
    Finish {
        roughness: num(val(finish.roughness) * (1.0 + checker(uv))),
        metallic: num(val(finish.metallic) - 1.0),
    }
}

fn uv(x: f32, y: f32) -> Vec2 {
    Vec2 { x: num(x), y: num(y) }
}

fn bound(slot: &str) -> Option<MaterialTextureBindings> {
    let id = Some(TextureId { index: 0 });
    Some(MaterialTextureBindings {
        albedo: if slot == "albedo" { id } else { None },
        normal: if slot == "normal" { id } else { None },
        metallic_roughness: if slot == "metallic_roughness" { id } else { None },
        emissive: if slot == "emissive" { id } else { None },
    })
}

#[test]
fn sample_textured_material_resolves_albedo() {
    let mut mat = PathTraceMaterial::default_grey();
    mat.base_color = lib(glam::Vec3::ONE);
    mat.texture_bindings = bound("albedo");
    let s = sample_textured_material(&mat, uv(0.25, 0.75), tint, rescale);
    assert!(
        gl(s.base_color).length_squared() < 1e-4,
        "expected ~black at (0.25, 0.75), got {:?}",
        s.base_color
    );
    assert_eq!(s.texture_bindings, None);
    let s = sample_textured_material(&mat, uv(0.75, 0.75), tint, rescale);
    let c = gl(s.base_color);
    assert!(
        c.x > 0.9 && c.y > 0.9 && c.z > 0.9,
        "expected ~white at (0.75, 0.75), got {c:?}"
    );
}

#[test]
fn sample_textured_material_with_no_bindings_is_identity() {
    let mat = PathTraceMaterial::default_grey();
    let s = sample_textured_material(&mat, uv(0.5, 0.5), tint, rescale);
    assert!(approx(gl(s.base_color), gl(mat.base_color), 1e-5));
    assert_eq!(s, mat);
}

#[test]
fn textures_hold_the_finish_to_its_range() {
    let mut mat = PathTraceMaterial::default_grey();
    mat.emissive = vec3(2.0, 2.0, 2.0);
    mat.texture_bindings = bound("metallic_roughness");
    let s = sample_textured_material(&mat, uv(0.75, 0.75), tint, rescale);
    assert_eq!(val(s.roughness), 1.0);
    assert_eq!(val(s.metallic), 0.0);
    assert_eq!(s.emissive, mat.emissive);
    mat.texture_bindings = bound("emissive");
    let s = sample_textured_material(&mat, uv(0.25, 0.75), tint, rescale);
    assert_eq!(gl(s.emissive), glam::Vec3::ZERO);
    assert_eq!(s.base_color, mat.base_color);
}

#[test]
fn a_normal_map_bends_the_normal_unless_it_comes_to_nothing() {
    let frame = TangentFrame {
        n: lib(glam::Vec3::Z),
        t: lib(glam::Vec3::X),
        b: lib(glam::Vec3::Y),
    };
    let sideways = |_: TextureId, _: Vec2, f: TangentFrame| Perturbed {
        direction: f.t,
        length_squared: num(1.0),
    };
    let nowhere = |_: TextureId, _: Vec2, f: TangentFrame| Perturbed {
        direction: f.t,
        length_squared: num(1e-7),
    };
    assert_eq!(sample_normal_map(bound("normal"), uv(0.0, 0.0), frame, sideways), frame.t);
    assert_eq!(sample_normal_map(bound("normal"), uv(0.0, 0.0), frame, nowhere), frame.n);
    assert_eq!(sample_normal_map(bound("albedo"), uv(0.0, 0.0), frame, sideways), frame.n);
    assert_eq!(sample_normal_map(None, uv(0.0, 0.0), frame, sideways), frame.n);
}

#[test]
fn refract_snell_returns_none_on_tir() {
    let n = glam::Vec3::Z;
    let wo = at(0.99, 0.0, 0.05).normalize();
    let result = refract_snell(lib(wo), lib(n), num(1.5), &bend);
    assert!(result.is_none(), "expected TIR, got {result:?}");
}

#[test]
fn refract_snell_normal_incidence_passes_through() {
    let n = glam::Vec3::Z;
    let wo = glam::Vec3::Z;
    let r = refract_snell(lib(wo), lib(n), num(1.0 / 1.5), &bend).expect("should refract");
    assert!(approx(gl(r), -glam::Vec3::Z, 1e-5), "got {r:?}");
}

#[test]
fn glass_sample_picks_transmission_majority_of_time() {
    let mat = material(glam::Vec3::ONE, 0.0, 0.0, 1.0);
    let n = glam::Vec3::Z;
    let wo = glam::Vec3::Z;
    let mut count_trans = 0;
    let trials = 200;
    for i in 0..trials {
        let r = [
            (i as f32 + 0.5) / trials as f32,
            fastrand::f32(),
            fastrand::f32(),
            fastrand::f32(),
        ];
        if let Some(s) = scatter(&mat, n, wo, r) {
            if s.is_transmission {
                count_trans += 1;
            }
        }
    }
    assert!(
        count_trans > (trials * 9) / 10,
        "expected >90% transmission samples for glass, got {count_trans}/{trials}"
    );
}

#[test]
fn glass_that_cannot_refract_reflects() {
    // Light inside of the denser medium, at a grazing angle.
    let mut mat = material(glam::Vec3::ONE, 0.0, 0.0, 1.0);
    mat.ior = num(0.5);
    let wo = at(0.9, 0.0, 0.43).normalize();
    let s = scatter(&mat, glam::Vec3::Z, wo, [0.0, 0.0, 0.0, 0.999_999]).expect("a reflection");
    assert!(!s.is_transmission);
    assert!(s.is_specular);
    assert!(approx(gl(s.direction), at(-wo.x, 0.0, wo.z), 1e-4));
}

#[test]
fn opaque_material_never_picks_transmission() {
    let mat = PathTraceMaterial::default_grey();
    let n = glam::Vec3::Z;
    let wo = glam::Vec3::Z;
    for i in 0..50 {
        let r = [fastrand::f32(), (i as f32 + 0.5) / 50.0, fastrand::f32(), fastrand::f32()];
        if let Some(s) = scatter(&mat, n, wo, r) {
            assert!(!s.is_transmission, "opaque material picked transmission");
        }
    }
}

#[test]
fn metal_never_picks_transmission_even_with_transmission_flag() {
    let mat = material(glam::Vec3::splat(0.8), 1.0, 0.2, 1.0);
    assert_eq!(transmission_weight(&mat), 0.0);
    let mut rng = fastrand::Rng::with_seed(5);
    for _ in 0..500 {
        let r = [rng.f32(), rng.f32(), rng.f32(), rng.f32()];
        if let Some(s) = scatter(&mat, glam::Vec3::Z, at(0.3, 0.0, 0.9).normalize(), r) {
            assert!(!s.is_transmission, "metal picked transmission");
        }
    }
}

// ---- tracing -----------------------------------------------------------

fn slabs(ray: Ray, b: Aabb) -> Slabs {
    let inverse = |x: Single| num(1.0 / val(x));
    let inv = at(
        val(safe_inverse(ray.dir.x, &inverse)),
        val(safe_inverse(ray.dir.y, &inverse)),
        val(safe_inverse(ray.dir.z, &inverse)),
    );
    let o = gl(ray.origin);
    Slabs { t0: lib((gl(b.min) - o) * inv), t1: lib((gl(b.max) - o) * inv) }
}

fn box_near(ray: Ray, b: Aabb) -> Option<Single> {
    ray_aabb_t(&ray, &b, &slabs).map(|stretch| stretch.0)
}

fn moeller_trumbore(t: ShadingTriangle, ray: Ray) -> TriangleTest {
    let edge1 = gl(t.v1) - gl(t.v0);
    let edge2 = gl(t.v2) - gl(t.v0);
    let d = gl(ray.dir);
    let h = d.cross(edge2);
    let a = edge1.dot(h);
    let f = 1.0 / a;
    let s = gl(ray.origin) - gl(t.v0);
    let u = f * s.dot(h);
    let q = s.cross(edge1);
    let v = f * d.dot(q);
    TriangleTest {
        a: num(a),
        u: num(u),
        v: num(v),
        u_plus_v: num(u + v),
        t: num(f * edge2.dot(q)),
    }
}

fn tri_hit(t: ShadingTriangle, ray: Ray) -> Option<Intersection> {
    t.intersect(&ray, &moeller_trumbore)
}

fn surface(s: Strike) -> Surface {
    let (u, v) = (val(s.hit.u), val(s.hit.v));
    let smooth =
        gl(s.shading.n0) * (1.0 - u - v) + gl(s.shading.n1) * u + gl(s.shading.n2) * v;
    let flat = (gl(s.triangle.v1) - gl(s.triangle.v0))
        .cross(gl(s.triangle.v2) - gl(s.triangle.v0))
        .normalize_or_zero();
    Surface {
        smooth: lib(smooth.normalize_or_zero()),
        smooth_length_squared: num(smooth.length_squared()),
        flat: lib(flat),
        position: lib(gl(s.ray.origin) + gl(s.ray.dir) * val(s.hit.t)),
        wo: lib(-gl(s.ray.dir)),
    }
}

fn dot(a: Vec3, b: Vec3) -> Single {
    num(gl(a).dot(gl(b)))
}

fn negate(a: Vec3) -> Vec3 {
    lib(-gl(a))
}

fn reach(light: &NativeLight, from: Vec3, u: LampDraws) -> LightReach {
    let mut r = LightReach {
        direction: vec3(0.0, 0.0, 0.0),
        distance: num(0.0),
        distance_squared: num(0.0),
        cos_at_light: num(0.0),
        cos_alpha: num(0.0),
        density: num(0.0),
        vertical_deg: num(0.0),
        horizontal_deg: num(0.0),
    };
    let from = gl(from);
    match light {
        NativeLight::Sun { direction, angular_radius_rad, .. } => {
            let cone = -gl(*direction);
            let cos_alpha = val(*angular_radius_rad).cos();
            let (t, b) = basis(cone);
            let cos_theta = 1.0 - val(u.u1) * (1.0 - cos_alpha);
            let sin_theta = (1.0 - cos_theta * cos_theta).max(0.0).sqrt();
            let phi = 2.0 * PI * val(u.u2);
            let dir = cone * cos_theta + (t * phi.cos() + b * phi.sin()) * sin_theta;
            r.direction = lib(dir.normalize());
            r.cos_alpha = num(cos_alpha);
            r.density = num(1.0 / (2.0 * PI * (1.0 - cos_alpha)));
        }
        NativeLight::Area { position, normal, u_axis, v_axis, width, height, .. } => {
            let point = gl(*position)
                + gl(*u_axis) * ((val(u.u1) - 0.5) * val(*width))
                + gl(*v_axis) * ((val(u.u2) - 0.5) * val(*height));
            let to_light = point - from;
            let dist_sq = to_light.length_squared().max(1e-12);
            let dir = to_light / dist_sq.sqrt();
            let cos = (-dir).dot(gl(*normal)).max(0.0);
            r.direction = lib(dir);
            r.distance = num(dist_sq.sqrt());
            r.cos_at_light = num(cos);
            r.density = num(dist_sq / (cos * (val(*width) * val(*height))));
        }
        NativeLight::Point { position, .. } | NativeLight::Ies { position, .. } => {
            let to_light = gl(*position) - from;
            let dist_sq = to_light.length_squared().max(1e-12);
            r.direction = lib(to_light / dist_sq.sqrt());
            r.distance = num(dist_sq.sqrt());
            r.distance_squared = num(dist_sq);
        }
    }
    r
}

fn fade(v: Vec3, distance_squared: Single) -> Vec3 {
    lib(gl(v) / val(distance_squared))
}

fn glow(color: Vec3, candela: Single, scale: Single) -> Vec3 {
    lib(gl(color) * (val(candela) * val(scale)))
}

fn plus1(a: Single, b: Single) -> Single {
    num(val(a) + val(b))
}

fn minus1(a: Single, b: Single) -> Single {
    num(val(a) - val(b))
}

fn wrap(a: Single) -> Single {
    num(val(a).rem_euclid(360.0))
}

fn ratio(a: Single, lower: Single, upper: Single) -> Single {
    num((val(a) - val(lower)) / (val(upper) - val(lower)).max(1e-9))
}

fn blend(b: Blend) -> Single {
    let (v_t, h_t) = (val(b.along), val(b.across));
    let c = b.corners;
    let c0 = val(c.c00) + (val(c.c01) - val(c.c00)) * v_t;
    let c1 = val(c.c10) + (val(c.c11) - val(c.c10)) * v_t;
    num((c0 + (c1 - c0) * h_t) * val(b.scale))
}

fn before(distance: Single) -> Single {
    num(val(distance) - 1e-3)
}

fn squares(a: Single, b: Single) -> Squares {
    let (a2, b2) = (val(a) * val(a), val(b) * val(b));
    Squares { sum: num(a2 + b2), quotient: num(a2 / (a2 + b2)) }
}

fn lamp_light(l: LampLight) -> Vec3 {
    lib(gl(l.throughput) * gl(l.share) * gl(l.emitted) * val(l.cos_at_surface) * val(l.weight)
        / val(l.pdf))
}

fn plus(a: Vec3, b: Vec3) -> Vec3 {
    lib(gl(a) + gl(b))
}

fn environment(sky: SkyParams, _: Vec3) -> Vec3 {
    lib(gl(sky.color) * val(sky.strength))
}

fn meeting(light: &NativeLight, ray: Ray) -> Meeting {
    let mut m = Meeting {
        cos_angle: num(0.0),
        cos_cone: num(0.0),
        slant: num(0.0),
        t: num(0.0),
        u: num(0.0),
        v: num(0.0),
        half_width: num(0.0),
        half_height: num(0.0),
    };
    match light {
        NativeLight::Sun { direction, angular_radius_rad, .. } => {
            let to_sun = -gl(*direction);
            m.cos_cone = num(val(*angular_radius_rad).cos());
            m.cos_angle =
                num(gl(ray.dir).normalize_or_zero().dot(to_sun.normalize_or_zero()));
        }
        NativeLight::Area { position, normal, u_axis, v_axis, width, height, .. } => {
            let denom = gl(*normal).dot(gl(ray.dir));
            let t = (gl(*position) - gl(ray.origin)).dot(gl(*normal)) / denom;
            let local = gl(ray.origin) + gl(ray.dir) * t - gl(*position);
            m.slant = num(denom);
            m.t = num(t);
            m.u = num(local.dot(gl(*u_axis)));
            m.v = num(local.dot(gl(*v_axis)));
            m.half_width = num(val(*width) * 0.5);
            m.half_height = num(val(*height) * 0.5);
        }
        _ => {}
    }
    m
}

fn gain(a: Vec3, b: Vec3, c: Vec3) -> Vec3 {
    lib(gl(a) + gl(b) * gl(c))
}

fn times(a: Vec3, b: Vec3) -> Vec3 {
    lib(gl(a) * gl(b))
}

fn over(a: Vec3, b: Single) -> Vec3 {
    lib(gl(a) / val(b))
}

fn metres(v: Vec3) -> Vec3 {
    lib(gl(v) * 0.001)
}

fn course(v: glam::Vec3) -> Course {
    let unit = v.normalize_or_zero();
    Course { unit: lib(unit), length_squared: num(unit.length_squared()) }
}

fn toward(a: Vec3, b: Vec3) -> Course {
    course(gl(b) - gl(a))
}

fn across(forward: Vec3) -> Course {
    course(gl(forward).cross(glam::Vec3::Y))
}

fn above(right: Vec3, forward: Vec3) -> Vec3 {
    lib(gl(right).cross(gl(forward)).normalize())
}

fn half(focal_mm: Single) -> Single {
    num((24.0 * 0.5) / val(focal_mm))
}

fn world(s: &Sight, dir_view: glam::Vec3) -> glam::Vec3 {
    let basis = glam::Mat3::from_cols(gl(s.view.right), gl(s.view.up), -gl(s.view.forward));
    basis * dir_view
}

fn flat_view(s: Sight) -> Vec3 {
    let half_h = val(s.half_height);
    let half_w = half_h * (s.width as f32 / s.height.max(1) as f32);
    let nx = (s.px as f32 + val(s.jx)) / s.width as f32 * 2.0 - 1.0;
    let ny = 1.0 - (s.py as f32 + val(s.jy)) / s.height as f32 * 2.0;
    lib(world(&s, at(nx * half_w, ny * half_h, -1.0).normalize()))
}

fn round_view(s: Sight) -> Vec3 {
    let u = (s.px as f32 + val(s.jx)) / s.width.max(1) as f32;
    let v = (s.py as f32 + val(s.jy)) / s.height.max(1) as f32;
    let phi = (u - 0.5) * TAU;
    let theta = v * PI;
    let sin_theta = theta.sin();
    let dir = at(sin_theta * phi.sin(), theta.cos(), -sin_theta * phi.cos());
    lib(world(&s, dir).normalize_or_zero())
}

/// What is to be traced.
enum Job {
    /// A whole picture, unless cancelled.
    Picture { cancelled: bool },
    /// One more pass over a tile.
    Pass { tile: Tile, samples: u32, seed: u64 },
    /// One path.
    Path { ray: Ray },
}

/// What came of it.
enum Traced {
    Picture(AccumulationBuffer),
    Pass(TilePassResult),
    Light(Vec3),
}

fn trace(
    scene: &PathTraceScene,
    camera: &RenderCamera,
    config: &PathTraceConfig,
    job: Job,
) -> Traced {
    let optics = Optics {
        box_near,
        tri_hit,
        surface,
        dot,
        negate,
        lamp: LampArithmetic {
            reach,
            fade,
            glow,
            angles: AngleArithmetic { minus: minus1, plus: plus1, wrap, ratio, blend },
        },
        before,
        scatter: ScatterArithmetic {
            sides,
            share_through,
            share_over,
            density_through,
            density_over,
            odds,
            aim,
            carry,
            clear,
        },
        squares,
        lamp_light,
        plus,
        environment,
        meeting,
        gain,
        times,
        over,
    };
    let views = ViewArithmetic { metres, toward, across, above };
    let lens = Lens::of(camera, &views, &half, flat_view, round_view);
    let rolls = |seed: u64| {
        let rng = RefCell::new(fastrand::Rng::with_seed(seed));
        move |_: PixelSample, _: Purpose| num(rng.borrow_mut().f32())
    };
    match job {
        Job::Picture { cancelled } => {
            let tiles = generate_tiles(config.width, config.height, config.tile_size);
            let chunks: Vec<Vec<Vec4>> = tiles
                .iter()
                .map(|tile| {
                    if cancelled {
                        return Vec::new();
                    }
                    let draw = rolls(tile.seed());
                    let count = |n: u32| num(n as f32);
                    optics.render_tile(scene, &lens, config, *tile, &draw, &count)
                })
                .collect();
            let add = |a: Vec4, b: Vec4| Vec4 {
                x: plus1(a.x, b.x),
                y: plus1(a.y, b.y),
                z: plus1(a.z, b.z),
                w: plus1(a.w, b.w),
            };
            Traced::Picture(assemble(
                config.width,
                config.height,
                config.tile_size,
                &chunks,
                &add,
            ))
        }
        Job::Pass { tile, samples, seed } => {
            let draw = rolls(seed);
            let update = |m: Moments, light: Vec3, n: u32| {
                let (mean, m2, light) = (gl(m.mean), gl(m.m2), gl(light));
                let delta = light - mean;
                let mean = mean + delta / n as f32;
                Moments { mean: lib(mean), m2: lib(m2 + delta * (light - mean)) }
            };
            let totals = |mean: Vec3, n: u32| {
                let sum = gl(mean) * n as f32;
                Vec4 { x: num(sum.x), y: num(sum.y), z: num(sum.z), w: num(n as f32) }
            };
            Traced::Pass(optics.render_tile_pass(
                scene, &lens, config, tile, samples, &draw, &update, &totals,
            ))
        }
        Job::Path { ray } => {
            let draw = rolls(1);
            let first = PixelSample { px: 0, py: 0, sample: 0 };
            Traced::Light(optics.trace_path(scene, ray, config, first, &draw))
        }
    }
}

fn picture(
    scene: &PathTraceScene,
    camera: &RenderCamera,
    config: &PathTraceConfig,
    cancelled: bool,
) -> AccumulationBuffer {
    match trace(scene, camera, config, Job::Picture { cancelled }) {
        Traced::Picture(buffer) => buffer,
        _ => unreachable!(),
    }
}

fn pass(
    scene: &PathTraceScene,
    camera: &RenderCamera,
    config: &PathTraceConfig,
    tile: Tile,
    samples: u32,
    seed: u64,
) -> TilePassResult {
    match trace(scene, camera, config, Job::Pass { tile, samples, seed }) {
        Traced::Pass(result) => result,
        _ => unreachable!(),
    }
}

fn average(p: Vec4) -> Vec3 {
    let n = val(p.w).max(1.0);
    vec3(val(p.x) / n, val(p.y) / n, val(p.z) / n)
}

fn averages(buffer: &AccumulationBuffer) -> Vec<[f32; 3]> {
    buffer.average_rgb(average).iter().map(|v| gl(*v).to_array()).collect()
}

fn product(m: Mat4, p: Vec3) -> Vec4 {
    let (x, y, z) = (val(p.x), val(p.y), val(p.z));
    let row = |r: Vec4| num(val(r.x) * x + val(r.y) * y + val(r.z) * z + val(r.w));
    Vec4 { x: row(m.row0), y: row(m.row1), z: row(m.row2), w: row(m.row3) }
}

fn place(m: Mat4, p: Vec3) -> Vec3 {
    transform_point(m, p, &product, &over)
}

fn turn(m: Mat4, n: Vec3) -> Vec3 {
    let upper = glam::Mat3::from_cols(
        at(val(m.row0.x), val(m.row1.x), val(m.row2.x)),
        at(val(m.row0.y), val(m.row1.y), val(m.row2.y)),
        at(val(m.row0.z), val(m.row1.z), val(m.row2.z)),
    );
    lib((upper.inverse().transpose() * gl(n)).normalize())
}

fn flat(v0: Vec3, v1: Vec3, v2: Vec3) -> Vec3 {
    lib((gl(v1) - gl(v0)).cross(gl(v2) - gl(v0)).normalize_or_zero())
}

fn centroid(t: BuilderTriangle) -> Vec3 {
    lib((gl(t.v0) + gl(t.v1) + gl(t.v2)) * (1.0 / 3.0))
}

fn minus3(a: Vec3, b: Vec3) -> Vec3 {
    lib(gl(a) - gl(b))
}

fn area(b: Aabb) -> Single {
    let e = gl(b.max) - gl(b.min);
    num(2.0 * (e.x * e.y + e.x * e.z + e.y * e.z))
}

fn bucket(bounds: Aabb, centroid: Vec3) -> usize {
    let axis = bounds.longest_axis(&minus3);
    let low = gl(bounds.min)[axis];
    let extent = (gl(bounds.max)[axis] - low).max(1e-20);
    (((gl(centroid)[axis] - low) / extent) * 12.0) as usize
}

fn cost(total: Aabb, c: SplitCandidate) -> Single {
    let parent = val(total.surface_area(&area)).max(1e-20);
    let left = val(c.left.surface_area(&area)) * c.left_count as f32;
    let right = val(c.right.surface_area(&area)) * c.right_count as f32;
    num(1.0 + (left + right) / parent)
}

fn sun_direction(azimuth: Single, elevation: Single) -> Vec3 {
    let az = val(azimuth).to_radians();
    let el = val(elevation).to_radians();
    lib(at(-el.cos() * az.cos(), -el.sin(), -el.cos() * az.sin()).normalize())
}

fn emission(_: Single, intensity: Single) -> Vec3 {
    lib(glam::Vec3::ONE * val(intensity))
}

fn compile(
    scene: &RenderScene,
    materials: Vec<PathTraceMaterial>,
    named: &str,
    sky: SkyParams,
) -> PathTraceScene {
    let numbers = SceneArithmetic {
        place,
        turn,
        flat,
        centroid_of: centroid,
        bucket_of: bucket,
        cost_of: cost,
        sun_direction,
        emission,
    };
    let lookup = |id: String| if id == named { Some(0) } else { None };
    PathTraceScene::from_render_scene(scene, materials, lookup, sky, numbers)
}

fn compile_with_library(scene: &RenderScene, library: &MaterialLibrary) -> PathTraceScene {
    let numbers = SceneArithmetic {
        place,
        turn,
        flat,
        centroid_of: centroid,
        bucket_of: bucket,
        cost_of: cost,
        sun_direction,
        emission,
    };
    build_path_trace_scene(scene, library, scene_sky(scene), &vec![], numbers)
}

fn row(x: f32, y: f32, z: f32, w: f32) -> Vec4 {
    Vec4 { x: num(x), y: num(y), z: num(z), w: num(w) }
}

fn shifted(x: f32, y: f32, z: f32) -> Mat4 {
    Mat4 {
        row0: row(1.0, 0.0, 0.0, x),
        row1: row(0.0, 1.0, 0.0, y),
        row2: row(0.0, 0.0, 1.0, z),
        row3: row(0.0, 0.0, 0.0, 1.0),
    }
}

fn quad(
    id: &str,
    corners: [[f32; 3]; 4],
    normal: [f32; 3],
    material_id: Option<&str>,
) -> SerializedMesh {
    SerializedMesh {
        id: id.to_string(),
        indices: vec![0, 1, 2, 0, 2, 3],
        positions: corners.iter().map(|p| lib(glam::Vec3::from_array(*p))).collect(),
        normals: vec![lib(glam::Vec3::from_array(normal)); 4],
        uvs: vec![uv(0.0, 0.0); 4],
        material_id: material_id.map(str::to_string),
        transform: shifted(0.0, 0.0, 0.0),
    }
}

fn floor(half: f32, material_id: Option<&str>) -> SerializedMesh {
    quad(
        "floor",
        [[-half, 0.0, -half], [half, 0.0, -half], [half, 0.0, half], [-half, 0.0, half]],
        [0.0, 1.0, 0.0],
        material_id,
    )
}

fn camera(position: [f32; 3], target: [f32; 3]) -> RenderCamera {
    RenderCamera {
        id: "c".to_string(),
        position_mm: lib(glam::Vec3::from_array(position)),
        target_mm: lib(glam::Vec3::from_array(target)),
        focal_length_mm: num(35.0),
        exposure_ev: num(0.0),
        white_balance_k: num(5500.0),
        aperture_f: num(4.0),
    }
}

fn sky(strength: f32, gray: f32) -> SkyParams {
    SkyParams { strength: num(strength), color: vec3(gray, gray, gray), turbidity: num(2.0) }
}

fn config(width: u32, height: u32, samples: u32, bounces: u32, tile: u32) -> PathTraceConfig {
    PathTraceConfig {
        width,
        height,
        samples_per_pixel: samples,
        max_bounces: bounces,
        tile_size: tile,
        russian_roulette_min_bounces: 3,
        adaptive_threshold: num(0.0),
        projection: CameraProjection::Perspective,
    }
}

fn cornell_box_scene() -> RenderScene {
    let mut scene = RenderScene::new();
    scene.push_mesh(floor(2.0, Some("floor")));
    scene.push_light(RenderLight::Point {
        position_mm: vec3(0.0, 2000.0, 0.0),
        intensity: num(50.0),
        color_temperature_k: num(5500.0),
    });
    scene
}

#[test]
fn accumulation_buffer_averages_correctly() {
    let mut buf = AccumulationBuffer::new(2, 2);
    buf.pixels[0] = row(1.0, 2.0, 3.0, 1.0);
    buf.pixels[1] = row(2.0, 2.0, 2.0, 2.0);
    let avg = averages(&buf);
    assert_eq!(avg[0], [1.0, 2.0, 3.0]);
    assert_eq!(avg[1], [1.0, 1.0, 1.0]);
}

#[test]
fn tile_generator_covers_full_image() {
    let tiles = generate_tiles(100, 80, 32);
    let mut area = 0u32;
    for t in &tiles {
        area += (t.x_end - t.x_start) * (t.y_end - t.y_start);
    }
    assert_eq!(area, 100 * 80);
}

#[test]
fn tile_generator_respects_image_bounds() {
    let tiles = generate_tiles(50, 50, 32);
    for t in &tiles {
        assert!(t.x_end <= 50);
        assert!(t.y_end <= 50);
        assert!(t.x_start < t.x_end);
        assert!(t.y_start < t.y_end);
    }
}

#[test]
fn empty_scene_returns_environment_radiance() {
    let scene = RenderScene::new();
    let camera = camera([0.0, 1500.0, 5000.0], [0.0, 1500.0, 0.0]);
    let pt = compile(&scene, vec![], "", sky(1.0, 0.5));
    let buf = picture(&pt, &camera, &config(8, 8, 4, 2, 8), false);
    for px in &averages(&buf) {
        assert!((px[0] - 0.5).abs() < 1e-3);
        assert!((px[1] - 0.5).abs() < 1e-3);
        assert!((px[2] - 0.5).abs() < 1e-3);
    }
}

#[test]
fn cornell_floor_lit_by_point_light_is_positive() {
    let scene = cornell_box_scene();
    let mut materials = vec![PathTraceMaterial::default_grey()];
    materials[0].base_color = vec3(0.8, 0.8, 0.8);
    let pt = compile(&scene, materials, "floor", sky(0.0, 0.0));
    let camera = camera([0.0, 1500.0, 4000.0], [0.0, 0.0, 0.0]);
    let buf = picture(&pt, &camera, &config(16, 16, 4, 2, 16), false);
    let max_lum = averages(&buf).iter().map(|p| p[0] + p[1] + p[2]).fold(0.0_f32, f32::max);
    assert!(max_lum > 0.0, "expected some lit pixels, got max {max_lum}");
}

#[test]
fn cancellation_short_circuits_render() {
    let scene = RenderScene::new();
    let pt = compile(&scene, vec![], "", sky(1.0, 0.1));
    let camera = camera([0.0, 0.0, 0.0], [0.0, 0.0, -1000.0]);
    let buf = picture(&pt, &camera, &config(16, 16, 1, 1, 8), true);
    for p in &buf.pixels {
        assert_eq!(p, &row(0.0, 0.0, 0.0, 0.0));
    }
}

#[test]
fn material_lookup_fallback_to_default_grey() {
    let scene = RenderScene::new();
    let pt = compile(&scene, vec![], "", sky(1.0, 0.5));
    let m = pt.material_for(99);
    assert_eq!(gl(m.base_color), glam::Vec3::splat(0.6));
}

#[test]
fn scene_builds_with_mesh_transform_applied() {
    let mut scene = RenderScene::new();
    let mut m = quad(
        "q",
        [[-1.0, -1.0, 0.0], [1.0, -1.0, 0.0], [1.0, 1.0, 0.0], [-1.0, 1.0, 0.0]],
        [0.0, 0.0, 1.0],
        None,
    );
    m.transform = shifted(10.0, 0.0, 0.0);
    scene.push_mesh(m);
    let pt = compile(&scene, vec![], "", sky(1.0, 0.5));
    let b = pt.bvh.root_bounds();
    assert!(val(b.min.x) > 8.0 && val(b.max.x) < 12.0);
}

#[test]
fn triangles_past_the_positions_are_left_out() {
    let mut scene = RenderScene::new();
    let mut m = floor(1.0, Some("floor"));
    m.indices = vec![0, 1, 2, 0, 2, 9, 3];
    m.normals = vec![];
    scene.push_mesh(m);
    let pt = compile(&scene, vec![PathTraceMaterial::default_grey()], "floor", sky(1.0, 0.5));
    assert_eq!(pt.triangles.len(), 1);
    assert_eq!(pt.material_ids, vec![0]);
    assert_eq!(gl(pt.shading_data[0].n0), glam::Vec3::NEG_Y);
}

#[test]
fn a_point_that_projects_to_infinity_stays_undivided() {
    let m = Mat4 { row3: row(0.0, 0.0, 0.0, 0.0), ..shifted(1.0, 2.0, 3.0) };
    assert_eq!(gl(place(m, vec3(1.0, 1.0, 1.0))), at(2.0, 3.0, 4.0));
    let m = Mat4 { row3: row(0.0, 0.0, 0.0, 2.0), ..shifted(1.0, 2.0, 3.0) };
    assert_eq!(gl(place(m, vec3(1.0, 2.0, 1.0))), at(1.0, 2.0, 2.0));
}

#[test]
fn a_light_of_its_own_is_seen_and_not_lit_twice() {
    let mut scene = RenderScene::new();
    scene.push_mesh(floor(2.0, Some("floor")));
    let mut glowing = PathTraceMaterial::default_grey();
    glowing.emissive = vec3(3.0, 2.0, 1.0);
    let pt = compile(&scene, vec![glowing], "floor", sky(0.0, 0.0));
    let down = Ray::new(vec3(0.3, 1.0, 0.2), vec3(0.0, -1.0, 0.0));
    let cam = camera([0.0, 0.0, 0.0], [0.0, 0.0, -1.0]);
    match trace(&pt, &cam, &config(1, 1, 1, 1, 1), Job::Path { ray: down }) {
        Traced::Light(v) => assert_eq!(gl(v), at(3.0, 2.0, 1.0)),
        _ => unreachable!(),
    }
    let up = Ray::new(vec3(0.3, 1.0, 0.2), vec3(0.0, 1.0, 0.0));
    match trace(&pt, &cam, &config(1, 1, 1, 1, 1), Job::Path { ray: up }) {
        Traced::Light(v) => assert_eq!(gl(v), glam::Vec3::ZERO),
        _ => unreachable!(),
    }
}

#[test]
fn a_wall_before_a_lamp_casts_a_shadow() {
    let mut scene = cornell_box_scene();
    let bare = compile(&scene, vec![PathTraceMaterial::default_grey()], "floor", sky(0.0, 0.0));
    let mut ceiling = floor(2.0, Some("floor"));
    ceiling.transform = shifted(0.0, 1.0, 0.0);
    scene.push_mesh(ceiling);
    let roofed = compile(&scene, vec![PathTraceMaterial::default_grey()], "floor", sky(0.0, 0.0));
    let ray = Ray::new(vec3(0.3, 0.5, 0.2), vec3(0.0, -1.0, 0.0));
    let cam = camera([0.0, 0.0, 0.0], [0.0, 0.0, -1.0]);
    let light = |scene: &PathTraceScene| match trace(
        scene,
        &cam,
        &config(1, 1, 1, 1, 1),
        Job::Path { ray },
    ) {
        Traced::Light(v) => gl(v),
        _ => unreachable!(),
    };
    assert!(light(&bare).x > 0.0);
    assert_eq!(light(&roofed), glam::Vec3::ZERO);
}

#[test]
fn a_pass_without_samples_is_dark() {
    let pt = compile(&RenderScene::new(), vec![], "", sky(1.0, 0.5));
    let camera = camera([0.0, 0.0, 0.0], [0.0, 0.0, -1000.0]);
    let tile = Tile { x_start: 0, y_start: 0, x_end: 2, y_end: 1 };
    let none = pass(&pt, &camera, &config(2, 1, 1, 1, 2), tile, 0, 7);
    assert_eq!(none.sums, vec![row(0.0, 0.0, 0.0, 0.0); 2]);
    let four = pass(&pt, &camera, &config(2, 1, 1, 1, 2), tile, 4, 7);
    assert_eq!(four.tile, tile);
    assert_eq!(four.sums, vec![row(2.0, 2.0, 2.0, 4.0); 2]);
    assert_eq!(four.sums_sq, vec![vec3(0.0, 0.0, 0.0); 2]);
}

#[test]
fn a_camera_that_looks_nowhere_looks_ahead() {
    let views = ViewArithmetic { metres, toward, across, above };
    let lens = Lens::of(&camera([5.0; 3], [5.0; 3]), &views, &half, flat_view, round_view);
    assert_eq!(gl(lens.view.forward), glam::Vec3::NEG_Z);
    assert_eq!(gl(lens.view.right), glam::Vec3::X);
    let up = Lens::of(
        &camera([0.0; 3], [0.0, 9.0, 0.0]),
        &views,
        &half,
        flat_view,
        round_view,
    );
    assert_eq!(gl(up.view.right), glam::Vec3::X);
    let mut close = camera([0.0; 3], [0.0, 0.0, -1.0]);
    close.focal_length_mm = num(0.5);
    let wide = Lens::of(&close, &views, &half, flat_view, round_view);
    assert_eq!(val(wide.half_height), 12.0);
    close.focal_length_mm = num(1.0e9);
    let narrow = Lens::of(&close, &views, &half, flat_view, round_view);
    assert_eq!(val(narrow.half_height), 1e-4);
}

#[test]
fn stock_settings_of_the_path_tracer() {
    let p = PathTraceConfig::preview();
    assert_eq!((p.width, p.height, p.samples_per_pixel, p.max_bounces), (640, 480, 16, 4));
    let f = PathTraceConfig::final_quality();
    assert_eq!((f.width, f.height, f.samples_per_pixel, f.max_bounces), (1920, 1080, 256, 8));
    assert_eq!(val(f.adaptive_threshold), 0.01);
    let r = PathTraceConfig::panorama();
    assert_eq!((r.width, r.height, r.samples_per_pixel, r.tile_size), (4096, 2048, 512, 128));
    assert_eq!(r.projection, CameraProjection::Equirectangular);
}

// ---- final renders -----------------------------------------------------

fn tiny_scene() -> RenderScene {
    let mut scene = RenderScene::new();
    scene.push_mesh(floor(1000.0, None));
    let mut cam = camera([0.0, 1500.0, 2500.0], [0.0, 0.0, 0.0]);
    cam.id = "cam0".to_string();
    scene.push_camera(cam);
    scene.push_light(RenderLight::SunSky {
        azimuth_deg: num(135.0),
        elevation_deg: num(45.0),
        intensity: num(2.0),
        color_temperature_k: num(5500.0),
    });
    scene
}

fn fast_preset() -> RenderPreset {
    let mut p = RenderPreset::quick();
    p.config.resolution_x = 32;
    p.config.resolution_y = 24;
    p.config.samples = 1;
    p.config.tile_size_px = 32;
    p.config.denoise = false;
    p
}

fn tone(v: f32) -> u8 {
    let v = v.max(0.0);
    let v = (v / (1.0 + v)).powf(1.0 / 2.2);
    (v * 255.0).round().clamp(0.0, 255.0) as u8
}

fn tone_color(v: Vec3) -> (u8, u8, u8) {
    (tone(val(v.x)), tone(val(v.y)), tone(val(v.z)))
}

fn tone_sums(p: Vec4) -> (u8, u8, u8) {
    tone_color(average(p))
}

fn gather(t: Tally, tap: Tap) -> Tally {
    let d = (tap.dx * tap.dx + tap.dy * tap.dy) as f32;
    let guided = match (tap.center.albedo, tap.sample.albedo) {
        (Some(a), Some(b)) => (gl(a) - gl(b)).length_squared() * 1000.0,
        _ => 0.0,
    };
    let w = (-(d + guided)).exp();
    Tally {
        sum: lib(gl(t.sum) + gl(tap.sample.color) * w),
        weight: num(val(t.weight) + w),
    }
}

fn differ(sum: Single, a: Vec3, b: Vec3) -> Single {
    num(val(sum) + (gl(a) - gl(b)).length_squared())
}

fn weigh(t: Tally, l: Likeness) -> Tally {
    let w = (-val(l.difference) * 0.01).exp();
    Tally { sum: lib(gl(t.sum) + gl(l.color) * w), weight: num(val(t.weight) + w) }
}

fn no_guides() -> Guides<'static> {
    Guides { normal: None, albedo: None }
}

fn bytes_of(buffer: &AccumulationBuffer, denoise: bool) -> Vec<u8> {
    let numbers = PictureArithmetic {
        average,
        tone_sums,
        tone_color,
        gather,
        differ,
        weigh,
        divide: over,
    };
    encode_srgb8(buffer, denoise, no_guides(), numbers)
}

#[test]
fn final_render_render_no_camera_errors() {
    let mut scene = tiny_scene();
    scene.cameras.clear();
    let err = FinalRenderPipeline::default_camera(&scene).unwrap_err();
    assert!(matches!(err, FinalRenderError::NoCamera));
    assert_eq!(err.message(), "scene has no cameras; cannot render final image");
    assert_eq!(FinalRenderPipeline::default_camera(&tiny_scene()).unwrap().id, "cam0");
}

#[test]
fn final_render_render_respects_cancel_token() {
    let scene = tiny_scene();
    let mut preset = fast_preset();
    preset.config.resolution_x = 256;
    preset.config.resolution_y = 256;
    preset.config.samples = 16;
    let config = path_trace_config_from_preset(&preset.config, CameraProjection::Perspective);
    let pt = compile_with_library(&scene, &FinalRenderPipeline::new().materials);
    let buffer = picture(&pt, &scene.cameras[0], &config, true);
    let path = "cancelled.png".to_string();
    let err =
        FinalRenderPipeline::conclude(&preset, path, buffer.width, buffer.height, 0, true)
            .unwrap_err();
    assert!(matches!(err, FinalRenderError::Cancelled));
    assert_eq!(err.message(), "render cancelled");
}

#[test]
fn render_with_explicit_camera_uses_that_camera() {
    let mut scene = tiny_scene();
    let mut custom = camera([500.0, 2000.0, -500.0], [0.0, 0.0, 0.0]);
    custom.id = "custom".to_string();
    custom.focal_length_mm = num(50.0);
    scene.push_camera(custom.clone());
    let preset = fast_preset();
    let config = path_trace_config_from_preset(&preset.config, CameraProjection::Perspective);
    let pt = compile_with_library(&scene, &FinalRenderPipeline::new().materials);
    let buffer = picture(&pt, &custom, &config, false);
    let path = "custom.png".to_string();
    let out =
        FinalRenderPipeline::conclude(&preset, path, buffer.width, buffer.height, 0, false)
            .unwrap();
    assert_eq!(out.width, 32);
    let first = picture(&pt, &scene.cameras[0], &config, false);
    assert_ne!(averages(&buffer), averages(&first));
}

#[test]
fn finished_render_tells_what_was_rendered() {
    let scene = tiny_scene();
    let preset = fast_preset();
    let config = path_trace_config_from_preset(&preset.config, CameraProjection::Perspective);
    let pt = compile_with_library(&scene, &FinalRenderPipeline::new().materials);
    let camera = FinalRenderPipeline::default_camera(&scene).unwrap();
    let buffer = picture(&pt, &camera, &config, false);
    let bytes = bytes_of(&buffer, false);
    assert_eq!(bytes.len(), 32 * 24 * 3);
    assert!(bytes.iter().any(|b| *b > 0));
    let path = "out.png".to_string();
    let out =
        FinalRenderPipeline::conclude(&preset, path, buffer.width, buffer.height, 5, false)
            .unwrap();
    assert_eq!((out.width, out.height, out.samples_per_pixel), (32, 24, 1));
    assert_eq!(out.elapsed_nanos, 5);
    assert_eq!(out.path, "out.png");
    assert!(!out.denoised);
}

#[test]
fn a_preset_without_samples_renders_one() {
    let mut preset = fast_preset();
    preset.config.samples = 0;
    let config = path_trace_config_from_preset(&preset.config, CameraProjection::Perspective);
    assert_eq!(config.samples_per_pixel, 1);
    let path = "out.png".to_string();
    let out = FinalRenderPipeline::conclude(&preset, path, 32, 24, 5, false).unwrap();
    assert_eq!(out.samples_per_pixel, 1);
}

#[test]
fn path_trace_config_from_preset_clamps_tile_size() {
    let mut cfg = RenderPreset::quick().config;
    cfg.tile_size_px = 4;
    let pt = path_trace_config_from_preset(&cfg, CameraProjection::Perspective);
    assert_eq!(pt.tile_size, 16);
    cfg.tile_size_px = 4096;
    let pt = path_trace_config_from_preset(&cfg, CameraProjection::Perspective);
    assert_eq!(pt.tile_size, 512);
}

fn grey_sky(width: u32, cells: usize) -> EnvironmentMap {
    EnvironmentMap {
        width,
        height: 1,
        pixels: vec![vec3(0.5, 0.5, 0.5); cells],
        intensity: num(1.0),
        marginal_cdf: vec![num(1.0)],
        conditional_cdf: (0..cells).map(|i| num((i + 1) as f32 / cells as f32)).collect(),
        row_integrals: vec![num(1.0)],
        total_integral: num(1.0),
    }
}

#[test]
fn pipeline_shares_environment_by_arc_not_by_value() {
    let scene = tiny_scene();
    let preset = fast_preset();
    let outer = Arc::new(grey_sky(2, 2));
    assert_eq!(Arc::strong_count(&outer), 1, "freshly-built Arc must have strong_count = 1");
    let pipeline = FinalRenderPipeline::new().with_environment_arc(Some(Arc::clone(&outer)));
    assert_eq!(
        Arc::strong_count(&outer),
        2,
        "pipeline must take a refcount, not deep-clone the map"
    );
    let config = path_trace_config_from_preset(&preset.config, CameraProjection::Perspective);
    for _ in 0..2 {
        let pt = compile_with_library(&scene, &pipeline.materials);
        let camera = FinalRenderPipeline::default_camera(&scene).unwrap();
        let buffer = picture(&pt, &camera, &config, false);
        assert_eq!(bytes_of(&buffer, preset.config.denoise).len(), 32 * 24 * 3);
    }
    assert_eq!(Arc::strong_count(&outer), 2, "render must not retain extra refs on the env Arc");
}

#[test]
fn an_owned_sky_is_shared_from_then_on() {
    let pipeline = FinalRenderPipeline::new().with_environment(Some(grey_sky(1, 1)));
    let map = pipeline.environment.as_ref().expect("a sky");
    assert_eq!(Arc::strong_count(map), 1);
    assert_eq!(map.pixels, vec![vec3(0.5, 0.5, 0.5)]);
    assert!(pipeline.with_environment(None).environment.is_none());
}

#[test]
fn library_materials_are_found_by_their_ids() {
    let mut scene = tiny_scene();
    let library = MaterialLibrary::with_default_pack();
    let id = library.iter()[2].id.clone();
    scene.meshes[0].material_id = Some(id.clone());
    let pt = compile_with_library(&scene, &library);
    assert_eq!(pt.material_ids, vec![2, 2]);
    assert_eq!(pt.materials.len(), library.len());
    assert_eq!(pt.material_for(0).base_color, library.get(&id).unwrap().albedo);
    scene.meshes[0].material_id = Some("no such material".to_string());
    assert_eq!(compile_with_library(&scene, &library).material_ids, vec![-1, -1]);
}

#[test]
fn quick_renders_are_denoised_by_non_local_means() {
    let mut quick = RenderPreset::quick();
    quick.config.denoise = true;
    assert_eq!(preset_denoiser(&quick.config), Some(Denoiser::Nlm));
    for mut preset in [RenderPreset::standard(), RenderPreset::high(), RenderPreset::studio()] {
        preset.config.denoise = true;
        assert_eq!(preset_denoiser(&preset.config), Some(Denoiser::Bilateral));
        preset.config.denoise = false;
        assert_eq!(preset_denoiser(&preset.config), None);
    }
}

#[test]
fn denoising_blends_neighbours_before_toning() {
    let mut buffer = AccumulationBuffer::new(2, 1);
    buffer.pixels[0] = row(0.0, 0.0, 0.0, 1.0);
    buffer.pixels[1] = row(4.0, 4.0, 4.0, 2.0);
    let plain = bytes_of(&buffer, false);
    assert_eq!(plain, vec![0, 0, 0, tone(2.0), tone(2.0), tone(2.0)]);
    let soft = bytes_of(&buffer, true);
    assert!(soft[0] > 0 && soft[3] < plain[3]);
    let numbers = PictureArithmetic {
        average,
        tone_sums,
        tone_color,
        gather,
        differ,
        weigh,
        divide: over,
    };
    let nlm = encode_srgb8_with_denoiser(&buffer, Some(Denoiser::Nlm), no_guides(), numbers);
    assert!(nlm != plain && nlm != soft);
    let albedo = ImageRgb::from_pixels(2, 1, vec![vec3(0.0, 0.0, 0.0), vec3(1.0, 1.0, 1.0)]);
    let numbers = PictureArithmetic {
        average,
        tone_sums,
        tone_color,
        gather,
        differ,
        weigh,
        divide: over,
    };
    let guides = Guides { normal: None, albedo: Some(&albedo) };
    let kept = encode_srgb8_with_denoiser(&buffer, Some(Denoiser::Bilateral), guides, numbers);
    assert_eq!(kept, plain);
}

// ---- panoramas ---------------------------------------------------------

fn panorama_scene() -> RenderScene {
    let mut scene = tiny_scene();
    scene.cameras[0] = camera([0.0, 1500.0, 0.0], [0.0, 1500.0, -1000.0]);
    scene
}

fn panorama_preset() -> RenderPreset {
    let mut p = RenderPreset::panorama();
    p.config.resolution_x = 64;
    p.config.resolution_y = 32;
    p.config.samples = 1;
    p.config.tile_size_px = 16;
    p.config.denoise = false;
    p
}

fn open_sky() -> PathTraceScene {
    let mut pt = compile(
        &RenderScene::new(),
        vec![PathTraceMaterial::default_grey()],
        "",
        SkyParams::default(),
    );
    pt.lights.clear();
    pt
}

fn panorama_config(width: u32, height: u32, samples: u32, tile: u32) -> PathTraceConfig {
    PathTraceConfig {
        projection: CameraProjection::Equirectangular,
        ..config(width, height, samples, 1, tile)
    }
}

#[test]
fn equirectangular_ray_generation_covers_full_sphere() {
    let mut scene = open_sky();
    scene.lights.push(NativeLight::Sun {
        direction: vec3(-1.0, 0.0, 0.0),
        radiance: lib(glam::Vec3::splat(50.0)),
        angular_radius_rad: num(0.26),
    });
    let camera = camera([0.0, 0.0, 0.0], [0.0, 0.0, -1000.0]);
    let config = panorama_config(16, 8, 1, 16);
    let tile = Tile { x_start: 0, y_start: 0, x_end: config.width, y_end: config.height };
    let result = pass(&scene, &camera, &config, tile, 4, 0xC0FFEE);
    assert_eq!(result.sums.len() as u32, config.width * config.height);
    for px in &result.sums {
        assert!(
            val(px.x) > 0.0 || val(px.y) > 0.0 || val(px.z) > 0.0,
            "expected sky radiance from equirectangular sample"
        );
    }
    let mut buffer = AccumulationBuffer::new(config.width, config.height);
    for (i, px) in result.sums.iter().enumerate() {
        buffer.pixels[i] = *px;
    }
    let avg = averages(&buffer);
    let mut mean = [0.0_f32; 3];
    for p in &avg {
        for (m, v) in mean.iter_mut().zip(p.iter()) {
            *m += *v;
        }
    }
    for m in &mut mean {
        *m /= avg.len() as f32;
    }
    let mut var_sum = 0.0_f32;
    for p in &avg {
        for (m, v) in mean.iter().zip(p.iter()) {
            let d = *v - *m;
            var_sum += d * d;
        }
    }
    assert!(var_sum > 0.0, "panorama must have non-zero variance when a sun is visible");
    // The sun stands to the right: in the right half of the picture alone.
    for y in 0..8 {
        for x in 0..8 {
            assert!(avg[y * 16 + x][0] < 1.0, "sun in the left half, at {x}, {y}");
        }
    }
}

#[test]
fn panorama_render_no_camera_errors() {
    let mut scene = panorama_scene();
    scene.cameras.clear();
    let err = PanoramaPipeline::default_camera(&scene).unwrap_err();
    assert!(matches!(err, PanoramaError::NoCamera));
    assert_eq!(err.message(), "scene has no cameras; cannot render panorama");
}

#[test]
fn panorama_render_respects_cancel_token() {
    let mut preset = panorama_preset();
    preset.config.resolution_x = 256;
    preset.config.samples = 4;
    let scene = panorama_scene();
    let config = PanoramaPipeline::config(&preset.config);
    let pt = compile_with_library(&scene, &PanoramaPipeline::new().materials);
    let buffer = picture(&pt, &scene.cameras[0], &config, true);
    let path = "c.png".to_string();
    let err = PanoramaPipeline::conclude(&preset, path, buffer.width, buffer.height, 0, true)
        .unwrap_err();
    assert!(matches!(err, PanoramaError::Cancelled));
    assert_eq!(err.message(), "panorama render cancelled");
}

#[test]
fn render_forces_two_to_one_aspect_even_when_preset_isnt() {
    let mut preset = panorama_preset();
    preset.config.resolution_x = 128;
    preset.config.resolution_y = 128;
    let scene = panorama_scene();
    let config = PanoramaPipeline::config(&preset.config);
    let pt = compile_with_library(&scene, &PanoramaPipeline::new().materials);
    let camera = PanoramaPipeline::default_camera(&scene).unwrap();
    let buffer = picture(&pt, &camera, &config, false);
    let path = "p.png".to_string();
    let out = PanoramaPipeline::conclude(&preset, path, buffer.width, buffer.height, 0, false)
        .unwrap();
    assert_eq!(out.width, 128);
    assert_eq!(out.height, 64);
}

#[test]
fn narrow_panoramas_are_two_pixels_wide() {
    let mut preset = panorama_preset();
    preset.config.resolution_x = 0;
    let config = PanoramaPipeline::config(&preset.config);
    assert_eq!((config.width, config.height), (2, 1));
}

#[test]
fn equirectangular_dir_test_via_two_distinct_pixels() {
    let mut scene = open_sky();
    scene.lights.push(NativeLight::Sun {
        direction: vec3(0.0, -1.0, 0.0),
        radiance: lib(glam::Vec3::splat(10.0)),
        angular_radius_rad: num(0.05),
    });
    let camera = camera([0.0, 0.0, 0.0], [0.0, 0.0, -1000.0]);
    let config = panorama_config(8, 4, 2, 8);
    let tile = Tile { x_start: 0, y_start: 0, x_end: 8, y_end: 4 };
    let result = pass(&scene, &camera, &config, tile, 2, 0xBEEF);
    let first = result.sums[0];
    let last = result.sums[result.sums.len() - 1];
    let differs = [(first.x, last.x), (first.y, last.y), (first.z, last.z)]
        .iter()
        .any(|(a, b)| (val(*a) - val(*b)).abs() > 1e-4);
    assert!(differs, "equirectangular pixels must vary across image");
}

// ---- previews ----------------------------------------------------------

fn cube_mesh() -> SerializedMesh {
    SerializedMesh {
        id: "cube".to_string(),
        positions: vec![
            vec3(-100.0, -100.0, -100.0),
            vec3(100.0, -100.0, -100.0),
            vec3(100.0, 100.0, -100.0),
            vec3(-100.0, 100.0, -100.0),
            vec3(-100.0, -100.0, 100.0),
            vec3(100.0, -100.0, 100.0),
            vec3(100.0, 100.0, 100.0),
            vec3(-100.0, 100.0, 100.0),
        ],
        normals: vec![vec3(0.0, 0.0, 1.0); 8],
        uvs: vec![uv(0.0, 0.0); 8],
        indices: vec![0, 1, 2, 0, 2, 3, 4, 5, 6, 4, 6, 7],
        material_id: Some("default".to_string()),
        transform: shifted(0.0, 0.0, 0.0),
    }
}

fn simple_scene() -> RenderScene {
    let mut scene = RenderScene::new();
    scene.push_mesh(cube_mesh());
    let mut cam = camera([500.0, -1000.0, 600.0], [0.0, 0.0, 0.0]);
    cam.white_balance_k = num(6500.0);
    cam.aperture_f = num(5.6);
    scene.push_camera(cam);
    scene.push_light(RenderLight::SunSky {
        azimuth_deg: num(0.0),
        elevation_deg: num(60.0),
        intensity: num(4.0),
        color_temperature_k: num(5500.0),
    });
    scene.ambient_strength = num(0.3);
    scene
}

fn hundredth(k: Single) -> Single {
    num(val(k) / 100.0)
}

fn of_255(x: Single) -> Single {
    num(val(x) / 255.0)
}

fn preview_curve(curve: Curve, t: Single) -> Single {
    let t = val(t);
    num(match curve {
        Curve::RedCool => 329.698_7 * (t - 60.0).powf(-0.133_205),
        Curve::GreenWarm => 99.470_8 * t.ln() - 161.119_6,
        Curve::GreenCool => 288.122_2 * (t - 60.0).powf(-0.075_515),
        Curve::BlueWarm => 138.517_7 * (t - 10.0).ln() - 305.044_8,
    })
}

fn preview_tint(k: f32) -> glam::Vec3 {
    gl(kelvin_to_rgb(num(k), &hundredth, &preview_curve, &of_255))
}

fn scaled(length: u32, scale: Single) -> u32 {
    ((length as f32) * val(scale)).round().max(1.0) as u32
}

fn in_metres(length: Single) -> Single {
    num(val(length) * 1.0e-3)
}

fn place_in_metres(m: Mat4, p: Vec3) -> Vec3 {
    let m = transform_to_mat4(m, &in_metres);
    place(m, metres(p))
}

fn ball(b: Aabb) -> Sphere {
    let center = (gl(b.min) + gl(b.max)) * 0.5;
    Sphere { center: lib(center), radius: num((gl(b.max) - center).length()) }
}

#[test]
fn resolution_scale_per_tier_is_monotonic() {
    let low = val(tier_resolution_scale(HardwareTier::Low));
    let med = val(tier_resolution_scale(HardwareTier::Medium));
    let high = val(tier_resolution_scale(HardwareTier::High));
    let pro = val(tier_resolution_scale(HardwareTier::Pro));
    assert!(low < med);
    assert!(med < high);
    assert!(high <= pro);
    assert!((low - 0.5).abs() < 1e-6);
    assert!((pro - 1.0).abs() < 1e-6);
}

#[test]
fn tile_size_per_tier_is_monotonic() {
    let low = tier_tile_size(HardwareTier::Low);
    let pro = tier_tile_size(HardwareTier::Pro);
    assert!(low < pro);
}

#[test]
fn kelvin_to_rgb_warm_is_red_dominant() {
    let warm = preview_tint(2700.0);
    let cool = preview_tint(10000.0);
    assert!(warm.x > warm.z, "warm: {:?}", warm);
    assert!(cool.z > cool.x, "cool: {:?}", cool);
}

#[test]
fn preview_tints_are_held_to_their_range() {
    assert_eq!(preview_tint(100.0), preview_tint(1000.0));
    assert_eq!(preview_tint(1900.0).z, 0.0);
    assert_eq!(preview_tint(6600.0).x, 1.0);
    assert_eq!(preview_tint(6600.0).z, 1.0);
    assert_eq!(preview_tint(90000.0), preview_tint(20000.0));
}

#[test]
fn pick_sky_state_uses_first_sun_sky() {
    let scene = simple_scene();
    let sky = pick_sky_state(&scene, clear_noon(), &hundredth, &preview_curve, &of_255);
    assert!((val(sky.sun_elevation_deg) - 60.0).abs() < 1e-6);
    assert!((val(sky.strength) - 4.0).abs() < 1e-6);
    assert_eq!(val(sky.turbidity), 2.5);
    assert_eq!(gl(sky.tint), preview_tint(5500.0));
}

fn clear_noon() -> SkyState {
    SkyState {
        sun_azimuth_deg: num(180.0),
        sun_elevation_deg: num(65.0),
        turbidity: num(2.0),
        strength: num(1.5),
        tint: lib(glam::Vec3::ONE),
    }
}

#[test]
fn pick_sky_state_fallback_when_no_sun() {
    let mut scene = simple_scene();
    scene.lights.clear();
    let sky = pick_sky_state(&scene, clear_noon(), &hundredth, &preview_curve, &of_255);
    assert!(val(sky.sun_elevation_deg) >= 0.0);
    assert!(val(sky.strength) > 0.0);
    assert_eq!(sky, clear_noon());
}

#[test]
fn scene_world_sphere_covers_cube() {
    let scene = simple_scene();
    let s = scene_world_sphere(&scene, place_in_metres, ball);
    assert!(val(s.radius) >= 1.0, "radius too small: {}", val(s.radius));
    assert!(val(s.center.x).abs() < 0.5);
    let none = scene_world_sphere(&RenderScene::new(), place_in_metres, ball);
    assert_eq!(val(none.radius), 10.0);
}

#[test]
fn transform_mm_translation_converts_to_metres() {
    let m = transform_to_mat4(shifted(1000.0, 2000.0, 3000.0), &in_metres);
    assert!((val(m.row0.w) - 1.0).abs() < 1e-6);
    assert!((val(m.row1.w) - 2.0).abs() < 1e-6);
    assert!((val(m.row2.w) - 3.0).abs() < 1e-6);
}

#[test]
fn pipeline_renders_or_drops_on_headless() {
    for gpu in [true, false] {
        let p = PreviewPipeline::new(HardwareTier::Medium, 640, 360, gpu, scaled);
        let scene = simple_scene();
        let out = p.render(&scene).expect("render should not error");
        if p.is_gpu_available() {
            assert!(!out.dropped, "GPU available -> should not drop");
            assert!(out.width > 0 && out.height > 0);
            assert!(!out.tiles.is_empty());
            assert_eq!((out.width, out.height), (480, 270));
            assert_eq!(out.tiles.len(), 6);
            let last = &out.tiles[5];
            assert_eq!((last.x, last.y, last.width, last.height), (384, 192, 96, 78));
        } else {
            assert!(out.dropped, "no GPU -> should drop");
            assert!(out.tiles.is_empty());
            assert_eq!((out.width, out.height), (640, 360));
        }
    }
}

#[test]
fn pipeline_render_rejects_empty_scene() {
    let p = PreviewPipeline::new(HardwareTier::Medium, 256, 256, true, scaled);
    let scene = RenderScene::new();
    match p.render(&scene) {
        Err(PreviewBuildError::EmptyScene) => {}
        other => panic!("expected EmptyScene, got {:?}", other),
    }
}

#[test]
fn pipeline_render_rejects_missing_camera() {
    let p = PreviewPipeline::new(HardwareTier::Medium, 256, 256, true, scaled);
    let mut scene = simple_scene();
    scene.cameras.clear();
    match p.render(&scene) {
        Err(PreviewBuildError::MissingCamera) => {}
        other => panic!("expected MissingCamera, got {:?}", other),
    }
    assert_eq!(PreviewBuildError::MissingCamera.message(), "scene has no camera");
    assert_eq!(PreviewBuildError::EmptyScene.message(), "scene has zero triangles");
}

#[test]
fn pipeline_resize_changes_render_dimensions() {
    let mut p = PreviewPipeline::new(HardwareTier::Low, 640, 360, true, scaled);
    let (w0, h0) = p.render_dimensions();
    p.resize(1280, 720, scaled);
    let (w1, h1) = p.render_dimensions();
    assert!(w1 > w0, "{} > {}", w1, w0);
    assert!(h1 > h0, "{} > {}", h1, h0);
    assert_eq!(w1, 640);
    assert_eq!(h1, 360);
    assert_eq!(p.logical_dimensions(), (1280, 720));
}

#[test]
fn material_override_applies_when_id_matches() {
    let mut p = PreviewPipeline::new(HardwareTier::High, 256, 256, true, scaled);
    let red = PreviewMaterial {
        base_color: vec3(1.0, 0.0, 0.0),
        metallic: num(0.0),
        roughness: num(0.3),
        ao: num(1.0),
        emissive_strength: num(0.0),
    };
    p.set_material_override("default".to_string(), red);
    assert!(p.material_overrides.contains_key("default"));
    assert_eq!(p.material_for(&cube_mesh()), red);
    let mut plain = cube_mesh();
    plain.material_id = Some("other".to_string());
    assert_eq!(p.material_for(&plain), PreviewMaterial::default());
}

#[test]
fn meshes_are_drawn_in_metres() {
    let mut p = PreviewPipeline::new(HardwareTier::High, 256, 256, true, scaled);
    p.set_material_override("default".to_string(), PreviewMaterial::default());
    let mut scene = simple_scene();
    scene.meshes[0].normals.truncate(1);
    scene.meshes[0].normals[0] = vec3(1.0, 0.0, 0.0);
    scene.meshes[0].uvs.clear();
    scene.meshes[0].transform = shifted(1000.0, 0.0, 0.0);
    let batches = p.batches(&scene, &metres, &in_metres);
    assert_eq!(batches.len(), 1);
    let b = &batches[0];
    assert_eq!(b.indices, scene.meshes[0].indices);
    assert!(approx(gl(b.vertices[1].position), at(0.1, -0.1, -0.1), 1e-6));
    assert_eq!(gl(b.vertices[0].normal), glam::Vec3::X);
    assert_eq!(gl(b.vertices[1].normal), glam::Vec3::Z);
    assert_eq!(b.vertices[1].uv, uv(0.0, 0.0));
    assert_eq!(val(b.transform.row0.w), 1.0);
}

#[test]
fn preview_camera_looks_from_the_first_camera() {
    let field_of_view =
        |focal: Single| num((2.0 * (24.0_f32 / (2.0 * val(focal))).atan()).to_degrees());
    let mut scene = simple_scene();
    let cam = pick_camera(&scene, num(1.5), &metres, &field_of_view).expect("a camera");
    assert!(approx(gl(cam.eye), at(0.5, -1.0, 0.6), 1e-6));
    assert_eq!(gl(cam.up), glam::Vec3::Z);
    assert!((val(cam.fov_y_deg) - 37.849).abs() < 1e-2, "{}", val(cam.fov_y_deg));
    assert_eq!((val(cam.aspect), val(cam.near), val(cam.far)), (1.5, 0.05, 2000.0));
    scene.cameras[0].focal_length_mm = num(0.0);
    let cam = pick_camera(&scene, num(0.0), &metres, &field_of_view).expect("a camera");
    assert_eq!(val(cam.aspect), 0.1);
    assert!(val(cam.fov_y_deg) < 180.0);
    scene.cameras.clear();
    assert!(pick_camera(&scene, num(1.0), &metres, &field_of_view).is_none());
}

// ---- the graphics adapter ----------------------------------------------

fn reflectance(m: PathTraceMaterial) -> Vec3 {
    lib(f0(&m))
}

fn unit(v: Vec3) -> Vec3 {
    lib(gl(v).normalize_or_zero())
}

fn buffers_of(scene: &PathTraceScene) -> GpuSceneBuffers {
    let angles = AngleArithmetic { minus: minus1, plus: plus1, wrap, ratio, blend };
    GpuSceneBuffers::build(scene, reflectance, &angles, unit, glow)
}

fn quad_scene() -> PathTraceScene {
    let mut scene = RenderScene::new();
    scene.push_mesh(floor(2.0, None));
    scene.push_light(RenderLight::Point {
        position_mm: vec3(0.0, 2000.0, 0.0),
        intensity: num(1500.0),
        color_temperature_k: num(5500.0),
    });
    compile(&scene, vec![], "", SkyParams::default())
}

fn aspect(width: u32, height: u32) -> Single {
    num(width as f32 / height as f32)
}

fn frame_of(cam: &RenderCamera) -> CameraFrame {
    build_camera_frame(cam, &ViewArithmetic { metres, toward, across, above }, &half)
}

#[test]
fn gpu_struct_sizes_match_wgsl_layout() {
    let scene = compile(&RenderScene::new(), vec![], "", SkyParams::default());
    let empty = buffers_of(&scene);
    assert_eq!(empty.node_words().len() * 4, 32);
    assert_eq!(empty.triangle_words().len() * 4, 48);
    assert_eq!(empty.material_words().len() * 4, 48);
    assert_eq!(empty.light_words().len() * 4, 96);
    let frame = frame_of(&camera([0.0; 3], [0.0, 0.0, -1.0]));
    let plan = plan_dispatch(&empty, &config(8, 6, 1, 1, 4), &frame, &aspect, false).unwrap();
    assert_eq!(plan.params.len() * 4, 128);
}

#[test]
fn scene_buffers_capture_geometry_and_lights() {
    let scene = quad_scene();
    let buffers = buffers_of(&scene);
    assert_eq!(buffers.triangle_count(), 2);
    assert!(buffers.bvh_node_count() >= 1);
    assert_eq!(buffers.light_count(), 1);
    for tri in &buffers.triangles {
        assert!(val(tri.v0.y).abs() < 1.0e-3, "floor y=0");
    }
}

#[test]
fn camera_frame_is_right_handed() {
    let mut cam = camera([0.0, 1500.0, 3000.0], [0.0, 0.0, 0.0]);
    cam.aperture_f = num(5.6);
    let frame = frame_of(&cam);
    let cross = gl(frame.right).cross(gl(frame.up)).normalize();
    assert!((cross.dot(gl(frame.forward)).abs() - 1.0).abs() < 0.05);
    assert!((val(frame.focal_half_h) - 12.0 / 35.0).abs() < 1e-6);
}

#[test]
fn tables_without_rows_hold_a_stub_that_is_not_counted() {
    let scene = compile(&RenderScene::new(), vec![], "", SkyParams::default());
    let buffers = buffers_of(&scene);
    let frame = frame_of(&camera([0.0; 3], [0.0, 0.0, -1.0]));
    let cfg = config(17, 6, 0, 0, 4);
    let plan = plan_dispatch(&buffers, &cfg, &frame, &aspect, false).unwrap();
    assert_eq!(plan.nodes, vec![0; 8]);
    assert_eq!(plan.triangles[11] as i32, -1);
    assert_eq!(f32::from_bits(plan.materials[0]), 0.5);
    assert_eq!(plan.lights[0], 1);
    // Width, height, samples and bounces, each 1 at least; then no triangle, no node,
    // no material, no light.
    assert_eq!(plan.params[0..8].to_vec(), vec![17, 6, 1, 1, 0, 0, 0, 0]);
    assert_eq!((plan.workgroups_x, plan.workgroups_y), (3, 1));
    assert_eq!(plan.accumulator_bytes, 17 * 6 * 16);
    assert!(plan_dispatch(&buffers, &cfg, &frame, &aspect, true).is_none());
}

#[test]
fn lights_are_laid_out_by_kind() {
    let angles = AngleArithmetic { minus: minus1, plus: plus1, wrap, ratio, blend };
    let sun = NativeLight::Sun {
        direction: vec3(0.0, -2.0, 0.0),
        radiance: vec3(1.0, 2.0, 3.0),
        angular_radius_rad: num(0.1),
    };
    let l = LightGpu::from_native(&sun, &angles, &unit, &glow);
    assert_eq!(l.kind, 0);
    assert_eq!(gl(l.position), glam::Vec3::NEG_Y);
    assert_eq!(val(l.params.x), 0.1);
    let panel = NativeLight::Area {
        position: vec3(1.0, 2.0, 3.0),
        normal: vec3(0.0, -1.0, 0.0),
        u_axis: vec3(1.0, 0.0, 0.0),
        v_axis: vec3(0.0, 0.0, 1.0),
        width: num(4.0),
        height: num(5.0),
        radiance: vec3(6.0, 7.0, 8.0),
    };
    let l = LightGpu::from_native(&panel, &angles, &unit, &glow);
    assert_eq!(l.kind, 2);
    assert_eq!(l.extra, row(0.0, 0.0, 1.0, 0.0));
    assert_eq!((val(l.size.x), val(l.size.y)), (4.0, 5.0));
    let profile = |peak: f32| IesProfile {
        source: String::new(),
        photometric_type: IesPhotometricType::C,
        lamp_count: 1,
        lumens_per_lamp: num(-1.0),
        candela_multiplier: num(1.0),
        vertical_angles: vec![num(0.0), num(90.0)],
        horizontal_angles: vec![num(0.0)],
        candela: vec![num(peak), num(0.0)],
    };
    let spot = |peak: f32| NativeLight::Ies {
        position: vec3(0.0, 3.0, 0.0),
        forward: vec3(0.0, -1.0, 0.0),
        up: vec3(0.0, 0.0, 1.0),
        profile: profile(peak),
        intensity_scale: num(2.0),
        color: vec3(1.0, 0.5, 0.0),
    };
    let l = LightGpu::from_native(&spot(100.0), &angles, &unit, &glow);
    assert_eq!(l.kind, 1);
    assert_eq!(gl(l.emission), at(200.0, 100.0, 0.0));
    let l = LightGpu::from_native(&spot(0.25), &angles, &unit, &glow);
    assert_eq!(gl(l.emission), at(2.0, 1.0, 0.0));
}

#[test]
fn light_that_comes_back_is_summed_up_again() {
    let floats: Vec<Single> =
        [1.0, 2.0, 3.0, 4.0, 5.0, 6.0, 7.0, 0.0].iter().map(|x| num(*x)).collect();
    let product = |a: Single, b: Single| num(val(a) * val(b));
    let buffer = collect_readback(2, 1, &floats, product);
    assert_eq!(buffer.pixels, vec![row(4.0, 8.0, 12.0, 4.0), row(5.0, 6.0, 7.0, 1.0)]);
}

#[test]
fn an_adapter_needs_eight_tables_to_a_stage() {
    assert_eq!(check_adapter(8), Ok(()));
    let err = check_adapter(7).unwrap_err();
    assert_eq!(err, GpuTraceError::NoAdapter);
    assert_eq!(err.message(), "could not request a wgpu adapter (headless / no GPU?)");
    let why = || "why".to_string();
    assert_eq!(GpuTraceError::DeviceRequest(why()).message(), "device request failed: why");
    assert_eq!(GpuTraceError::Shader(why()).message(), "shader compilation failed: why");
    assert_eq!(GpuTraceError::Scene(why()).message(), "scene buffer build failed: why");
    assert_eq!(storage_bytes(vec![]), vec![0; 16]);
    assert_eq!(storage_bytes(vec![7]), vec![7]);
}

#[test]
fn the_processor_renders_where_no_adapter_can() {
    assert_eq!(choose_tracer(true, true), Tracer::Gpu);
    assert_eq!(choose_tracer(false, true), Tracer::CpuWithGuides);
    assert_eq!(choose_tracer(false, false), Tracer::Cpu);
}

fn small_config() -> PathTraceConfig {
    PathTraceConfig { russian_roulette_min_bounces: 1, ..config(16, 12, 1, 1, 8) }
}

#[test]
fn render_or_fallback_returns_buffer_even_without_gpu() {
    let scene = quad_scene();
    let mut cam = camera([0.0, 1500.0, 3000.0], [0.0, 0.0, 0.0]);
    cam.aperture_f = num(5.6);
    assert_eq!(choose_tracer(false, false), Tracer::Cpu);
    let buf = picture(&scene, &cam, &small_config(), false);
    assert_eq!(buf.width, 16);
    assert_eq!(buf.height, 12);
    assert_eq!(buf.pixels.len(), 16 * 12);
}

#[test]
fn cancel_token_short_circuits_gpu_render() {
    let scene = quad_scene();
    let mut cam = camera([0.0, 1500.0, 3000.0], [0.0, 0.0, 0.0]);
    cam.aperture_f = num(5.6);
    let cfg = small_config();
    let plan = plan_dispatch(&buffers_of(&scene), &cfg, &frame_of(&cam), &aspect, true);
    assert!(plan.is_none());
    let buf = picture(&scene, &cam, &cfg, true);
    assert_eq!(buf.width, 16);
    assert_eq!(buf.height, 12);
}

#[test]
fn shader_source_compiles_via_naga() {
    validate_shader().expect("WGSL must validate");
}

#[test]
fn the_shader_has_the_entry_point_and_the_bindings() {
    assert!(SHADER_SOURCE.contains("fn cs_main("));
    assert!(SHADER_SOURCE.contains("@workgroup_size(8, 8, 1)"));
    for i in 0..6 {
        assert!(SHADER_SOURCE.contains(&format!("@binding({i})")));
    }
}

#[test]
fn the_first_complaint_about_a_shader_stands() {
    let said = |s: &str| Some(s.to_string());
    assert_eq!(shader_verdict(None, None), Ok(()));
    assert_eq!(shader_verdict(said("syntax"), None), Err("syntax".to_string()));
    assert_eq!(shader_verdict(None, said("types")), Err("types".to_string()));
    assert_eq!(shader_verdict(said("syntax"), said("types")), Err("syntax".to_string()));
}
