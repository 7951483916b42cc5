//! The material that the path tracer shades with, and which way light goes on from
//! a surface.
use vstd::prelude::*;

use crate::arithmetic;
use crate::geometry;
use crate::geometry::{Vec2, Vec3};
use crate::materials::material;
use crate::materials::material::PbrMaterial;
use crate::single::Single;

verus! {

/// A texture in the atlas.
#[derive(Clone, Copy, Debug, PartialEq, Eq, Structural)]
pub struct TextureId {
    pub index: u32,
}

/// The textures of a material, by slot.
#[derive(Clone, Copy, Debug, PartialEq, Eq, Structural)]
pub struct MaterialTextureBindings {
    pub albedo: Option<TextureId>,
    pub normal: Option<TextureId>,
    pub metallic_roughness: Option<TextureId>,
    pub emissive: Option<TextureId>,
}

impl MaterialTextureBindings {
    /// Whether any slot has a texture.
    pub open spec fn bound(self) -> bool {
        self.albedo is Some || self.normal is Some || self.metallic_roughness is Some
            || self.emissive is Some
    }
}

#[derive(Clone, Copy, Debug, PartialEq)]
pub struct PathTraceMaterial {
    pub base_color: Vec3,
    pub metallic: Single,
    /// From 0 to 1.
    pub roughness: Single,
    pub ior: Single,
    pub emissive: Vec3,
    pub transmission: Single,
    pub ao: Single,
    /// Nothing for a material without textures.
    pub texture_bindings: Option<MaterialTextureBindings>,
}

/// A number held to 0 to 1.
pub open spec fn unit_clamped(v: Single) -> Single {
    v.clamped(Single { bits: 0 }, Single { bits: 0x3f80_0000 })
}

fn clamp_unit(v: Single) -> (r: Single)
    ensures
        r == unit_clamped(v),
{
    v.clamp(Single::zero(), Single::one())
}

/// What the path tracer takes from a material: its fractions held to 0 to 1, its
/// refractive index to at least 1.
pub open spec fn flat_material(m: PbrMaterial) -> PathTraceMaterial {
    PathTraceMaterial {
        base_color: m.albedo,
        metallic: unit_clamped(m.metallic),
        roughness: unit_clamped(m.roughness),
        ior: m.ior.greatest(Single { bits: 0x3f80_0000 }),
        emissive: m.emissive,
        transmission: unit_clamped(m.transmission),
        ao: unit_clamped(m.ao),
        texture_bindings: None,
    }
}

/// Matt mid-grey, for what has no material.
pub open spec fn grey() -> PathTraceMaterial {
    PathTraceMaterial {
        base_color: material::grey(0x3f19_999a),  // 0.6
        metallic: Single { bits: 0 },
        roughness: Single { bits: 0x3f19_999a },  // 0.6
        ior: Single { bits: 0x3fb9_999a },  // 1.45
        emissive: material::grey(0),
        transmission: Single { bits: 0 },
        ao: Single { bits: 0x3f80_0000 },
        texture_bindings: None,
    }
}

impl PathTraceMaterial {
    pub fn from_pbr(m: &PbrMaterial) -> (r: PathTraceMaterial)
        ensures
            r == flat_material(*m),
    {
        PathTraceMaterial {
            base_color: m.albedo,
            metallic: clamp_unit(m.metallic),
            roughness: clamp_unit(m.roughness),
            ior: m.ior.max(Single::one()),
            emissive: m.emissive,
            transmission: clamp_unit(m.transmission),
            ao: clamp_unit(m.ao),
            texture_bindings: None,
        }
    }

    /// The material with textures; without any, it stays without.
    pub fn from_pbr_with_textures(
        m: &PbrMaterial,
        bindings: MaterialTextureBindings,
    ) -> (r: PathTraceMaterial)
        ensures
            r == (PathTraceMaterial {
                texture_bindings: if bindings.bound() {
                    Some(bindings)
                } else {
                    None
                },
                ..flat_material(*m)
            }),
    {
        let mut out: PathTraceMaterial = PathTraceMaterial::from_pbr(m);
        if bindings.albedo.is_some() || bindings.normal.is_some()
            || bindings.metallic_roughness.is_some() || bindings.emissive.is_some() {
            out.texture_bindings = Some(bindings);
        }
        out
    }

    /// Matt mid-grey, for what has no material.
    pub fn default_grey() -> (r: PathTraceMaterial)
        ensures
            r == grey(),
    {
        PathTraceMaterial {
            base_color: Vec3::splat(Single::from_bits(0x3f19_999a)),  // 0.6
            metallic: Single::zero(),
            roughness: Single::from_bits(0x3f19_999a),  // 0.6
            ior: Single::from_bits(0x3fb9_999a),  // 1.45
            emissive: Vec3::splat(Single::zero()),
            transmission: Single::zero(),
            ao: Single::one(),
            texture_bindings: None,
        }
    }
}

/// The roughness and the metallic part of a material, under a texture.
#[derive(Clone, Copy, Debug, PartialEq)]
pub struct Finish {
    pub roughness: Single,
    pub metallic: Single,
}

/// A material with its textures taken in: the albedo and emissive textures tint,
/// the third scales roughness and metallic part, held to 0 to 1.
pub open spec fn resolved<
    T: Fn(TextureId, Vec2, Vec3) -> Vec3,
    S: Fn(TextureId, Vec2, Finish) -> Finish,
>(
    m: PathTraceMaterial,
    uv: Vec2,
    tint: T,
    scale: S,
) -> PathTraceMaterial {
    match m.texture_bindings {
        None => m,
        Some(b) => {
            let finish = Finish { roughness: m.roughness, metallic: m.metallic };
            PathTraceMaterial {
                base_color: match b.albedo {
                    Some(t) => arithmetic::applied3(tint, t, uv, m.base_color),
                    None => m.base_color,
                },
                roughness: match b.metallic_roughness {
                    Some(t) => unit_clamped(arithmetic::applied3(scale, t, uv, finish).roughness),
                    None => m.roughness,
                },
                metallic: match b.metallic_roughness {
                    Some(t) => unit_clamped(arithmetic::applied3(scale, t, uv, finish).metallic),
                    None => m.metallic,
                },
                emissive: match b.emissive {
                    Some(t) => arithmetic::applied3(tint, t, uv, m.emissive),
                    None => m.emissive,
                },
                texture_bindings: None,
                ..m
            }
        },
    }
}

/// Takes the textures of a material in.
///
/// `tint` multiplies a color with the texel of a texture at a place, and `scale` a
/// roughness with its green and a metallic part with its blue.
pub fn sample_textured_material<
    T: Fn(TextureId, Vec2, Vec3) -> Vec3,
    S: Fn(TextureId, Vec2, Finish) -> Finish,
>(mat: &PathTraceMaterial, uv: Vec2, tint: T, scale: S) -> (r: PathTraceMaterial)
    requires
        arithmetic::steady3(tint),
        arithmetic::steady3(scale),
    ensures
        r == resolved(*mat, uv, tint, scale),
{
    match mat.texture_bindings {
        None => *mat,
        Some(bindings) => {
            let mut out: PathTraceMaterial = *mat;
            if let Some(t) = bindings.albedo {
                out.base_color = tint(t, uv, mat.base_color);
            }
            if let Some(t) = bindings.metallic_roughness {
                let finish: Finish = scale(
                    t,
                    uv,
                    Finish { roughness: mat.roughness, metallic: mat.metallic },
                );
                out.roughness = clamp_unit(finish.roughness);
                out.metallic = clamp_unit(finish.metallic);
            }
            if let Some(t) = bindings.emissive {
                out.emissive = tint(t, uv, mat.emissive);
            }
            out.texture_bindings = None;
            out
        },
    }
}

/// The normal that a normal map gives: a direction and its squared length.
#[derive(Clone, Copy, Debug, PartialEq)]
pub struct Perturbed {
    pub direction: Vec3,
    pub length_squared: Single,
}

/// A normal and two directions across it.
#[derive(Clone, Copy, Debug, PartialEq)]
pub struct TangentFrame {
    pub n: Vec3,
    pub t: Vec3,
    pub b: Vec3,
}

/// The shading normal: that of the normal map, where there is one and it has a
/// length (its square at least 0.000001), else the normal itself.
pub open spec fn mapped_normal<P: Fn(TextureId, Vec2, TangentFrame) -> Perturbed>(
    bindings: Option<MaterialTextureBindings>,
    uv: Vec2,
    frame: TangentFrame,
    bend: P,
) -> Vec3 {
    match bindings {
        Some(b) => match b.normal {
            Some(t) => {
                let p = arithmetic::applied3(bend, t, uv, frame);
                if p.length_squared.below(Single { bits: 0x3586_37bd }) {  // 1e-06
                    frame.n
                } else {
                    p.direction
                }
            },
            None => frame.n,
        },
        None => frame.n,
    }
}

/// The shading normal under a normal map.
///
/// `bend` gives the normal that a normal map makes of a normal and its tangents.
pub fn sample_normal_map<P: Fn(TextureId, Vec2, TangentFrame) -> Perturbed>(
    bindings: Option<MaterialTextureBindings>,
    uv: Vec2,
    frame: TangentFrame,
    bend: P,
) -> (r: Vec3)
    requires
        arithmetic::steady3(bend),
    ensures
        r == mapped_normal(bindings, uv, frame, bend),
{
    match bindings {
        Some(b) => match b.normal {
            Some(t) => {
                let p: Perturbed = bend(t, uv, frame);
                if p.length_squared.lt(Single::from_bits(0x3586_37bd)) {  // 1e-06
                    frame.n
                } else {
                    p.direction
                }
            },
            None => frame.n,
        },
        None => frame.n,
    }
}

/// The ways light can go on from a surface.
#[derive(Clone, Copy, Debug, PartialEq, Eq, Structural)]
pub enum Lobe {
    Diffuse,
    Specular,
    /// Reflection at a microfacet of a transparent surface.
    Reflection,
    /// Refraction through a microfacet.
    Refraction,
}

/// A direction that a lobe yields.
#[derive(Clone, Copy, Debug, PartialEq)]
pub struct Aim {
    pub direction: Vec3,
    /// Cosine of the angle to the normal.
    pub cosine: Single,
    /// Of a refraction, the square of the sine of the refracted angle. Above 1 there
    /// is no such angle.
    pub turn: Single,
}

#[derive(Clone, Copy, Debug, PartialEq)]
pub struct BsdfSample {
    pub direction: Vec3,
    /// What the light is multiplied with.
    pub weight: Vec3,
    pub pdf: Single,
    pub is_specular: bool,
    /// Whether the light goes on to the other side of the surface.
    pub is_transmission: bool,
}

/// Four independent draws for one scattering.
#[derive(Clone, Copy, Debug, PartialEq, Eq, Structural)]
pub struct ScatterDraws {
    /// Picks among transmission, specular and diffuse.
    pub lobe: Single,
    /// The two that a direction is made of.
    pub u1: Single,
    pub u2: Single,
    /// Picks between reflection and refraction.
    pub split: Single,
}

/// Light that meets a surface: what the surface is made of, its normal, the way to
/// the viewer, and the draws.
#[derive(Clone, Copy, Debug, PartialEq)]
pub struct Scattering {
    pub material: PathTraceMaterial,
    pub n: Vec3,
    pub wo: Vec3,
    pub rng: ScatterDraws,
}

impl Scattering {
    /// The path of light that goes on in a direction.
    pub open spec fn path(self, wi: Vec3) -> LightPath {
        LightPath { material: self.material, n: self.n, wi, wo: self.wo }
    }
}

/// The numbers that a lobe is picked by.
#[derive(Clone, Copy, Debug, PartialEq)]
pub struct LobeOdds {
    /// Cosine of the angle between the normal and the view.
    pub n_dot_v: Single,
    /// Probability of the transmission lobes.
    pub p_trans: Single,
    /// Probability of the transmission lobes or the specular lobe.
    pub p_trans_or_spec: Single,
    /// Probability that a microfacet of a transparent surface reflects.
    pub reflect_share: Single,
}

/// Whether a roughness counts as mirror-like: below 0.05.
pub open spec fn mirror_like(roughness: Single) -> bool {
    roughness.below(Single { bits: 0x3d4c_cccd })  // 0.05
}

/// Whether a number is positive or not a number.
pub open spec fn passes(v: Single) -> bool {
    !v.at_most(Single { bits: 0 })
}

/// The arithmetic of scattering.
pub struct ScatterArithmetic<Sd, Et, Eo, Pt, Po, Od, Ai, Ca, Cl> {
    /// On which sides of a surface light passes.
    pub sides: Sd,
    /// The share of light through a surface.
    pub share_through: Et,
    /// The share of light over a surface.
    pub share_over: Eo,
    /// The density of directions through a surface.
    pub density_through: Pt,
    /// The density of directions over a surface.
    pub density_over: Po,
    /// The numbers that a lobe is picked by.
    pub odds: Od,
    /// The direction that a lobe yields.
    pub aim: Ai,
    /// A share times a cosine, divided by a density.
    pub carry: Ca,
    /// What clear glass lets through.
    pub clear: Cl,
}

impl<
    Sd: Fn(LightPath) -> Sides,
    Et: Fn(LightPath) -> Crossing<Vec3>,
    Eo: Fn(LightPath) -> Vec3,
    Pt: Fn(LightPath) -> Crossing<Single>,
    Po: Fn(LightPath) -> Single,
    Od: Fn(Scattering) -> LobeOdds,
    Ai: Fn(Scattering, Lobe) -> Aim,
    Ca: Fn(Vec3, Single, Single) -> Vec3,
    Cl: Fn(Scattering) -> Vec3,
> ScatterArithmetic<Sd, Et, Eo, Pt, Po, Od, Ai, Ca, Cl> {
    /// Whether each part gives one result for one input.
    pub open spec fn is_steady(&self) -> bool {
        &&& arithmetic::steady(self.sides)
        &&& arithmetic::steady(self.share_through)
        &&& arithmetic::steady(self.share_over)
        &&& arithmetic::steady(self.density_through)
        &&& arithmetic::steady(self.density_over)
        &&& arithmetic::steady(self.odds)
        &&& arithmetic::steady2(self.aim)
        &&& arithmetic::steady3(self.carry)
        &&& arithmetic::steady(self.clear)
    }

    /// The share of the light from one direction that leaves in another.
    pub open spec fn share(&self, p: LightPath) -> Vec3 {
        amount(p, geometry::zeros(), self.sides, self.share_through, self.share_over)
    }

    /// The density with which scattering picks a direction.
    pub open spec fn density(&self, p: LightPath) -> Single {
        amount(p, Single { bits: 0 }, self.sides, self.density_through, self.density_over)
    }

    /// That density, at least 1e-12.
    pub open spec fn safe_density(&self, p: LightPath) -> Single {
        self.density(p).greatest(Single { bits: 0x2b8c_bccc })  // 1e-12
    }

    /// What light carries over a surface.
    pub open spec fn carried(&self, p: LightPath, cosine: Single, pdf: Single) -> Vec3 {
        arithmetic::applied3(
            self.carry,
            self.share(p),
            cosine.greatest(Single { bits: 0 }),
            pdf,
        )
    }

    /// Reflection at a microfacet, unless it goes into the surface.
    pub open spec fn reflected(&self, s: Scattering) -> Option<BsdfSample> {
        let a = arithmetic::applied2(self.aim, s, Lobe::Reflection);
        let p = s.path(a.direction);
        let pdf = self.safe_density(p);
        if passes(a.cosine) {
            Some(
                BsdfSample {
                    direction: a.direction,
                    weight: self.carried(p, a.cosine, pdf),
                    pdf,
                    is_specular: mirror_like(s.material.roughness),
                    is_transmission: false,
                },
            )
        } else {
            None
        }
    }

    /// Refraction through a microfacet, unless there is no angle for it. Clear glass
    /// lets a fixed part through; of rough glass the cosine counts without its sign,
    /// at least 0.000001.
    pub open spec fn refracted(&self, s: Scattering) -> Option<BsdfSample> {
        let a = arithmetic::applied2(self.aim, s, Lobe::Refraction);
        let p = s.path(a.direction);
        let pdf = self.safe_density(p);
        let mirror = mirror_like(s.material.roughness);
        if (Single { bits: 0x3f80_0000 }).below(a.turn) {
            None
        } else {
            Some(
                BsdfSample {
                    direction: a.direction,
                    weight: if mirror {
                        arithmetic::applied(self.clear, s)
                    } else {
                        arithmetic::applied3(
                            self.carry,
                            self.share(p),
                            (Single { bits: a.cosine.magnitude() as u32 }).greatest(
                                Single { bits: 0x3586_37bd },  // 1e-06
                            ),
                            pdf,
                        )
                    },
                    pdf,
                    is_specular: mirror,
                    is_transmission: true,
                },
            )
        }
    }

    /// Light in the specular or the diffuse lobe, unless the specular lobe leads into
    /// the surface or the direction has no density.
    pub open spec fn returned(&self, s: Scattering, specular: bool) -> Option<BsdfSample> {
        let lobe = if specular {
            Lobe::Specular
        } else {
            Lobe::Diffuse
        };
        let a = arithmetic::applied2(self.aim, s, lobe);
        let p = s.path(a.direction);
        let pdf = self.density(p);
        if specular && !passes(a.cosine) || !passes(pdf) {
            None
        } else {
            Some(
                BsdfSample {
                    direction: a.direction,
                    weight: self.carried(p, a.cosine, pdf),
                    pdf,
                    is_specular: specular && mirror_like(s.material.roughness),
                    is_transmission: false,
                },
            )
        }
    }

    /// How light goes on from a surface: not at all when seen from behind; by the first
    /// draw, through the surface, in the specular lobe or in the diffuse lobe. Through
    /// the surface, the last draw says whether the microfacet reflects; where it would
    /// refract but cannot, it reflects all the same.
    pub open spec fn scattered(&self, s: Scattering) -> Option<BsdfSample> {
        let odds = arithmetic::applied(self.odds, s);
        if !passes(odds.n_dot_v) {
            None
        } else if s.rng.lobe.below(odds.p_trans) {
            if s.rng.split.below(odds.reflect_share) {
                self.reflected(s)
            } else {
                match self.refracted(s) {
                    Some(b) => Some(b),
                    None => self.reflected(s),
                }
            }
        } else {
            self.returned(s, s.rng.lobe.below(odds.p_trans_or_spec))
        }
    }

    fn share_of(&self, s: &Scattering, wi: Vec3) -> (r: Vec3)
        requires
            self.is_steady(),
        ensures
            r == self.share(s.path(wi)),
    {
        eval_bsdf(
            &s.material,
            s.n,
            wi,
            s.wo,
            &self.sides,
            &self.share_through,
            &self.share_over,
        )
    }

    fn density_of(&self, s: &Scattering, wi: Vec3) -> (r: Single)
        requires
            self.is_steady(),
        ensures
            r == self.density(s.path(wi)),
    {
        pdf_bsdf(
            &s.material,
            s.n,
            wi,
            s.wo,
            &self.sides,
            &self.density_through,
            &self.density_over,
        )
    }

    fn reflect(&self, s: &Scattering) -> (r: Option<BsdfSample>)
        requires
            self.is_steady(),
        ensures
            r == self.reflected(*s),
    {
        let a: Aim = (self.aim)(*s, Lobe::Reflection);
        if a.cosine.le(Single::zero()) {
            return None;
        }
        let pdf: Single = self.density_of(s, a.direction).max(Single::from_bits(0x2b8c_bccc));
        let share: Vec3 = self.share_of(s, a.direction);
        let weight: Vec3 = (self.carry)(share, a.cosine.max(Single::zero()), pdf);
        Some(
            BsdfSample {
                direction: a.direction,
                weight,
                pdf,
                is_specular: s.material.roughness.lt(Single::from_bits(0x3d4c_cccd)),  // 0.05
                is_transmission: false,
            },
        )
    }

    fn refract(&self, s: &Scattering) -> (r: Option<BsdfSample>)
        requires
            self.is_steady(),
        ensures
            r == self.refracted(*s),
    {
        let a: Aim = (self.aim)(*s, Lobe::Refraction);
        if Single::one().lt(a.turn) {
            return None;
        }
        let mirror: bool = s.material.roughness.lt(Single::from_bits(0x3d4c_cccd));  // 0.05
        let pdf: Single = self.density_of(s, a.direction).max(Single::from_bits(0x2b8c_bccc));
        let weight: Vec3 = if mirror {
            (self.clear)(*s)
        } else {
            let share: Vec3 = self.share_of(s, a.direction);
            let cosine: Single = a.cosine.abs().max(Single::from_bits(0x3586_37bd));  // 1e-06
            (self.carry)(share, cosine, pdf)
        };
        Some(
            BsdfSample {
                direction: a.direction,
                weight,
                pdf,
                is_specular: mirror,
                is_transmission: true,
            },
        )
    }

    fn give_back(&self, s: &Scattering, specular: bool) -> (r: Option<BsdfSample>)
        requires
            self.is_steady(),
        ensures
            r == self.returned(*s, specular),
    {
        let lobe: Lobe = if specular {
            Lobe::Specular
        } else {
            Lobe::Diffuse
        };
        let a: Aim = (self.aim)(*s, lobe);
        if specular && a.cosine.le(Single::zero()) {
            return None;
        }
        let share: Vec3 = self.share_of(s, a.direction);
        let pdf: Single = self.density_of(s, a.direction);
        if pdf.le(Single::zero()) {
            return None;
        }
        let weight: Vec3 = (self.carry)(share, a.cosine.max(Single::zero()), pdf);
        Some(
            BsdfSample {
                direction: a.direction,
                weight,
                pdf,
                is_specular: specular && s.material.roughness.lt(Single::from_bits(0x3d4c_cccd)),
                is_transmission: false,
            },
        )
    }
}

/// Picks how light goes on from a surface.
pub fn sample_bsdf<
    Sd: Fn(LightPath) -> Sides,
    Et: Fn(LightPath) -> Crossing<Vec3>,
    Eo: Fn(LightPath) -> Vec3,
    Pt: Fn(LightPath) -> Crossing<Single>,
    Po: Fn(LightPath) -> Single,
    Od: Fn(Scattering) -> LobeOdds,
    Ai: Fn(Scattering, Lobe) -> Aim,
    Ca: Fn(Vec3, Single, Single) -> Vec3,
    Cl: Fn(Scattering) -> Vec3,
>(
    mat: &PathTraceMaterial,
    n: Vec3,
    wo: Vec3,
    rng: ScatterDraws,
    numbers: &ScatterArithmetic<Sd, Et, Eo, Pt, Po, Od, Ai, Ca, Cl>,
) -> (r: Option<BsdfSample>)
    requires
        numbers.is_steady(),
    ensures
        r == numbers.scattered(Scattering { material: *mat, n, wo, rng }),
{
    let s: Scattering = Scattering { material: *mat, n, wo, rng };
    let odds: LobeOdds = (numbers.odds)(s);
    if odds.n_dot_v.le(Single::zero()) {
        None
    } else if rng.lobe.lt(odds.p_trans) {
        if rng.split.lt(odds.reflect_share) {
            numbers.reflect(&s)
        } else {
            match numbers.refract(&s) {
                Some(b) => Some(b),
                None => numbers.reflect(&s),
            }
        }
    } else {
        numbers.give_back(&s, rng.lobe.lt(odds.p_trans_or_spec))
    }
}

/// A material that transmits with probability 0 never sends light through.
pub proof fn opaque_materials_do_not_transmit<
    Sd: Fn(LightPath) -> Sides,
    Et: Fn(LightPath) -> Crossing<Vec3>,
    Eo: Fn(LightPath) -> Vec3,
    Pt: Fn(LightPath) -> Crossing<Single>,
    Po: Fn(LightPath) -> Single,
    Od: Fn(Scattering) -> LobeOdds,
    Ai: Fn(Scattering, Lobe) -> Aim,
    Ca: Fn(Vec3, Single, Single) -> Vec3,
    Cl: Fn(Scattering) -> Vec3,
>(numbers: ScatterArithmetic<Sd, Et, Eo, Pt, Po, Od, Ai, Ca, Cl>, s: Scattering)
    requires
        arithmetic::applied(numbers.odds, s).p_trans.same(Single { bits: 0 }),
        (Single { bits: 0 }).at_most(s.rng.lobe),
    ensures
        numbers.scattered(s) matches Some(b) ==> !b.is_transmission,
{
}

/// A surface seen from behind scatters nothing.
pub proof fn back_of_a_surface_scatters_nothing<
    Sd: Fn(LightPath) -> Sides,
    Et: Fn(LightPath) -> Crossing<Vec3>,
    Eo: Fn(LightPath) -> Vec3,
    Pt: Fn(LightPath) -> Crossing<Single>,
    Po: Fn(LightPath) -> Single,
    Od: Fn(Scattering) -> LobeOdds,
    Ai: Fn(Scattering, Lobe) -> Aim,
    Ca: Fn(Vec3, Single, Single) -> Vec3,
    Cl: Fn(Scattering) -> Vec3,
>(numbers: ScatterArithmetic<Sd, Et, Eo, Pt, Po, Od, Ai, Ca, Cl>, s: Scattering)
    requires
        arithmetic::applied(numbers.odds, s).n_dot_v.at_most(Single { bits: 0 }),
    ensures
        numbers.scattered(s) is None,
{
}

// ---- the parts of a microfacet model ------------------------------------

/// How the normals of microfacets are spread: not at all toward a half vector below
/// the surface. `spread` is the density toward one above it.
pub fn ggx_d<F: Fn(Single, Single) -> Single>(n_dot_h: Single, alpha: Single, spread: &F) -> (r:
    Single)
    requires
        arithmetic::steady2(*spread),
    ensures
        r == if passes(n_dot_h) {
            arithmetic::applied2(*spread, n_dot_h, alpha)
        } else {
            Single { bits: 0 }
        },
        r == spread_toward(*spread, n_dot_h, alpha),
{
    if n_dot_h.le(Single::zero()) {
        Single::zero()
    } else {
        spread(n_dot_h, alpha)
    }
}

/// How much of a surface its microfacets leave in view: nothing where the divisor is
/// not positive.
pub fn ggx_g_smith<F: Fn(Single, Single, Single) -> Crossing<Single>>(
    n_dot_v: Single,
    n_dot_l: Single,
    alpha: Single,
    masking: &F,
) -> (r: Single)
    requires
        arithmetic::steady3(*masking),
    ensures
        ({
            let m = arithmetic::applied3(*masking, n_dot_v, n_dot_l, alpha);
            r == if passes(m.divisor) {
                m.value
            } else {
                Single { bits: 0 }
            }
        }),
        r == in_view(*masking, n_dot_v, n_dot_l, alpha),
{
    let m: Crossing<Single> = masking(n_dot_v, n_dot_l, alpha);
    if m.divisor.le(Single::zero()) {
        Single::zero()
    } else {
        m.value
    }
}

/// A refracted direction, and the square of the sine of its angle.
#[derive(Clone, Copy, Debug, PartialEq)]
pub struct Bend {
    pub sin2_t: Single,
    pub direction: Vec3,
}

/// The direction that light is refracted in; nothing where the square of the sine of
/// its angle would be above 1. `bend` is Snell's law, of the way to the viewer, the
/// normal and the ratio of the two media.
pub fn refract_snell<F: Fn(Vec3, Vec3, Single) -> Bend>(
    wo: Vec3,
    n: Vec3,
    eta: Single,
    bend: &F,
) -> (r: Option<Vec3>)
    requires
        arithmetic::steady3(*bend),
    ensures
        ({
            let b = arithmetic::applied3(*bend, wo, n, eta);
            r == if (Single { bits: 0x3f80_0000 }).below(b.sin2_t) {
                None::<Vec3>
            } else {
                Some(b.direction)
            }
        }),
        r == bent(*bend, wo, n, eta),
{
    let b: Bend = bend(wo, n, eta);
    if Single::one().lt(b.sin2_t) {
        None
    } else {
        Some(b.direction)
    }
}

/// Two directions along a surface, from its normal and from which way it points: 1
/// for up, a level normal among them, and -1 for down. Never 0, which no direction
/// comes of.
pub fn tangent_basis<F: Fn(Vec3, Single) -> (Vec3, Vec3)>(n: Vec3, frame: &F) -> (r: (Vec3, Vec3))
    requires
        arithmetic::steady2(*frame),
    ensures
        r == arithmetic::applied2(
            *frame,
            n,
            if (Single { bits: 0 }).at_most(n.z) {
                Single { bits: 0x3f80_0000 }
            } else {
                Single { bits: 0xbf80_0000 }
            },
        ),
        r == frame_on(*frame, n),
{
    let sign: Single = if Single::zero().le(n.z) {
        Single::one()
    } else {
        Single::from_bits(0xbf80_0000)
    };
    frame(n, sign)
}

// ---- what goes from one direction to another ---------------------------

/// Light that comes from one direction and leaves in another.
#[derive(Clone, Copy, Debug, PartialEq)]
pub struct LightPath {
    pub material: PathTraceMaterial,
    pub n: Vec3,
    /// From the surface toward the light.
    pub wi: Vec3,
    /// From the surface toward the viewer.
    pub wo: Vec3,
}

/// The numbers that say on which side of a surface light passes.
#[derive(Clone, Copy, Debug, PartialEq)]
pub struct Sides {
    pub n_dot_l: Single,
    pub n_dot_v: Single,
    /// Probability of the transmission lobes.
    pub p_trans: Single,
}

/// How light passes a surface.
#[derive(Clone, Copy, Debug, PartialEq, Eq, Structural)]
pub enum Passage {
    /// From behind, through the surface.
    Through,
    /// From the side of the viewer.
    Over,
    Nowhere,
}

/// How light passes a surface: through it where it transmits and the light is behind
/// it; over it where light and viewer are on its upper side.
pub open spec fn passage(s: Sides) -> Passage {
    let zero = Single { bits: 0 };
    if zero.below(s.p_trans) && s.n_dot_l.below(zero) && zero.below(s.n_dot_v) {
        Passage::Through
    } else if passes(s.n_dot_l) && passes(s.n_dot_v) {
        Passage::Over
    } else {
        Passage::Nowhere
    }
}

fn find_passage(s: Sides) -> (r: Passage)
    ensures
        r == passage(s),
{
    let zero: Single = Single::zero();
    if zero.lt(s.p_trans) && s.n_dot_l.lt(zero) && zero.lt(s.n_dot_v) {
        Passage::Through
    } else if s.n_dot_l.le(zero) || s.n_dot_v.le(zero) {
        Passage::Nowhere
    } else {
        Passage::Over
    }
}

/// What a passage through a surface amounts to, and the divisor in it.
#[derive(Debug, PartialEq)]
pub struct Crossing<V> {
    pub divisor: Single,
    pub value: V,
}

/// Whether a divisor is too small to divide by: below 1e-20.
pub open spec fn vanishing(divisor: Single) -> bool {
    divisor.below(Single { bits: 0x1e3c_e508 })  // 1e-20
}

/// What an amount for each passage comes to; `none` for no passage, and for one
/// through the surface whose divisor vanishes.
pub open spec fn amount<
    V,
    S: Fn(LightPath) -> Sides,
    T: Fn(LightPath) -> Crossing<V>,
    U: Fn(LightPath) -> V,
>(p: LightPath, none: V, sides: S, through: T, over: U) -> V {
    match passage(arithmetic::applied(sides, p)) {
        Passage::Through => {
            let c = arithmetic::applied(through, p);
            if vanishing(c.divisor) {
                none
            } else {
                c.value
            }
        },
        Passage::Over => arithmetic::applied(over, p),
        Passage::Nowhere => none,
    }
}

/// The share of the light from one direction that leaves in another.
pub fn eval_bsdf<
    S: Fn(LightPath) -> Sides,
    T: Fn(LightPath) -> Crossing<Vec3>,
    U: Fn(LightPath) -> Vec3,
>(
    mat: &PathTraceMaterial,
    n: Vec3,
    wi: Vec3,
    wo: Vec3,
    sides: &S,
    through: &T,
    over: &U,
) -> (r: Vec3)
    requires
        arithmetic::steady(*sides),
        arithmetic::steady(*through),
        arithmetic::steady(*over),
    ensures
        r == amount(
            LightPath { material: *mat, n, wi, wo },
            geometry::zeros(),
            *sides,
            *through,
            *over,
        ),
{
    let p: LightPath = LightPath { material: *mat, n, wi, wo };
    match find_passage(sides(p)) {
        Passage::Through => {
            let c: Crossing<Vec3> = through(p);
            if c.divisor.lt(Single::from_bits(0x1e3c_e508)) {  // 1e-20
                Vec3::splat(Single::zero())
            } else {
                c.value
            }
        },
        Passage::Over => over(p),
        Passage::Nowhere => Vec3::splat(Single::zero()),
    }
}

/// The density with which scattering picks a direction.
pub fn pdf_bsdf<
    S: Fn(LightPath) -> Sides,
    T: Fn(LightPath) -> Crossing<Single>,
    U: Fn(LightPath) -> Single,
>(
    mat: &PathTraceMaterial,
    n: Vec3,
    wi: Vec3,
    wo: Vec3,
    sides: &S,
    through: &T,
    over: &U,
) -> (r: Single)
    requires
        arithmetic::steady(*sides),
        arithmetic::steady(*through),
        arithmetic::steady(*over),
    ensures
        r == amount(
            LightPath { material: *mat, n, wi, wo },
            Single { bits: 0 },
            *sides,
            *through,
            *over,
        ),
{
    let p: LightPath = LightPath { material: *mat, n, wi, wo };
    match find_passage(sides(p)) {
        Passage::Through => {
            let c: Crossing<Single> = through(p);
            if c.divisor.lt(Single::from_bits(0x1e3c_e508)) {  // 1e-20
                Single::zero()
            } else {
                c.value
            }
        },
        Passage::Over => over(p),
        Passage::Nowhere => Single::zero(),
    }
}

/// Light from behind an opaque surface, and a viewer behind any, come to nothing:
/// neither a share nor a density.
pub proof fn light_from_behind_counts_for_nothing<
    V,
    S: Fn(LightPath) -> Sides,
    T: Fn(LightPath) -> Crossing<V>,
    U: Fn(LightPath) -> V,
>(p: LightPath, none: V, sides: S, through: T, over: U)
    requires
        ({
            let s = arithmetic::applied(sides, p);
            ||| s.n_dot_v.at_most(Single { bits: 0 })
            ||| s.n_dot_l.at_most(Single { bits: 0 }) && s.p_trans.at_most(Single { bits: 0 })
        }),
    ensures
        amount(p, none, sides, through, over) == none,
{
}

/// A material without textures is its own resolved form, and a resolved material
/// stays as it is.
pub proof fn resolving_is_idempotent<
    T: Fn(TextureId, Vec2, Vec3) -> Vec3,
    S: Fn(TextureId, Vec2, Finish) -> Finish,
>(m: PathTraceMaterial, uv: Vec2, tint: T, scale: S)
    ensures
        m.texture_bindings is None ==> resolved(m, uv, tint, scale) == m,
        resolved(resolved(m, uv, tint, scale), uv, tint, scale) == resolved(m, uv, tint, scale),
{
}

// ---- what a scattering must satisfy ------------------------------------

impl<
    Sd: Fn(LightPath) -> Sides,
    Et: Fn(LightPath) -> Crossing<Vec3>,
    Eo: Fn(LightPath) -> Vec3,
    Pt: Fn(LightPath) -> Crossing<Single>,
    Po: Fn(LightPath) -> Single,
    Od: Fn(Scattering) -> LobeOdds,
    Ai: Fn(Scattering, Lobe) -> Aim,
    Ca: Fn(Vec3, Single, Single) -> Vec3,
    Cl: Fn(Scattering) -> Vec3,
> ScatterArithmetic<Sd, Et, Eo, Pt, Po, Od, Ai, Ca, Cl> {
    /// Light goes on in the direction of the lobe that the draws pick: the first draw picks
    /// transmission below the one bound, the specular lobe below the other and the diffuse
    /// lobe past it. Of the transmission lobes the last draw picks reflection below its
    /// share, and refraction past it, unless there is no angle to refract in.
    pub proof fn light_goes_where_its_lobe_aims(&self, s: Scattering, b: BsdfSample)
        requires
            self.scattered(s) == Some(b),
        ensures
            ({
                let odds = arithmetic::applied(self.odds, s);
                let through = s.rng.lobe.below(odds.p_trans);
                let specular = !through && s.rng.lobe.below(odds.p_trans_or_spec);
                let mirrored = s.rng.split.below(odds.reflect_share);
                let refraction = arithmetic::applied2(self.aim, s, Lobe::Refraction);
                let turned_back = (Single { bits: 0x3f80_0000 }).below(refraction.turn);
                &&& specular ==> b.direction == arithmetic::applied2(
                    self.aim,
                    s,
                    Lobe::Specular,
                ).direction && !b.is_transmission
                &&& !through && !specular ==> b.direction == arithmetic::applied2(
                    self.aim,
                    s,
                    Lobe::Diffuse,
                ).direction && !b.is_transmission && !b.is_specular
                &&& through && (mirrored || turned_back) ==> b.direction == arithmetic::applied2(
                    self.aim,
                    s,
                    Lobe::Reflection,
                ).direction && !b.is_transmission
                &&& through && !mirrored && !turned_back ==> b.direction == refraction.direction
                    && b.is_transmission
                &&& b.is_specular ==> s.material.roughness.below(Single { bits: 0x3d4c_cccd })
                &&& (through || specular) && s.material.roughness.below(
                    Single { bits: 0x3d4c_cccd },
                ) ==> b.is_specular
            }),
    {
    }

    /// A mirror-like sample that goes on over the surface has the direction of the diffuse
    /// lobe only where another lobe leads there too.
    pub proof fn mirror_samples_are_not_diffuse(&self, s: Scattering, b: BsdfSample)
        requires
            self.scattered(s) == Some(b),
            b.is_specular,
            !b.is_transmission,
            b.direction == arithmetic::applied2(self.aim, s, Lobe::Diffuse).direction,
        ensures
            b.direction == arithmetic::applied2(self.aim, s, Lobe::Specular).direction
                || b.direction == arithmetic::applied2(self.aim, s, Lobe::Reflection).direction,
    {
    }

    /// The density of a sample is that with which its direction is picked, and what it
    /// carries is the share of light from that direction, times the cosine of the lobe's
    /// own direction, over that density. Through transmission lobes the density is at
    /// least 1e-12. Clear glass carries what it lets through.
    pub proof fn samples_carry_the_share_of_their_direction(&self, s: Scattering, b: BsdfSample)
        requires
            self.scattered(s) == Some(b),
        ensures
            ({
                let p = LightPath { material: s.material, n: s.n, wi: b.direction, wo: s.wo };
                let odds = arithmetic::applied(self.odds, s);
                let through = s.rng.lobe.below(odds.p_trans);
                let lobe = if b.is_transmission {
                    Lobe::Refraction
                } else if through {
                    Lobe::Reflection
                } else if s.rng.lobe.below(odds.p_trans_or_spec) {
                    Lobe::Specular
                } else {
                    Lobe::Diffuse
                };
                let cosine = arithmetic::applied2(self.aim, s, lobe).cosine;
                &&& !through ==> b.pdf == self.density(p)
                &&& through ==> b.pdf == self.density(p).greatest(Single { bits: 0x2b8c_bccc })
                &&& !b.is_transmission ==> b.weight == arithmetic::applied3(
                    self.carry,
                    self.share(p),
                    cosine.greatest(Single { bits: 0 }),
                    b.pdf,
                )
                &&& b.is_transmission && b.is_specular ==> b.weight == arithmetic::applied(
                    self.clear,
                    s,
                )
                &&& b.is_transmission && !b.is_specular ==> b.weight == arithmetic::applied3(
                    self.carry,
                    self.share(p),
                    (Single { bits: cosine.magnitude() as u32 }).greatest(
                        Single { bits: 0x3586_37bd },  // 1e-06
                    ),
                    b.pdf,
                )
            }),
    {
    }

    /// Light goes on from a surface unless the surface is seen from behind, the direction
    /// of its lobe leads into the surface, or, in the specular and the diffuse lobe, that
    /// direction is never picked.
    pub proof fn light_goes_on_unless_it_cannot(&self, s: Scattering)
        ensures
            ({
                let odds = arithmetic::applied(self.odds, s);
                let zero = Single { bits: 0 };
                let through = s.rng.lobe.below(odds.p_trans);
                let specular = s.rng.lobe.below(odds.p_trans_or_spec);
                let mirrored = s.rng.split.below(odds.reflect_share);
                let lobe = if specular {
                    Lobe::Specular
                } else {
                    Lobe::Diffuse
                };
                let a = arithmetic::applied2(self.aim, s, lobe);
                let p = LightPath { material: s.material, n: s.n, wi: a.direction, wo: s.wo };
                let refraction = arithmetic::applied2(self.aim, s, Lobe::Refraction);
                let reflection = arithmetic::applied2(self.aim, s, Lobe::Reflection);
                let turned_back = (Single { bits: 0x3f80_0000 }).below(refraction.turn);
                self.scattered(s) is None <==> {
                    ||| odds.n_dot_v.at_most(zero)
                    ||| through && (mirrored || turned_back) && reflection.cosine.at_most(zero)
                    ||| !through && specular && a.cosine.at_most(zero)
                    ||| !through && self.density(p).at_most(zero)
                }
            }),
    {
    }

    /// Seen from above, light from above counts by what passes over a surface, and light
    /// from behind a surface that transmits by what passes through it: the share of light
    /// and the density alike.
    pub proof fn each_side_of_a_surface_counts_its_own(&self, p: LightPath)
        ensures
            ({
                let zero = Single { bits: 0 };
                let s = arithmetic::applied(self.sides, p);
                &&& zero.below(s.n_dot_v) && zero.below(s.n_dot_l) ==> self.share(p)
                    == arithmetic::applied(self.share_over, p) && self.density(p)
                    == arithmetic::applied(self.density_over, p)
                &&& zero.below(s.n_dot_v) && s.n_dot_l.below(zero) && zero.below(s.p_trans) ==> {
                    let share = arithmetic::applied(self.share_through, p);
                    let density = arithmetic::applied(self.density_through, p);
                    &&& self.share(p) == if share.divisor.below(Single { bits: 0x1e3c_e508 }) {
                        geometry::zeros()
                    } else {
                        share.value
                    }
                    &&& self.density(p) == if density.divisor.below(
                        Single { bits: 0x1e3c_e508 },
                    ) {
                        zero
                    } else {
                        density.value
                    }
                }
                &&& s.n_dot_v.at_most(zero) || s.n_dot_l.at_most(zero) && s.p_trans.at_most(zero)
                    ==> self.share(p) == geometry::zeros() && self.density(p).bits == 0
            }),
    {
    }
}

/// What the path tracer takes from a material keeps what is in range and moves the rest to
/// the nearest end: fractions from 0 to 1, refraction from 1 on. Colors stay as they are.
pub proof fn materials_are_held_to_their_range(m: PbrMaterial)
    ensures
        flat_material(m).base_color == m.albedo,
        flat_material(m).emissive == m.emissive,
        flat_material(m).texture_bindings is None,
        forall|v: Single|
            (Single { bits: 0 }).at_most(v) && v.at_most(Single { bits: 0x3f80_0000 })
                ==> #[trigger] unit_clamped(v) == v,
        forall|v: Single|
            !v.nan() ==> (Single { bits: 0 }).at_most(#[trigger] unit_clamped(v)) && unit_clamped(
                v,
            ).at_most(Single { bits: 0x3f80_0000 }),
        forall|v: Single| v.below(Single { bits: 0 }) ==> #[trigger] unit_clamped(v).bits == 0,
        forall|v: Single|
            (Single { bits: 0x3f80_0000 }).below(v) ==> #[trigger] unit_clamped(v).bits
                == 0x3f80_0000,
        flat_material(m).metallic == unit_clamped(m.metallic),
        flat_material(m).roughness == unit_clamped(m.roughness),
        flat_material(m).transmission == unit_clamped(m.transmission),
        flat_material(m).ao == unit_clamped(m.ao),
        (Single { bits: 0x3f80_0000 }).at_most(flat_material(m).ior),
        (Single { bits: 0x3f80_0000 }).at_most(m.ior) ==> flat_material(m).ior == m.ior,
{
}

/// Each texture of a material works on its own slot: the albedo on the base color, the
/// emissive one on the light given off, the third on roughness and metallic part. A slot
/// without a texture, and all else, stays.
pub proof fn textures_work_on_their_own_slot<
    T: Fn(TextureId, Vec2, Vec3) -> Vec3,
    S: Fn(TextureId, Vec2, Finish) -> Finish,
>(m: PathTraceMaterial, b: MaterialTextureBindings, uv: Vec2, tint: T, scale: S)
    requires
        m.texture_bindings == Some(b),
    ensures
        ({
            let r = resolved(m, uv, tint, scale);
            let finish = Finish { roughness: m.roughness, metallic: m.metallic };
            &&& b.albedo is None ==> r.base_color == m.base_color
            &&& b.albedo matches Some(t) ==> r.base_color == arithmetic::applied3(
                tint,
                t,
                uv,
                m.base_color,
            )
            &&& b.emissive is None ==> r.emissive == m.emissive
            &&& b.emissive matches Some(t) ==> r.emissive == arithmetic::applied3(
                tint,
                t,
                uv,
                m.emissive,
            )
            &&& b.metallic_roughness is None ==> r.roughness == m.roughness && r.metallic
                == m.metallic
            &&& b.metallic_roughness matches Some(t) ==> r.roughness == arithmetic::applied3(
                scale,
                t,
                uv,
                finish,
            ).roughness.clamped(Single { bits: 0 }, Single { bits: 0x3f80_0000 }) && r.metallic
                == arithmetic::applied3(scale, t, uv, finish).metallic.clamped(
                Single { bits: 0 },
                Single { bits: 0x3f80_0000 },
            )
            &&& r.ior == m.ior && r.transmission == m.transmission && r.ao == m.ao
            &&& r.texture_bindings is None
        }),
{
}

/// A normal map bends the normal where it has a length to bend it with, and nothing else
/// does.
pub proof fn normals_bend_by_their_map<P: Fn(TextureId, Vec2, TangentFrame) -> Perturbed>(
    b: MaterialTextureBindings,
    uv: Vec2,
    frame: TangentFrame,
    bend: P,
)
    ensures
        mapped_normal(None, uv, frame, bend) == frame.n,
        b.normal is None ==> mapped_normal(Some(b), uv, frame, bend) == frame.n,
        b.normal matches Some(t) ==> {
            let p = arithmetic::applied3(bend, t, uv, frame);
            &&& p.length_squared.below(Single { bits: 0x3586_37bd }) ==> mapped_normal(
                Some(b),
                uv,
                frame,
                bend,
            ) == frame.n
            &&& (Single { bits: 0x3586_37bd }).at_most(p.length_squared) ==> mapped_normal(
                Some(b),
                uv,
                frame,
                bend,
            ) == p.direction
        },
{
}

// ---- the parts of a microfacet model, one by one ------------------------

/// How the normals of microfacets are spread toward a half vector.
pub open spec fn spread_toward<F: Fn(Single, Single) -> Single>(
    spread: F,
    n_dot_h: Single,
    alpha: Single,
) -> Single {
    if passes(n_dot_h) {
        arithmetic::applied2(spread, n_dot_h, alpha)
    } else {
        Single { bits: 0 }
    }
}

/// How much of a surface its microfacets leave in view.
pub open spec fn in_view<F: Fn(Single, Single, Single) -> Crossing<Single>>(
    masking: F,
    n_dot_v: Single,
    n_dot_l: Single,
    alpha: Single,
) -> Single {
    let m = arithmetic::applied3(masking, n_dot_v, n_dot_l, alpha);
    if passes(m.divisor) {
        m.value
    } else {
        Single { bits: 0 }
    }
}

/// The direction that light is refracted in.
pub open spec fn bent<F: Fn(Vec3, Vec3, Single) -> Bend>(
    bend: F,
    wo: Vec3,
    n: Vec3,
    eta: Single,
) -> Option<Vec3> {
    let b = arithmetic::applied3(bend, wo, n, eta);
    if (Single { bits: 0x3f80_0000 }).below(b.sin2_t) {
        None
    } else {
        Some(b.direction)
    }
}

/// Two directions along a surface.
pub open spec fn frame_on<F: Fn(Vec3, Single) -> (Vec3, Vec3)>(frame: F, n: Vec3) -> (Vec3, Vec3) {
    arithmetic::applied2(
        frame,
        n,
        if (Single { bits: 0 }).at_most(n.z) {
            Single { bits: 0x3f80_0000 }
        } else {
            Single { bits: 0xbf80_0000 }
        },
    )
}

/// No microfacet faces a half vector at or below the surface, however rough it is, and one
/// above it is faced as densely as `spread` says: with a spread that is positive, exactly
/// the half vectors above are faced.
pub proof fn facets_face_what_is_above<F: Fn(Single, Single) -> Single>(
    spread: F,
    n_dot_h: Single,
    alpha: Single,
)
    requires
        (Single { bits: 0 }).below(arithmetic::applied2(spread, n_dot_h, alpha)),
        !n_dot_h.nan(),
    ensures
        (Single { bits: 0 }).below(spread_toward(spread, n_dot_h, alpha)) <==> (Single {
            bits: 0,
        }).below(n_dot_h),
        (Single { bits: 0 }).at_most(spread_toward(spread, n_dot_h, alpha)),
        spread_toward(spread, n_dot_h, alpha).at_most(
            arithmetic::applied2(spread, n_dot_h, alpha),
        ),
        (Single { bits: 0 }).below(n_dot_h) ==> arithmetic::applied2(spread, n_dot_h, alpha)
            .at_most(spread_toward(spread, n_dot_h, alpha)),
{
}

/// Nothing is in view where the divisor is not positive; elsewhere what is in view is what
/// the division gives, whatever the divisor.
pub proof fn masked_surfaces_are_not_in_view<F: Fn(Single, Single, Single) -> Crossing<Single>>(
    masking: F,
    v: Single,
    l: Single,
    alpha: Single,
    v2: Single,
    l2: Single,
    alpha2: Single,
)
    ensures
        arithmetic::applied3(masking, v, l, alpha).divisor.at_most(Single { bits: 0 }) ==> in_view(
            masking,
            v,
            l,
            alpha,
        ).bits == 0,
        (Single { bits: 0 }).below(arithmetic::applied3(masking, v, l, alpha).divisor) && (Single {
            bits: 0,
        }).below(arithmetic::applied3(masking, v2, l2, alpha2).divisor) ==> (in_view(
            masking,
            v,
            l,
            alpha,
        ) == in_view(masking, v2, l2, alpha2) <==> arithmetic::applied3(masking, v, l, alpha).value
            == arithmetic::applied3(masking, v2, l2, alpha2).value),
        (Single { bits: 0 }).below(arithmetic::applied3(masking, v, l, alpha).divisor) ==> in_view(
            masking,
            v,
            l,
            alpha,
        ) == arithmetic::applied3(masking, v, l, alpha).value,
{
}

/// Light is refracted exactly where the square of the sine of its angle is at most one, and
/// where it is, it goes where Snell's law leads it.
pub proof fn light_bends_as_far_as_a_sine_goes<F: Fn(Vec3, Vec3, Single) -> Bend>(
    bend: F,
    wo: Vec3,
    n: Vec3,
    eta: Single,
)
    requires
        !arithmetic::applied3(bend, wo, n, eta).sin2_t.nan(),
    ensures
        bent(bend, wo, n, eta) is Some <==> arithmetic::applied3(bend, wo, n, eta).sin2_t.at_most(
            Single { bits: 0x3f80_0000 },
        ),
        bent(bend, wo, n, eta) matches Some(d) ==> d == arithmetic::applied3(
            bend,
            wo,
            n,
            eta,
        ).direction,
{
}

/// The frame on a surface knows on which side of level its normal is: two frames with one
/// normal are one, and a frame that hands back the side it is told gives 1 for a normal
/// that is level or points up and -1 for one that points down, never 0.
pub proof fn frames_know_up_from_down<F: Fn(Vec3, Single) -> (Vec3, Vec3)>(frame: F, n: Vec3)
    requires
        !n.z.nan(),
        forall|side: Single| #[trigger]
            arithmetic::applied2(frame, n, side) == (Vec3 { x: side, y: side, z: side }, n),
    ensures
        (Single { bits: 0 }).below(frame_on(frame, n).0.x) <==> !n.z.below(Single { bits: 0 }),
        frame_on(frame, n).0.x.below(Single { bits: 0 }) <==> n.z.below(Single { bits: 0 }),
        frame_on(frame, n).0.x.magnitude() == 0x3f80_0000,
        frame_on(frame, n).1 == n,
{
}

/// What has no material is traced like a material that nothing was set on.
pub proof fn nothing_set_is_grey(m: PbrMaterial)
    requires
        m@ == material::plain(m.id@, m.name@),
    ensures
        flat_material(m) == grey(),
{
    assert(m@.albedo == m.albedo && m@.metallic == m.metallic && m@.roughness == m.roughness);
    assert(m@.ior == m.ior && m@.emissive == m.emissive);
    assert(m@.transmission == m.transmission && m@.ao == m.ao);
}

} // verus!
