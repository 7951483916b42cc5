//! Paths of light through a scene: from the camera, bounce by bounce, to the light
//! that they bring back.
//!
//! Arithmetic on numbers and the random draws come from the caller. What a ray
//! meets, which light counts, when a path ends and what it takes in on the way are
//! settled here.
use vstd::prelude::*;

use crate::arithmetic;
use crate::geometry;
use crate::geometry::{Aabb, Vec3, Vec4};
use crate::intersect;
use crate::intersect::{Intersection, Ray, ShadingTriangle};
use crate::light_sampling;
use crate::light_sampling::{
    LampArithmetic,
    LampDraws,
    LightReach,
    LightSample,
    NativeLight,
    Squares,
};
use crate::lighting::SkyParams;
use crate::material;
use crate::material::{
    Aim,
    BsdfSample,
    Crossing,
    LightPath,
    Lobe,
    LobeOdds,
    PathTraceMaterial,
    ScatterArithmetic,
    ScatterDraws,
    Scattering,
    Sides,
};
use crate::path_trace;
use crate::path_trace::{
    Bounce,
    CameraProjection,
    Course,
    Meeting,
    PathState,
    PathTraceConfig,
    PathTraceScene,
    RayEvent,
    TriangleShading,
    ViewArithmetic,
    ViewFrame,
};
use crate::photometry::Blend;
use crate::scene::RenderCamera;
use crate::single::Single;
use crate::tiles::Tile;

verus! {

/// Which sample of which pixel a path is for.
#[derive(Clone, Copy, Debug, PartialEq, Eq, Structural)]
pub struct PixelSample {
    pub px: u32,
    pub py: u32,
    pub sample: u32,
}

/// What a random draw is for.
#[derive(Clone, Copy, Debug, PartialEq, Eq, Structural)]
pub enum Purpose {
    /// Where in the pixel the path starts, sideways.
    JitterX,
    /// And downward.
    JitterY,
    /// The way to a light, two draws each.
    Lamp { bounce: u32, light: usize, second: bool },
    /// How light goes on from a surface, four draws.
    Lobe { bounce: u32 },
    First { bounce: u32 },
    Second { bounce: u32 },
    Split { bounce: u32 },
    /// Whether the path lives on.
    Roulette { bounce: u32 },
}

/// A ray that meets a triangle.
#[derive(Clone, Copy, Debug, PartialEq)]
pub struct Strike {
    pub triangle: ShadingTriangle,
    pub shading: TriangleShading,
    pub hit: Intersection,
    pub ray: Ray,
}

/// The numbers of a surface where a ray meets it.
#[derive(Clone, Copy, Debug, PartialEq)]
pub struct Surface {
    /// The corners' normals blended, at unit length.
    pub smooth: Vec3,
    /// The square of the blend's length before that.
    pub smooth_length_squared: Single,
    /// The triangle's own normal.
    pub flat: Vec3,
    /// Where the ray meets it.
    pub position: Vec3,
    /// Back along the ray.
    pub wo: Vec3,
}

/// A shaded point.
#[derive(Clone, Copy, Debug, PartialEq)]
pub struct Spot {
    pub material: PathTraceMaterial,
    pub n: Vec3,
    pub position: Vec3,
    pub wo: Vec3,
}

/// What a lamp's light is made of when it reaches the viewer.
#[derive(Clone, Copy, Debug, PartialEq)]
pub struct LampLight {
    pub throughput: Vec3,
    pub share: Vec3,
    pub emitted: Vec3,
    pub cos_at_surface: Single,
    pub weight: Single,
    pub pdf: Single,
}

/// A path under way.
#[derive(Clone, Copy, Debug, PartialEq)]
pub struct Walk {
    pub state: PathState,
    pub ray: Ray,
    pub throughput: Vec3,
    pub radiance: Vec3,
}

/// The arithmetic of light.
pub struct Optics<
    Bx,
    Tr,
    Su,
    Do,
    Ne,
    Re,
    Fa,
    Gl,
    Mi,
    Pu,
    Wr,
    Ra,
    Bl,
    Be,
    Sd,
    Et,
    Eo,
    Pt,
    Po,
    Od,
    Ai,
    Ca,
    Cl,
    Sq,
    Co,
    Pl,
    En,
    Me,
    Ga,
    Ti,
    Ov,
> {
    /// Where a ray enters a box.
    pub box_near: Bx,
    /// Where a ray meets a triangle.
    pub tri_hit: Tr,
    /// The numbers of a surface where a ray meets it.
    pub surface: Su,
    /// The scalar product.
    pub dot: Do,
    /// The opposite vector.
    pub negate: Ne,
    /// What a way from a point to a light carries.
    pub lamp: LampArithmetic<Re, Fa, Gl, Mi, Pu, Wr, Ra, Bl>,
    /// A distance less 0.001.
    pub before: Be,
    /// How light goes on from a surface.
    pub scatter: ScatterArithmetic<Sd, Et, Eo, Pt, Po, Od, Ai, Ca, Cl>,
    /// The squares of two densities.
    pub squares: Sq,
    /// A lamp's light as it reaches the viewer.
    pub lamp_light: Co,
    /// The sum of two colours.
    pub plus: Pl,
    /// The light of the sky from a direction.
    pub environment: En,
    /// The numbers of a ray that may run into a light.
    pub meeting: Me,
    /// A colour and, weighed by the second, the third.
    pub gain: Ga,
    /// The product of two colours.
    pub times: Ti,
    /// A colour divided by a number.
    pub over: Ov,
}

/// White.
pub open spec fn white() -> Vec3 {
    let one = Single { bits: 0x3f80_0000 };
    Vec3 { x: one, y: one, z: one }
}

/// A ray from 0.0001 to infinity.
pub open spec fn fresh_ray(origin: Vec3, dir: Vec3) -> Ray {
    Ray { origin, dir, t_min: Single { bits: 0x38d1_b717 }, t_max: Single { bits: 0x7f80_0000 } }
}

/// The largest part of a colour.
pub open spec fn strongest(v: Vec3) -> Single {
    v.x.greatest(v.y.greatest(v.z))
}

/// A path at the camera.
pub open spec fn setting_out(ray: Ray) -> Walk {
    Walk {
        state: PathState { bounce: 0, last_was_specular: true },
        ray,
        throughput: white(),
        radiance: geometry::zeros(),
    }
}

/// How many more rays a path may send.
pub open spec fn rays_left(w: Walk, config: PathTraceConfig) -> nat {
    if w.state.bounce < config.max_bounces {
        (config.max_bounces - w.state.bounce) as nat
    } else {
        0
    }
}

/// The material of a triangle; grey for one without.
pub open spec fn material_of(scene: PathTraceScene, prim_id: u32) -> PathTraceMaterial {
    if prim_id < scene.material_ids@.len() && scene.material_ids@[prim_id as int] >= 0 {
        scene.materials@[scene.material_ids@[prim_id as int] as int]
    } else {
        material::grey()
    }
}

impl<
    Bx: Fn(Ray, Aabb) -> Option<Single> + Copy,
    Tr: Fn(ShadingTriangle, Ray) -> Option<Intersection> + Copy,
    Su: Fn(Strike) -> Surface,
    Do: Fn(Vec3, Vec3) -> Single,
    Ne: Fn(Vec3) -> Vec3,
    Re: Fn(&NativeLight, Vec3, LampDraws) -> LightReach,
    Fa: Fn(Vec3, Single) -> Vec3,
    Gl: Fn(Vec3, Single, Single) -> Vec3,
    Mi: Fn(Single, Single) -> Single,
    Pu: Fn(Single, Single) -> Single,
    Wr: Fn(Single) -> Single,
    Ra: Fn(Single, Single, Single) -> Single,
    Bl: Fn(Blend) -> Single,
    Be: Fn(Single) -> Single,
    Sd: Fn(LightPath) -> Sides,
    Et: Fn(LightPath) -> Crossing<Vec3>,
    Eo: Fn(LightPath) -> Vec3,
    Pt: Fn(LightPath) -> Crossing<Single>,
    Po: Fn(LightPath) -> Single,
    Od: Fn(Scattering) -> LobeOdds,
    Ai: Fn(Scattering, Lobe) -> Aim,
    Ca: Fn(Vec3, Single, Single) -> Vec3,
    Cl: Fn(Scattering) -> Vec3,
    Sq: Fn(Single, Single) -> Squares,
    Co: Fn(LampLight) -> Vec3,
    Pl: Fn(Vec3, Vec3) -> Vec3,
    En: Fn(SkyParams, Vec3) -> Vec3,
    Me: Fn(&NativeLight, Ray) -> Meeting,
    Ga: Fn(Vec3, Vec3, Vec3) -> Vec3,
    Ti: Fn(Vec3, Vec3) -> Vec3,
    Ov: Fn(Vec3, Single) -> Vec3,
> Optics<
    Bx,
    Tr,
    Su,
    Do,
    Ne,
    Re,
    Fa,
    Gl,
    Mi,
    Pu,
    Wr,
    Ra,
    Bl,
    Be,
    Sd,
    Et,
    Eo,
    Pt,
    Po,
    Od,
    Ai,
    Ca,
    Cl,
    Sq,
    Co,
    Pl,
    En,
    Me,
    Ga,
    Ti,
    Ov,
> {
    /// Every function can be called on anything and gives the same each time, and a
    /// hit carries the number of its triangle. The tests of boxes and triangles may
    /// waver.
    pub open spec fn wf(&self) -> bool {
        &&& forall|a: Ray, b: Aabb| #[trigger] self.box_near.requires((a, b))
        &&& forall|t: ShadingTriangle, a: Ray| #[trigger] self.tri_hit.requires((t, a))
        &&& forall|t: ShadingTriangle, a: Ray, h: Intersection| #[trigger]
            self.tri_hit.ensures((t, a), Some(h)) ==> h.prim_id == t.prim_id
        &&& arithmetic::steady(self.surface)
        &&& arithmetic::steady2(self.dot)
        &&& arithmetic::steady(self.negate)
        &&& self.lamp.is_steady()
        &&& arithmetic::steady(self.before)
        &&& self.scatter.is_steady()
        &&& arithmetic::steady2(self.squares)
        &&& arithmetic::steady(self.lamp_light)
        &&& arithmetic::steady2(self.plus)
        &&& arithmetic::steady2(self.environment)
        &&& forall|l: NativeLight, a: Ray| #[trigger] self.meeting.requires((&l, a))
        &&& forall|l: NativeLight, a: Ray, r: Meeting, s: Meeting| #[trigger]
            self.meeting.ensures((&l, a), r) && #[trigger] self.meeting.ensures((&l, a), s) ==> r
                == s
        &&& arithmetic::steady3(self.gain)
        &&& arithmetic::steady2(self.times)
        &&& arithmetic::steady2(self.over)
    }

    // ---- a ray that leaves the scene -----------------------------------

    /// The numbers of a ray that may run into a light.
    pub open spec fn meeting_of(&self, l: NativeLight, ray: Ray) -> Meeting {
        choose|r: Meeting| self.meeting.ensures((&l, ray), r)
    }

    /// What a ray takes in from the first `n` lights, where it runs into them.
    pub open spec fn seen(&self, lights: Seq<NativeLight>, ray: Ray, n: int) -> Vec3
        decreases n,
    {
        if n <= 0 {
            geometry::zeros()
        } else {
            let before = self.seen(lights, ray, n - 1);
            match path_trace::met(lights[n - 1], ray, self.meeting_of(lights[n - 1], ray)) {
                Some(light) => arithmetic::applied2(self.plus, before, light),
                None => before,
            }
        }
    }

    /// What a ray takes in from the lights that it runs into.
    pub fn direct_visible_lights(&self, lights: &Vec<NativeLight>, ray: &Ray) -> (r: Vec3)
        requires
            self.wf(),
        ensures
            r == self.seen(lights@, *ray, lights@.len() as int),
    {
        let plus = &self.plus;
        let meeting = &self.meeting;
        let mut total: Vec3 = Vec3::splat(Single::zero());
        let mut i: usize = 0;
        while i < lights.len()
            invariant
                i <= lights@.len(),
                self.wf(),
                *plus == self.plus,
                *meeting == self.meeting,
                total == self.seen(lights@, *ray, i as int),
            decreases lights@.len() - i,
        {
            let m: Meeting = meeting(&lights[i], *ray);
            proof {
                assert(self.meeting.ensures((&lights@[i as int], *ray), m));
                assert(m == self.meeting_of(lights@[i as int], *ray));
            }
            if let Some(light) = path_trace::direct_visible_light(&lights[i], ray, m) {
                total = plus(total, light);
            }
            i = i + 1;
        }
        total
    }

    /// What a path has brought back once its ray leaves the scene: the sky, and,
    /// where no lamp was sampled, the lights that the ray runs into.
    pub open spec fn escaped(&self, scene: PathTraceScene, w: Walk) -> Vec3 {
        let sky = arithmetic::applied3(
            self.gain,
            w.radiance,
            w.throughput,
            arithmetic::applied2(self.environment, scene.sky, w.ray.dir),
        );
        if w.state.last_was_specular {
            arithmetic::applied3(
                self.gain,
                sky,
                w.throughput,
                self.seen(scene.lights@, w.ray, scene.lights@.len() as int),
            )
        } else {
            sky
        }
    }

    fn escape(&self, scene: &PathTraceScene, w: &Walk) -> (r: Vec3)
        requires
            self.wf(),
        ensures
            r == self.escaped(*scene, *w),
    {
        let gain = &self.gain;
        let environment = &self.environment;
        let intake = w.state.intake(RayEvent::Nothing);
        let light: Vec3 = environment(scene.sky, w.ray.dir);
        let sky: Vec3 = gain(w.radiance, w.throughput, light);
        if intake.visible_lights {
            let seen: Vec3 = self.direct_visible_lights(&scene.lights, &w.ray);
            gain(sky, w.throughput, seen)
        } else {
            sky
        }
    }

    // ---- a ray that meets a surface ------------------------------------

    /// The shaded point where a ray meets a triangle. The blended normal counts,
    /// or the triangle's own where the blend has no length; it is turned to the
    /// viewer.
    pub open spec fn spot(&self, scene: PathTraceScene, ray: Ray, hit: Intersection) -> Spot {
        let s = arithmetic::applied(
            self.surface,
            Strike {
                triangle: scene.triangles@[hit.prim_id as int],
                shading: scene.shading_data@[hit.prim_id as int],
                hit,
                ray,
            },
        );
        let n = if s.smooth_length_squared.below(Single { bits: 0x322b_cc77 }) {  // 1e-08
            s.flat
        } else {
            s.smooth
        };
        let n = if (Single { bits: 0 }).below(arithmetic::applied2(self.dot, n, s.wo)) {
            n
        } else {
            arithmetic::applied(self.negate, n)
        };
        Spot { material: material_of(scene, hit.prim_id), n, position: s.position, wo: s.wo }
    }

    fn find_spot(&self, scene: &PathTraceScene, ray: &Ray, hit: Intersection) -> (r: Spot)
        requires
            self.wf(),
            scene.wf(),
            hit.prim_id < scene.triangles@.len(),
        ensures
            r == self.spot(*scene, *ray, hit),
    {
        let surface = &self.surface;
        let dot = &self.dot;
        let negate = &self.negate;
        let at: usize = hit.prim_id as usize;
        let s: Surface = surface(
            Strike {
                triangle: scene.triangles[at],
                shading: scene.shading_data[at],
                hit,
                ray: *ray,
            },
        );
        let n: Vec3 = path_trace::or_when_short(s.smooth, s.smooth_length_squared, s.flat);
        let n: Vec3 = if Single::zero().lt(dot(n, s.wo)) {
            n
        } else {
            negate(n)
        };
        Spot { material: scene.material_for(hit.prim_id), n, position: s.position, wo: s.wo }
    }

    // ---- lamps ---------------------------------------------------------

    /// A lamp's way to a point, where its light can count there: it comes from
    /// above the surface, on a way that can be sampled.
    pub open spec fn counted(&self, spot: Spot, way: Option<LightSample>) -> Option<LightSample> {
        match way {
            Some(ls) => if material::passes(arithmetic::applied2(self.dot, spot.n, ls.direction))
                && material::passes(ls.pdf) {
                Some(ls)
            } else {
                None
            },
            None => None,
        }
    }

    /// The ray from a point to just before a lamp, at least 0.001 long.
    pub open spec fn shadow_ray(&self, spot: Spot, ls: LightSample) -> Ray {
        fresh_ray(spot.position, ls.direction).up_to(
            arithmetic::applied(self.before, ls.distance).greatest(Single { bits: 0x3a83_126f }),
        )
    }

    /// The light of a lamp that nothing stands before, as it reaches the viewer. It
    /// is weighed against light that scattering finds, where scattering can find
    /// the lamp.
    pub open spec fn lamp_share(
        &self,
        l: NativeLight,
        spot: Spot,
        ls: LightSample,
        throughput: Vec3,
    ) -> Vec3 {
        let p = LightPath { material: spot.material, n: spot.n, wi: ls.direction, wo: spot.wo };
        let squares = arithmetic::applied2(self.squares, ls.pdf, self.scatter.density(p));
        let weight = if light_sampling::delta(l) {
            Single { bits: 0x3f80_0000 }
        } else {
            light_sampling::weight_of(squares)
        };
        arithmetic::applied(
            self.lamp_light,
            LampLight {
                throughput,
                share: self.scatter.share(p),
                emitted: ls.emitted,
                cos_at_surface: arithmetic::applied2(self.dot, spot.n, ls.direction),
                weight,
                pdf: ls.pdf,
            },
        )
    }

    /// Whether `r` is `start` with the light of a lamp, `way` being the way to it: added
    /// where the lamp can count and the way is clear.
    pub open spec fn lit_by(
        &self,
        scene: PathTraceScene,
        l: NativeLight,
        spot: Spot,
        throughput: Vec3,
        d: LampDraws,
        start: Vec3,
        way: Option<LightSample>,
        shadowed: bool,
        r: Vec3,
    ) -> bool {
        &&& self.lamp.samples(l, spot.position, d, way)
        &&& match self.counted(spot, way) {
            None => r == start,
            Some(ls) => {
                &&& intersect::barred(
                    self.box_near,
                    self.tri_hit,
                    scene.bvh,
                    scene.triangles@,
                    self.shadow_ray(spot, ls),
                    shadowed,
                )
                &&& r == if shadowed {
                    start
                } else {
                    arithmetic::applied2(
                        self.plus,
                        start,
                        self.lamp_share(l, spot, ls, throughput),
                    )
                }
            },
        }
    }

    fn light_lamp(
        &self,
        scene: &PathTraceScene,
        light: &NativeLight,
        spot: &Spot,
        throughput: Vec3,
        d: LampDraws,
        start: Vec3,
    ) -> (r: (Option<LightSample>, bool, Vec3))
        requires
            self.wf(),
            scene.wf(),
            light_sampling::readable(*light),
        ensures
            self.lit_by(*scene, *light, *spot, throughput, d, start, r.0, r.1, r.2),
    {
        let dot = &self.dot;
        let before = &self.before;
        let lamp_light = &self.lamp_light;
        let plus = &self.plus;
        let way: Option<LightSample> = light_sampling::sample_light(
            light,
            spot.position,
            d,
            &self.lamp,
        );
        match way {
            None => (way, false, start),
            Some(ls) => {
                let cos_at_surface: Single = dot(spot.n, ls.direction);
                if !path_trace::lamp_counts(cos_at_surface, ls.pdf) {
                    return (way, false, start);
                }
                let mut shadow: Ray = Ray::new(spot.position, ls.direction);
                shadow.t_max = path_trace::shadow_reach(before(ls.distance));
                proof {
                    assert(shadow == self.shadow_ray(*spot, ls));
                }
                let shadowed: bool = intersect::any_hit(
                    &scene.bvh,
                    &scene.triangles,
                    &shadow,
                    self.box_near,
                    self.tri_hit,
                );
                if shadowed {
                    return (way, true, start);
                }
                let share: Vec3 = material::eval_bsdf(
                    &spot.material,
                    spot.n,
                    ls.direction,
                    spot.wo,
                    &self.scatter.sides,
                    &self.scatter.share_through,
                    &self.scatter.share_over,
                );
                let density: Single = material::pdf_bsdf(
                    &spot.material,
                    spot.n,
                    ls.direction,
                    spot.wo,
                    &self.scatter.sides,
                    &self.scatter.density_through,
                    &self.scatter.density_over,
                );
                let weight: Single = path_trace::lamp_weight(
                    light,
                    light_sampling::power_heuristic(ls.pdf, density, &self.squares),
                );
                let light: Vec3 = lamp_light(
                    LampLight {
                        throughput,
                        share,
                        emitted: ls.emitted,
                        cos_at_surface,
                        weight,
                        pdf: ls.pdf,
                    },
                );
                (way, false, plus(start, light))
            },
        }
    }

    /// The draws for the way to a light.
    pub open spec fn lamp_draws<Dr: Fn(PixelSample, Purpose) -> Single>(
        draw: Dr,
        at: PixelSample,
        bounce: u32,
        light: usize,
    ) -> LampDraws {
        LampDraws {
            u1: arithmetic::applied2(draw, at, Purpose::Lamp { bounce, light, second: false }),
            u2: arithmetic::applied2(draw, at, Purpose::Lamp { bounce, light, second: true }),
        }
    }

    /// Whether `r` is `start` with the light of the first `n` lamps.
    pub open spec fn lit<Dr: Fn(PixelSample, Purpose) -> Single>(
        &self,
        draw: Dr,
        scene: PathTraceScene,
        at: PixelSample,
        bounce: u32,
        spot: Spot,
        throughput: Vec3,
        start: Vec3,
        n: nat,
        r: Vec3,
    ) -> bool
        decreases n,
    {
        if n == 0 {
            r == start
        } else {
            let i = (n - 1) as nat;
            exists|before: Vec3, way: Option<LightSample>, shadowed: bool|
                self.lit(draw, scene, at, bounce, spot, throughput, start, i, before)
                    && #[trigger] self.lit_by(
                    scene,
                    scene.lights@[i as int],
                    spot,
                    throughput,
                    Self::lamp_draws(draw, at, bounce, i as usize),
                    before,
                    way,
                    shadowed,
                    r,
                )
        }
    }

    fn light_lamps<Dr: Fn(PixelSample, Purpose) -> Single>(
        &self,
        draw: &Dr,
        scene: &PathTraceScene,
        at: PixelSample,
        bounce: u32,
        spot: &Spot,
        throughput: Vec3,
        start: Vec3,
    ) -> (r: Vec3)
        requires
            self.wf(),
            scene.wf(),
            arithmetic::steady2(*draw),
        ensures
            self.lit(
                *draw,
                *scene,
                at,
                bounce,
                *spot,
                throughput,
                start,
                scene.lights@.len(),
                r,
            ),
    {
        let mut total: Vec3 = start;
        let mut i: usize = 0;
        while i < scene.lights.len()
            invariant
                i <= scene.lights@.len(),
                self.wf(),
                scene.wf(),
                arithmetic::steady2(*draw),
                self.lit(*draw, *scene, at, bounce, *spot, throughput, start, i as nat, total),
            decreases scene.lights@.len() - i,
        {
            let u1: Single = draw(at, Purpose::Lamp { bounce, light: i, second: false });
            let u2: Single = draw(at, Purpose::Lamp { bounce, light: i, second: true });
            let d: LampDraws = LampDraws { u1, u2 };
            let ghost before = total;
            let (way, shadowed, after) = self.light_lamp(
                scene,
                &scene.lights[i],
                spot,
                throughput,
                d,
                total,
            );
            proof {
                let k = ((i + 1) as nat - 1) as nat;
                assert(k as usize == i);
                assert(self.lit_by(
                    *scene,
                    scene.lights@[k as int],
                    *spot,
                    throughput,
                    Self::lamp_draws(*draw, at, bounce, k as usize),
                    before,
                    way,
                    shadowed,
                    after,
                ));
                assert(self.lit(
                    *draw,
                    *scene,
                    at,
                    bounce,
                    *spot,
                    throughput,
                    start,
                    (i + 1) as nat,
                    after,
                ));
            }
            total = after;
            i = i + 1;
        }
        total
    }

    // ---- from bounce to bounce -----------------------------------------

    /// What a path has brought back before the lamps: with the light that the
    /// surface gives off, where no lamp was sampled.
    pub open spec fn with_emission(&self, w: Walk, spot: Spot) -> Vec3 {
        if w.state.last_was_specular {
            arithmetic::applied3(self.gain, w.radiance, w.throughput, spot.material.emissive)
        } else {
            w.radiance
        }
    }

    /// How light goes on from a point.
    pub open spec fn scattering<Dr: Fn(PixelSample, Purpose) -> Single>(
        draw: Dr,
        at: PixelSample,
        bounce: u32,
        spot: Spot,
    ) -> Scattering {
        Scattering {
            material: spot.material,
            n: spot.n,
            wo: spot.wo,
            rng: ScatterDraws {
                lobe: arithmetic::applied2(draw, at, Purpose::Lobe { bounce }),
                u1: arithmetic::applied2(draw, at, Purpose::First { bounce }),
                u2: arithmetic::applied2(draw, at, Purpose::Second { bounce }),
                split: arithmetic::applied2(draw, at, Purpose::Split { bounce }),
            },
        }
    }

    /// The path after a bounce: nothing where the surface swallows the light, or
    /// where roulette, played after the set number of bounces, ends the path.
    pub open spec fn onward<Dr: Fn(PixelSample, Purpose) -> Single>(
        &self,
        draw: Dr,
        config: PathTraceConfig,
        at: PixelSample,
        w: Walk,
        spot: Spot,
        radiance: Vec3,
    ) -> Option<Walk> {
        let s = Self::scattering(draw, at, w.state.bounce, spot);
        match self.scatter.scattered(s) {
            None => None,
            Some(b) => {
                let throughput = arithmetic::applied2(self.times, w.throughput, b.weight);
                let next = Walk {
                    state: PathState {
                        bounce: (w.state.bounce + 1) as u32,
                        last_was_specular: b.is_specular,
                    },
                    ray: fresh_ray(spot.position, b.direction),
                    throughput,
                    radiance,
                };
                if w.state.bounce < config.russian_roulette_min_bounces {
                    Some(next)
                } else {
                    let chance = path_trace::survival(strongest(throughput));
                    let d = arithmetic::applied2(
                        draw,
                        at,
                        Purpose::Roulette { bounce: w.state.bounce },
                    );
                    if chance.below(d) {
                        None
                    } else {
                        Some(
                            Walk {
                                throughput: arithmetic::applied2(self.over, throughput, chance),
                                ..next
                            },
                        )
                    }
                }
            },
        }
    }

    fn go_on<Dr: Fn(PixelSample, Purpose) -> Single>(
        &self,
        draw: &Dr,
        config: &PathTraceConfig,
        at: PixelSample,
        w: &Walk,
        spot: &Spot,
        radiance: Vec3,
    ) -> (r: Option<Walk>)
        requires
            self.wf(),
            arithmetic::steady2(*draw),
            w.state.bounce < config.max_bounces,
        ensures
            r == self.onward(*draw, *config, at, *w, *spot, radiance),
    {
        let times = &self.times;
        let over = &self.over;
        let bounce: u32 = w.state.bounce;
        let lobe: Single = draw(at, Purpose::Lobe { bounce });
        let u1: Single = draw(at, Purpose::First { bounce });
        let u2: Single = draw(at, Purpose::Second { bounce });
        let split: Single = draw(at, Purpose::Split { bounce });
        let sample: Option<BsdfSample> = material::sample_bsdf(
            &spot.material,
            spot.n,
            spot.wo,
            ScatterDraws { lobe, u1, u2, split },
            &self.scatter,
        );
        match (w.state.after_bounce(&sample, config), sample) {
            (Bounce::Onward { next, roulette }, Some(b)) => {
                let throughput: Vec3 = times(w.throughput, b.weight);
                let ray: Ray = Ray::new(spot.position, b.direction);
                if roulette {
                    let strength: Single = throughput.x.max(throughput.y.max(throughput.z));
                    let d: Single = draw(at, Purpose::Roulette { bounce });
                    match path_trace::roulette(strength, d) {
                        None => None,
                        Some(chance) => Some(
                            Walk {
                                state: next,
                                ray,
                                throughput: over(throughput, chance),
                                radiance,
                            },
                        ),
                    }
                } else {
                    Some(Walk { state: next, ray, throughput, radiance })
                }
            },
            _ => None,
        }
    }

    /// Whether `r` is what a path brings back that may send `n` more rays.
    pub open spec fn traced<Dr: Fn(PixelSample, Purpose) -> Single>(
        &self,
        draw: Dr,
        scene: PathTraceScene,
        config: PathTraceConfig,
        at: PixelSample,
        w: Walk,
        n: nat,
        r: Vec3,
    ) -> bool
        decreases n,
    {
        if n == 0 {
            r == w.radiance
        } else {
            exists|hit: Option<Intersection>|
                #![trigger self.meets(scene, w.ray, hit)]
                self.meets(scene, w.ray, hit) && match hit {
                    None => r == self.escaped(scene, w),
                    Some(h) => exists|light: Vec3|
                        #![trigger self.collects(draw, scene, at, w, h, light)]
                        self.collects(draw, scene, at, w, h, light) && match self.onward(
                            draw,
                            config,
                            at,
                            w,
                            self.spot(scene, w.ray, h),
                            light,
                        ) {
                            None => r == light,
                            Some(next) => self.traced(
                                draw,
                                scene,
                                config,
                                at,
                                next,
                                (n - 1) as nat,
                                r,
                            ),
                        },
                }
        }
    }

    /// Whether a hit is what a ray meets first.
    pub open spec fn meets(
        &self,
        scene: PathTraceScene,
        ray: Ray,
        hit: Option<Intersection>,
    ) -> bool {
        intersect::nearest(self.box_near, self.tri_hit, scene.bvh, scene.triangles@, ray, hit)
    }

    /// Whether `light` is what a path has brought back where it meets a surface: with
    /// the light that the surface gives off and that lamps throw on it.
    pub open spec fn collects<Dr: Fn(PixelSample, Purpose) -> Single>(
        &self,
        draw: Dr,
        scene: PathTraceScene,
        at: PixelSample,
        w: Walk,
        hit: Intersection,
        light: Vec3,
    ) -> bool {
        let spot = self.spot(scene, w.ray, hit);
        self.lit(
            draw,
            scene,
            at,
            w.state.bounce,
            spot,
            w.throughput,
            self.with_emission(w, spot),
            scene.lights@.len(),
            light,
        )
    }

    fn collect<Dr: Fn(PixelSample, Purpose) -> Single>(
        &self,
        draw: &Dr,
        scene: &PathTraceScene,
        at: PixelSample,
        w: &Walk,
        spot: &Spot,
        Ghost(hit): Ghost<Intersection>,
    ) -> (r: Vec3)
        requires
            self.wf(),
            scene.wf(),
            arithmetic::steady2(*draw),
            *spot == self.spot(*scene, w.ray, hit),
        ensures
            self.collects(*draw, *scene, at, *w, hit, r),
    {
        let gain = &self.gain;
        let intake = w.state.intake(RayEvent::Surface);
        let start: Vec3 = if intake.emission {
            gain(w.radiance, w.throughput, spot.material.emissive)
        } else {
            w.radiance
        };
        self.light_lamps(draw, scene, at, w.state.bounce, spot, w.throughput, start)
    }

    /// Follows a path and gives back the light that it brings.
    pub fn trace_path<Dr: Fn(PixelSample, Purpose) -> Single>(
        &self,
        scene: &PathTraceScene,
        ray_in: Ray,
        config: &PathTraceConfig,
        at: PixelSample,
        draw: &Dr,
    ) -> (r: Vec3)
        requires
            self.wf(),
            scene.wf(),
            arithmetic::steady2(*draw),
        ensures
            self.traced(
                *draw,
                *scene,
                *config,
                at,
                setting_out(ray_in),
                config.max_bounces as nat,
                r,
            ),
    {
        let mut w: Walk = Walk {
            state: PathState::start(),
            ray: ray_in,
            throughput: Vec3::splat(Single::one()),
            radiance: Vec3::splat(Single::zero()),
        };
        let ghost first = w;
        proof {
            assert(first == setting_out(ray_in));
        }
        while w.state.may_go_on(config)
            invariant
                self.wf(),
                scene.wf(),
                arithmetic::steady2(*draw),
                first == setting_out(ray_in),
                w.state.bounce <= config.max_bounces,
                forall|r: Vec3|
                    self.traced(*draw, *scene, *config, at, w, rays_left(w, *config), r)
                        ==> #[trigger] self.traced(
                        *draw,
                        *scene,
                        *config,
                        at,
                        first,
                        config.max_bounces as nat,
                        r,
                    ),
            decreases config.max_bounces - w.state.bounce,
        {
            let found: Option<Intersection> = intersect::closest_hit(
                &scene.bvh,
                &scene.triangles,
                &w.ray,
                self.box_near,
                self.tri_hit,
            );
            proof {
                assert(self.meets(*scene, w.ray, found));
            }
            match found {
                None => {
                    let r: Vec3 = self.escape(scene, &w);
                    proof {
                        assert(self.traced(*draw, *scene, *config, at, w, rays_left(w, *config), r));
                    }
                    return r;
                },
                Some(hit) => {
                    proof {
                        let (s, t) = choose|s: int, t: Single|
                            0 <= s < scene.bvh.prim_indices@.len() && #[trigger] intersect::reports(
                                self.tri_hit,
                                scene.bvh,
                                scene.triangles@,
                                w.ray.up_to(t),
                                s,
                                hit,
                            );
                        assert(scene.bvh.prim_indices@[s] < scene.triangles@.len());
                        let prim = scene.bvh.prim_indices@[s] as int;
                        assert(hit.prim_id == scene.triangles@[prim].prim_id);
                    }
                    let spot: Spot = self.find_spot(scene, &w.ray, hit);
                    let light: Vec3 = self.collect(draw, scene, at, &w, &spot, Ghost(hit));
                    let next: Option<Walk> = self.go_on(draw, config, at, &w, &spot, light);
                    match next {
                        None => {
                            proof {
                                assert(self.traced(
                                    *draw,
                                    *scene,
                                    *config,
                                    at,
                                    w,
                                    rays_left(w, *config),
                                    light,
                                ));
                            }
                            return light;
                        },
                        Some(onward) => {
                            proof {
                                assert forall|r: Vec3|
                                    self.traced(
                                        *draw,
                                        *scene,
                                        *config,
                                        at,
                                        onward,
                                        rays_left(onward, *config),
                                        r,
                                    ) implies #[trigger] self.traced(
                                    *draw,
                                    *scene,
                                    *config,
                                    at,
                                    first,
                                    config.max_bounces as nat,
                                    r,
                                ) by {
                                    assert(rays_left(onward, *config) == rays_left(w, *config) - 1);
                                    assert(self.traced(
                                        *draw,
                                        *scene,
                                        *config,
                                        at,
                                        w,
                                        rays_left(w, *config),
                                        r,
                                    ));
                                }
                            }
                            w = onward;
                        },
                    }
                },
            }
        }
        w.radiance
    }

    // ---- tiles ---------------------------------------------------------

    /// The ray of one sample of a pixel.
    pub open spec fn camera_ray<
        Dr: Fn(PixelSample, Purpose) -> Single,
        Fl: Fn(Sight) -> Vec3,
        Ro: Fn(Sight) -> Vec3,
    >(draw: Dr, lens: Lens<Fl, Ro>, config: PathTraceConfig, at: PixelSample) -> Ray {
        let sight = Sight {
            px: at.px,
            py: at.py,
            jx: arithmetic::applied2(draw, at, Purpose::JitterX),
            jy: arithmetic::applied2(draw, at, Purpose::JitterY),
            width: config.width,
            height: config.height,
            view: lens.view,
            half_height: lens.half_height,
        };
        fresh_ray(
            lens.view.origin,
            match config.projection {
                CameraProjection::Perspective => arithmetic::applied(lens.flat, sight),
                CameraProjection::Equirectangular => arithmetic::applied(lens.round, sight),
            },
        )
    }

    /// Whether `light` is what one sample of a pixel brings back.
    pub open spec fn shot<
        Dr: Fn(PixelSample, Purpose) -> Single,
        Fl: Fn(Sight) -> Vec3,
        Ro: Fn(Sight) -> Vec3,
    >(
        &self,
        draw: Dr,
        lens: Lens<Fl, Ro>,
        scene: PathTraceScene,
        config: PathTraceConfig,
        at: PixelSample,
        light: Vec3,
    ) -> bool {
        self.traced(
            draw,
            scene,
            config,
            at,
            setting_out(Self::camera_ray(draw, lens, config, at)),
            config.max_bounces as nat,
            light,
        )
    }

    fn shoot<
        Dr: Fn(PixelSample, Purpose) -> Single,
        Fl: Fn(Sight) -> Vec3,
        Ro: Fn(Sight) -> Vec3,
    >(
        &self,
        draw: &Dr,
        lens: &Lens<Fl, Ro>,
        scene: &PathTraceScene,
        config: &PathTraceConfig,
        at: PixelSample,
    ) -> (r: Vec3)
        requires
            self.wf(),
            scene.wf(),
            arithmetic::steady2(*draw),
            arithmetic::steady(lens.flat),
            arithmetic::steady(lens.round),
        ensures
            self.shot(*draw, *lens, *scene, *config, at, r),
    {
        let flat = &lens.flat;
        let round = &lens.round;
        let jx: Single = draw(at, Purpose::JitterX);
        let jy: Single = draw(at, Purpose::JitterY);
        let sight: Sight = Sight {
            px: at.px,
            py: at.py,
            jx,
            jy,
            width: config.width,
            height: config.height,
            view: lens.view,
            half_height: lens.half_height,
        };
        let dir: Vec3 = match config.projection {
            CameraProjection::Perspective => flat(sight),
            CameraProjection::Equirectangular => round(sight),
        };
        let ray: Ray = Ray::new(lens.view.origin, dir);
        proof {
            assert(ray == Self::camera_ray(*draw, *lens, *config, at));
        }
        self.trace_path(scene, ray, config, at, draw)
    }

    /// Whether `sum` is what the first `n` samples of a pixel bring back together.
    pub open spec fn summed<
        Dr: Fn(PixelSample, Purpose) -> Single,
        Fl: Fn(Sight) -> Vec3,
        Ro: Fn(Sight) -> Vec3,
    >(
        &self,
        draw: Dr,
        lens: Lens<Fl, Ro>,
        scene: PathTraceScene,
        config: PathTraceConfig,
        px: u32,
        py: u32,
        n: nat,
        sum: Vec3,
    ) -> bool
        decreases n,
    {
        if n == 0 {
            sum == geometry::zeros()
        } else {
            let k = (n - 1) as nat;
            let at = PixelSample { px, py, sample: k as u32 };
            exists|before: Vec3, light: Vec3|
                self.summed(draw, lens, scene, config, px, py, k, before) && #[trigger] self.adds(
                    draw,
                    lens,
                    scene,
                    config,
                    at,
                    before,
                    light,
                    sum,
                )
        }
    }

    /// Whether `sum` is `before` with what one sample of a pixel brings back.
    pub open spec fn adds<
        Dr: Fn(PixelSample, Purpose) -> Single,
        Fl: Fn(Sight) -> Vec3,
        Ro: Fn(Sight) -> Vec3,
    >(
        &self,
        draw: Dr,
        lens: Lens<Fl, Ro>,
        scene: PathTraceScene,
        config: PathTraceConfig,
        at: PixelSample,
        before: Vec3,
        light: Vec3,
        sum: Vec3,
    ) -> bool {
        self.shot(draw, lens, scene, config, at, light) && sum == arithmetic::applied2(
            self.plus,
            before,
            light,
        )
    }

    /// The sum of a pixel's samples.
    fn sum_samples<
        Dr: Fn(PixelSample, Purpose) -> Single,
        Fl: Fn(Sight) -> Vec3,
        Ro: Fn(Sight) -> Vec3,
    >(
        &self,
        draw: &Dr,
        lens: &Lens<Fl, Ro>,
        scene: &PathTraceScene,
        config: &PathTraceConfig,
        px: u32,
        py: u32,
    ) -> (r: Vec3)
        requires
            self.wf(),
            scene.wf(),
            arithmetic::steady2(*draw),
            arithmetic::steady(lens.flat),
            arithmetic::steady(lens.round),
        ensures
            self.summed(
                *draw,
                *lens,
                *scene,
                *config,
                px,
                py,
                config.samples_per_pixel as nat,
                r,
            ),
    {
        let plus = &self.plus;
        let mut sum: Vec3 = Vec3::splat(Single::zero());
        let mut s: u32 = 0;
        while s < config.samples_per_pixel
            invariant
                s <= config.samples_per_pixel,
                self.wf(),
                scene.wf(),
                arithmetic::steady2(*draw),
                arithmetic::steady(lens.flat),
                arithmetic::steady(lens.round),
                *plus == self.plus,
                self.summed(*draw, *lens, *scene, *config, px, py, s as nat, sum),
            decreases config.samples_per_pixel - s,
        {
            let ghost before = sum;
            let light: Vec3 = self.shoot(
                draw,
                lens,
                scene,
                config,
                PixelSample { px, py, sample: s },
            );
            sum = plus(sum, light);
            s = s + 1;
            proof {
                let k = (s as nat - 1) as nat;
                let at = PixelSample { px, py, sample: k as u32 };
                assert(self.adds(*draw, *lens, *scene, *config, at, before, light, sum));
            }
        }
        sum
    }

    /// Whether `v` is a finished pixel: the sum of its samples, and their number, at
    /// least one.
    pub open spec fn finished<
        Dr: Fn(PixelSample, Purpose) -> Single,
        Fl: Fn(Sight) -> Vec3,
        Ro: Fn(Sight) -> Vec3,
        Nu: Fn(u32) -> Single,
    >(
        &self,
        draw: Dr,
        lens: Lens<Fl, Ro>,
        count: Nu,
        scene: PathTraceScene,
        config: PathTraceConfig,
        px: u32,
        py: u32,
        v: Vec4,
    ) -> bool {
        &&& self.summed(
            draw,
            lens,
            scene,
            config,
            px,
            py,
            config.samples_per_pixel as nat,
            Vec3 { x: v.x, y: v.y, z: v.z },
        )
        &&& v.w == arithmetic::applied(
            count,
            if config.samples_per_pixel == 0 {
                1
            } else {
                config.samples_per_pixel
            },
        )
    }

    /// Renders a tile: its pixels row by row, each the sum of its samples and their
    /// number.
    pub fn render_tile<
        Dr: Fn(PixelSample, Purpose) -> Single,
        Fl: Fn(Sight) -> Vec3,
        Ro: Fn(Sight) -> Vec3,
        Nu: Fn(u32) -> Single,
    >(
        &self,
        scene: &PathTraceScene,
        lens: &Lens<Fl, Ro>,
        config: &PathTraceConfig,
        tile: Tile,
        draw: &Dr,
        count: &Nu,
    ) -> (r: Vec<Vec4>)
        requires
            self.wf(),
            scene.wf(),
            tile.wf(),
            tile.area() <= usize::MAX,
            arithmetic::steady2(*draw),
            arithmetic::steady(lens.flat),
            arithmetic::steady(lens.round),
            arithmetic::steady(*count),
        ensures
            r@.len() == tile.area(),
            forall|k: int|
                0 <= k < r@.len() ==> self.finished(
                    *draw,
                    *lens,
                    *count,
                    *scene,
                    *config,
                    column_in(tile, k),
                    row_in(tile, k),
                    #[trigger] r@[k],
                ),
    {
        let total: usize = tile.pixel_count();
        let samples: u32 = if config.samples_per_pixel == 0 {
            1
        } else {
            config.samples_per_pixel
        };
        let mut out: Vec<Vec4> = Vec::new();
        let mut k: usize = 0;
        while k < total
            invariant
                k <= total,
                total == tile.area(),
                tile.wf(),
                self.wf(),
                scene.wf(),
                arithmetic::steady2(*draw),
                arithmetic::steady(lens.flat),
                arithmetic::steady(lens.round),
                arithmetic::steady(*count),
                samples == if config.samples_per_pixel == 0 {
                    1
                } else {
                    config.samples_per_pixel
                },
                out@.len() == k,
                forall|j: int|
                    0 <= j < k ==> self.finished(
                        *draw,
                        *lens,
                        *count,
                        *scene,
                        *config,
                        column_in(tile, j),
                        row_in(tile, j),
                        #[trigger] out@[j],
                    ),
            decreases total - k,
        {
            let (px, py) = place_in(tile, k);
            let sum: Vec3 = self.sum_samples(draw, lens, scene, config, px, py);
            let w: Single = count(samples);
            let v: Vec4 = Vec4 { x: sum.x, y: sum.y, z: sum.z, w };
            proof {
                assert(sum == Vec3 { x: v.x, y: v.y, z: v.z });
            }
            out.push(v);
            k = k + 1;
        }
        out
    }

    /// Whether `m` are the moments of the first `n` samples of a pixel.
    pub open spec fn spread<
        Dr: Fn(PixelSample, Purpose) -> Single,
        Fl: Fn(Sight) -> Vec3,
        Ro: Fn(Sight) -> Vec3,
        We: Fn(Moments, Vec3, u32) -> Moments,
    >(
        &self,
        draw: Dr,
        lens: Lens<Fl, Ro>,
        update: We,
        scene: PathTraceScene,
        config: PathTraceConfig,
        px: u32,
        py: u32,
        n: nat,
        m: Moments,
    ) -> bool
        decreases n,
    {
        if n == 0 {
            m == (Moments { mean: geometry::zeros(), m2: geometry::zeros() })
        } else {
            let k = (n - 1) as nat;
            let at = PixelSample { px, py, sample: k as u32 };
            exists|before: Moments, light: Vec3|
                self.spread(draw, lens, update, scene, config, px, py, k, before)
                    && #[trigger] self.weighs(
                    draw,
                    lens,
                    update,
                    scene,
                    config,
                    at,
                    before,
                    light,
                    m,
                )
        }
    }

    /// Whether `m` are the moments `before` with what one sample of a pixel brings
    /// back.
    pub open spec fn weighs<
        Dr: Fn(PixelSample, Purpose) -> Single,
        Fl: Fn(Sight) -> Vec3,
        Ro: Fn(Sight) -> Vec3,
        We: Fn(Moments, Vec3, u32) -> Moments,
    >(
        &self,
        draw: Dr,
        lens: Lens<Fl, Ro>,
        update: We,
        scene: PathTraceScene,
        config: PathTraceConfig,
        at: PixelSample,
        before: Moments,
        light: Vec3,
        m: Moments,
    ) -> bool {
        self.shot(draw, lens, scene, config, at, light) && m == arithmetic::applied3(
            update,
            before,
            light,
            (at.sample + 1) as u32,
        )
    }

    /// The moments of a pixel's samples.
    fn measure<
        Dr: Fn(PixelSample, Purpose) -> Single,
        Fl: Fn(Sight) -> Vec3,
        Ro: Fn(Sight) -> Vec3,
        We: Fn(Moments, Vec3, u32) -> Moments,
    >(
        &self,
        draw: &Dr,
        lens: &Lens<Fl, Ro>,
        update: &We,
        scene: &PathTraceScene,
        config: &PathTraceConfig,
        px: u32,
        py: u32,
        samples: u32,
    ) -> (r: Moments)
        requires
            self.wf(),
            scene.wf(),
            arithmetic::steady2(*draw),
            arithmetic::steady(lens.flat),
            arithmetic::steady(lens.round),
            arithmetic::steady3(*update),
        ensures
            self.spread(*draw, *lens, *update, *scene, *config, px, py, samples as nat, r),
    {
        let mut m: Moments = Moments {
            mean: Vec3::splat(Single::zero()),
            m2: Vec3::splat(Single::zero()),
        };
        let mut s: u32 = 0;
        while s < samples
            invariant
                s <= samples,
                self.wf(),
                scene.wf(),
                arithmetic::steady2(*draw),
                arithmetic::steady(lens.flat),
                arithmetic::steady(lens.round),
                arithmetic::steady3(*update),
                self.spread(*draw, *lens, *update, *scene, *config, px, py, s as nat, m),
            decreases samples - s,
        {
            let ghost before = m;
            let light: Vec3 = self.shoot(
                draw,
                lens,
                scene,
                config,
                PixelSample { px, py, sample: s },
            );
            s = s + 1;
            m = update(m, light, s);
            proof {
                let k = (s as nat - 1) as nat;
                let at = PixelSample { px, py, sample: k as u32 };
                assert(self.weighs(*draw, *lens, *update, *scene, *config, at, before, light, m));
            }
        }
        m
    }

    /// Takes `samples_this_pass` more samples of each pixel of a tile: their sums and
    /// number, and how far they spread around their mean. `totals` makes the sums
    /// from the mean and the number.
    pub fn render_tile_pass<
        Dr: Fn(PixelSample, Purpose) -> Single,
        Fl: Fn(Sight) -> Vec3,
        Ro: Fn(Sight) -> Vec3,
        We: Fn(Moments, Vec3, u32) -> Moments,
        To: Fn(Vec3, u32) -> Vec4,
    >(
        &self,
        scene: &PathTraceScene,
        lens: &Lens<Fl, Ro>,
        config: &PathTraceConfig,
        tile: Tile,
        samples_this_pass: u32,
        draw: &Dr,
        update: &We,
        totals: &To,
    ) -> (r: TilePassResult)
        requires
            self.wf(),
            scene.wf(),
            tile.wf(),
            tile.area() <= usize::MAX,
            arithmetic::steady2(*draw),
            arithmetic::steady(lens.flat),
            arithmetic::steady(lens.round),
            arithmetic::steady3(*update),
            arithmetic::steady2(*totals),
        ensures
            r.tile == tile,
            r.sums@.len() == tile.area(),
            r.sums_sq@.len() == tile.area(),
            forall|k: int| #[trigger]
                self.passed(
                    *draw,
                    *lens,
                    *update,
                    *totals,
                    *scene,
                    *config,
                    r,
                    samples_this_pass,
                    k,
                ),
    {
        let total: usize = tile.pixel_count();
        let mut r: TilePassResult = TilePassResult { tile, sums: Vec::new(), sums_sq: Vec::new() };
        let mut k: usize = 0;
        while k < total
            invariant
                k <= total,
                total == tile.area(),
                tile.wf(),
                self.wf(),
                scene.wf(),
                arithmetic::steady2(*draw),
                arithmetic::steady(lens.flat),
                arithmetic::steady(lens.round),
                arithmetic::steady3(*update),
                arithmetic::steady2(*totals),
                r.tile == tile,
                r.sums@.len() == k,
                r.sums_sq@.len() == k,
                forall|j: int| #[trigger]
                    self.passed(
                        *draw,
                        *lens,
                        *update,
                        *totals,
                        *scene,
                        *config,
                        r,
                        samples_this_pass,
                        j,
                    ),
            decreases total - k,
        {
            let ghost before = r;
            let (px, py) = place_in(tile, k);
            let m: Moments = self.measure(
                draw,
                lens,
                update,
                scene,
                config,
                px,
                py,
                samples_this_pass,
            );
            let sums: Vec4 = totals(m.mean, samples_this_pass);
            r.sums.push(sums);
            r.sums_sq.push(m.m2);
            k = k + 1;
            proof {
                assert forall|j: int| #[trigger]
                    self.passed(
                        *draw,
                        *lens,
                        *update,
                        *totals,
                        *scene,
                        *config,
                        r,
                        samples_this_pass,
                        j,
                    ) by {
                    if 0 <= j < k - 1 {
                        assert(self.passed(
                            *draw,
                            *lens,
                            *update,
                            *totals,
                            *scene,
                            *config,
                            before,
                            samples_this_pass,
                            j,
                        ));
                        assert(before.tile == r.tile);
                        assert(r.sums@[j] == before.sums@[j]);
                        assert(r.sums_sq@[j] == before.sums_sq@[j]);
                    } else if j == k - 1 {
                        assert(r.tile == tile);
                        assert(r.sums@[j] == sums);
                        assert(self.spread(
                            *draw,
                            *lens,
                            *update,
                            *scene,
                            *config,
                            column_in(tile, j),
                            row_in(tile, j),
                            samples_this_pass as nat,
                            m,
                        ));
                    }
                }
            }
        }
        r
    }

    /// Whether pixel `k` of a pass, row by row, is what its samples come to.
    pub open spec fn passed<
        Dr: Fn(PixelSample, Purpose) -> Single,
        Fl: Fn(Sight) -> Vec3,
        Ro: Fn(Sight) -> Vec3,
        We: Fn(Moments, Vec3, u32) -> Moments,
        To: Fn(Vec3, u32) -> Vec4,
    >(
        &self,
        draw: Dr,
        lens: Lens<Fl, Ro>,
        update: We,
        totals: To,
        scene: PathTraceScene,
        config: PathTraceConfig,
        r: TilePassResult,
        samples: u32,
        k: int,
    ) -> bool {
        0 <= k < r.sums@.len() ==> exists|m: Moments| #[trigger]
            self.spread(
                draw,
                lens,
                update,
                scene,
                config,
                column_in(r.tile, k),
                row_in(r.tile, k),
                samples as nat,
                m,
            ) && r.sums@[k] == arithmetic::applied2(totals, m.mean, samples) && r.sums_sq@[k]
                == m.m2
    }

    // ---- what every path satisfies -------------------------------------

    /// Whatever a path takes in is weighed by its throughput: where gain by a throughput
    /// adds nothing to what the path has brought, from the sky, from lights that a ray runs
    /// into, from surfaces and from lamps alike, and that throughput stays what it is under
    /// every bounce, the path brings back exactly what it had, however far it goes. `fair`
    /// says which rays the arithmetic is asked about; all rays of the path are among them.
    pub proof fn paths_without_throughput_take_nothing_in<
        Dr: Fn(PixelSample, Purpose) -> Single,
    >(
        &self,
        draw: Dr,
        scene: PathTraceScene,
        config: PathTraceConfig,
        at: PixelSample,
        w: Walk,
        n: nat,
        r: Vec3,
        fair: spec_fn(Ray) -> bool,
    )
        requires
            self.traced(draw, scene, config, at, w, n, r),
            fair(w.ray),
            forall|ray: Ray| #[trigger]
                fair(ray) ==> self.dark_outside(scene, w.throughput, w.radiance, ray),
            forall|ray: Ray, h: Intersection|
                fair(ray) && #[trigger] self.meets(scene, ray, Some(h)) ==> self.dark_at(
                    scene,
                    w.throughput,
                    w.radiance,
                    self.spot(scene, ray, h),
                ),
            forall|ray: Ray, h: Intersection, bounce: u32|
                fair(ray) && #[trigger] self.meets(scene, ray, Some(h)) ==> (
                #[trigger] self.scatter.scattered(
                    Self::scattering(draw, at, bounce, self.spot(scene, ray, h)),
                ) matches Some(b) ==> arithmetic::applied2(self.times, w.throughput, b.weight)
                    == w.throughput && fair(
                    Ray {
                        origin: self.spot(scene, ray, h).position,
                        dir: b.direction,
                        t_min: Single { bits: 0x38d1_b717 },  // 0.0001
                        t_max: Single { bits: 0x7f80_0000 },
                    },
                )),
            arithmetic::applied2(
                self.over,
                w.throughput,
                path_trace::survival(strongest(w.throughput)),
            ) == w.throughput,
        ensures
            r == w.radiance,
        decreases n,
    {
        if n > 0 {
            let hit = choose|hit: Option<Intersection>|
                #![trigger self.meets(scene, w.ray, hit)]
                self.meets(scene, w.ray, hit) && match hit {
                    None => r == self.escaped(scene, w),
                    Some(h) => exists|light: Vec3|
                        #![trigger self.collects(draw, scene, at, w, h, light)]
                        self.collects(draw, scene, at, w, h, light) && match self.onward(
                            draw,
                            config,
                            at,
                            w,
                            self.spot(scene, w.ray, h),
                            light,
                        ) {
                            None => r == light,
                            Some(next) => self.traced(
                                draw,
                                scene,
                                config,
                                at,
                                next,
                                (n - 1) as nat,
                                r,
                            ),
                        },
                };
            match hit {
                None => {
                    assert(self.dark_outside(scene, w.throughput, w.radiance, w.ray));
                },
                Some(h) => {
                    let spot = self.spot(scene, w.ray, h);
                    let light = choose|light: Vec3|
                        #![trigger self.collects(draw, scene, at, w, h, light)]
                        self.collects(draw, scene, at, w, h, light) && match self.onward(
                            draw,
                            config,
                            at,
                            w,
                            spot,
                            light,
                        ) {
                            None => r == light,
                            Some(next) => self.traced(
                                draw,
                                scene,
                                config,
                                at,
                                next,
                                (n - 1) as nat,
                                r,
                            ),
                        };
                    assert(self.dark_at(scene, w.throughput, w.radiance, spot));
                    assert(self.with_emission(w, spot) == w.radiance);
                    self.dark_lamps_add_nothing(
                        draw,
                        scene,
                        at,
                        w.state.bounce,
                        spot,
                        w.throughput,
                        w.radiance,
                        scene.lights@.len(),
                        light,
                    );
                    let s = Self::scattering(draw, at, w.state.bounce, spot);
                    if let Some(b) = self.scatter.scattered(s) {
                        assert(arithmetic::applied2(self.times, w.throughput, b.weight)
                            == w.throughput);
                        if let Some(next) = self.onward(draw, config, at, w, spot, light) {
                            assert(next.throughput == w.throughput);
                            assert(next.radiance == w.radiance);
                            self.paths_without_throughput_take_nothing_in(
                                draw,
                                scene,
                                config,
                                at,
                                next,
                                (n - 1) as nat,
                                r,
                                fair,
                            );
                        }
                    }
                },
            }
        }
    }

    /// Whether gain by a throughput adds nothing to a colour from what lies outside of the
    /// scene along a ray: neither the sky nor lights that the ray runs into.
    pub open spec fn dark_outside(
        &self,
        scene: PathTraceScene,
        throughput: Vec3,
        color: Vec3,
        ray: Ray,
    ) -> bool {
        &&& arithmetic::applied3(
            self.gain,
            color,
            throughput,
            arithmetic::applied2(self.environment, scene.sky, ray.dir),
        ) == color
        &&& arithmetic::applied3(
            self.gain,
            color,
            throughput,
            self.seen(scene.lights@, ray, scene.lights@.len() as int),
        ) == color
    }

    /// Whether gain by a throughput adds nothing to a colour at a point: neither what the
    /// surface gives off nor the light of a lamp.
    pub open spec fn dark_at(
        &self,
        scene: PathTraceScene,
        throughput: Vec3,
        color: Vec3,
        spot: Spot,
    ) -> bool {
        &&& arithmetic::applied3(self.gain, color, throughput, spot.material.emissive) == color
        &&& forall|i: int, u: LampDraws, ls: LightSample|
            0 <= i < scene.lights@.len() && #[trigger] self.lamp.samples(
                scene.lights@[i],
                spot.position,
                u,
                Some(ls),
            ) ==> arithmetic::applied2(
                self.plus,
                color,
                arithmetic::applied(
                    self.lamp_light,
                    self.lamp_part(scene.lights@[i], spot, ls, throughput),
                ),
            ) == color
    }

    /// What the light of a lamp is made of at a point: what the viewer still gets of light
    /// from there, the share that goes from the lamp to the viewer, what the lamp sends,
    /// how slanted it comes, its density, and its weight: 1, or, where scattering finds the
    /// lamp too, that of its density against scattering's.
    pub open spec fn lamp_part(
        &self,
        l: NativeLight,
        spot: Spot,
        ls: LightSample,
        throughput: Vec3,
    ) -> LampLight {
        let p = LightPath { material: spot.material, n: spot.n, wi: ls.direction, wo: spot.wo };
        let squares = arithmetic::applied2(self.squares, ls.pdf, self.scatter.density(p));
        LampLight {
            throughput,
            share: self.scatter.share(p),
            emitted: ls.emitted,
            cos_at_surface: arithmetic::applied2(self.dot, spot.n, ls.direction),
            weight: if !(l is Area) {
                Single { bits: 0x3f80_0000 }
            } else if squares.sum.at_most(Single { bits: 0 }) {
                Single { bits: 0 }
            } else {
                squares.quotient
            },
            pdf: ls.pdf,
        }
    }

    proof fn dark_lamps_add_nothing<Dr: Fn(PixelSample, Purpose) -> Single>(
        &self,
        draw: Dr,
        scene: PathTraceScene,
        at: PixelSample,
        bounce: u32,
        spot: Spot,
        throughput: Vec3,
        start: Vec3,
        n: nat,
        r: Vec3,
    )
        requires
            self.lit(draw, scene, at, bounce, spot, throughput, start, n, r),
            n <= scene.lights@.len(),
            self.dark_at(scene, throughput, start, spot),
        ensures
            r == start,
        decreases n,
    {
        if n > 0 {
            let i = (n - 1) as nat;
            let d = Self::lamp_draws(draw, at, bounce, i as usize);
            let (before, way, shadowed) = choose|
                before: Vec3,
                way: Option<LightSample>,
                shadowed: bool,
            |
                self.lit(draw, scene, at, bounce, spot, throughput, start, i, before)
                    && #[trigger] self.lit_by(
                    scene,
                    scene.lights@[i as int],
                    spot,
                    throughput,
                    d,
                    before,
                    way,
                    shadowed,
                    r,
                );
            self.dark_lamps_add_nothing(
                draw,
                scene,
                at,
                bounce,
                spot,
                throughput,
                start,
                i,
                before,
            );
            assert(self.lamp.samples(scene.lights@[i as int], spot.position, d, way));
        }
    }

    /// A lamp adds its light to a point where it comes from above, on a way that can be
    /// sampled, and nothing stands between the point and just before the lamp; else it adds
    /// nothing.
    pub proof fn lamps_light_what_they_reach(
        &self,
        scene: PathTraceScene,
        l: NativeLight,
        spot: Spot,
        throughput: Vec3,
        d: LampDraws,
        start: Vec3,
        way: Option<LightSample>,
        shadowed: bool,
        r: Vec3,
    )
        requires
            self.lit_by(scene, l, spot, throughput, d, start, way, shadowed, r),
        ensures
            self.lamp.samples(l, spot.position, d, way),
            way is None ==> r == start,
            way matches Some(ls) ==> {
                let zero = Single { bits: 0 };
                let cosine = arithmetic::applied2(self.dot, spot.n, ls.direction);
                let shadow = Ray {
                    origin: spot.position,
                    dir: ls.direction,
                    t_min: Single { bits: 0x38d1_b717 },  // 0.0001
                    t_max: arithmetic::applied(self.before, ls.distance).greatest(
                        Single { bits: 0x3a83_126f },  // 0.001
                    ),
                };
                &&& cosine.at_most(zero) || ls.pdf.at_most(zero) ==> r == start
                &&& zero.below(cosine) && zero.below(ls.pdf) ==> {
                    &&& intersect::barred(
                        self.box_near,
                        self.tri_hit,
                        scene.bvh,
                        scene.triangles@,
                        shadow,
                        shadowed,
                    )
                    &&& shadowed ==> r == start
                    &&& !shadowed ==> r == arithmetic::applied2(
                        self.plus,
                        start,
                        arithmetic::applied(
                            self.lamp_light,
                            self.lamp_part(l, spot, ls, throughput),
                        ),
                    )
                }
            },
    {
    }

    /// Whether a lamp alone takes what a path has brought from one colour to another, by two
    /// draws of its own.
    pub open spec fn lit_once<Dr: Fn(PixelSample, Purpose) -> Single>(
        &self,
        draw: Dr,
        scene: PathTraceScene,
        at: PixelSample,
        bounce: u32,
        spot: Spot,
        throughput: Vec3,
        i: int,
        before: Vec3,
        after: Vec3,
    ) -> bool {
        exists|way: Option<LightSample>, shadowed: bool| #[trigger]
            self.lit_by(
                scene,
                scene.lights@[i],
                spot,
                throughput,
                LampDraws {
                    u1: arithmetic::applied2(
                        draw,
                        at,
                        Purpose::Lamp { bounce, light: i as usize, second: false },
                    ),
                    u2: arithmetic::applied2(
                        draw,
                        at,
                        Purpose::Lamp { bounce, light: i as usize, second: true },
                    ),
                },
                before,
                way,
                shadowed,
                after,
            )
    }

    /// Whether some sums lead from the first to the last, lamp by lamp.
    pub open spec fn lit_in_turn<Dr: Fn(PixelSample, Purpose) -> Single>(
        &self,
        draw: Dr,
        scene: PathTraceScene,
        at: PixelSample,
        bounce: u32,
        spot: Spot,
        throughput: Vec3,
        sums: Seq<Vec3>,
    ) -> bool {
        forall|i: int, j: int|
            0 <= i < sums.len() && 0 <= j < sums.len() && j == i + 1 ==> self.lit_once(
                draw,
                scene,
                at,
                bounce,
                spot,
                throughput,
                i,
                #[trigger] sums[i],
                #[trigger] sums[j],
            )
    }

    /// The lamps of a scene light a point one after the other, each once and each by two
    /// draws of its own.
    pub proof fn each_lamp_lights_once<Dr: Fn(PixelSample, Purpose) -> Single>(
        &self,
        draw: Dr,
        scene: PathTraceScene,
        at: PixelSample,
        bounce: u32,
        spot: Spot,
        throughput: Vec3,
        start: Vec3,
        n: nat,
        r: Vec3,
    )
        requires
            self.lit(draw, scene, at, bounce, spot, throughput, start, n, r),
            n <= scene.lights@.len(),
        ensures
            exists|sums: Seq<Vec3>|
                {
                    &&& sums.len() == n + 1
                    &&& sums[0] == start
                    &&& sums[n as int] == r
                    &&& #[trigger] self.lit_in_turn(
                        draw,
                        scene,
                        at,
                        bounce,
                        spot,
                        throughput,
                        sums,
                    )
                },
        decreases n,
    {
        if n == 0 {
            let sums = seq![r];
            assert(self.lit_in_turn(draw, scene, at, bounce, spot, throughput, sums));
        } else {
            let i = (n - 1) as nat;
            let d = Self::lamp_draws(draw, at, bounce, i as usize);
            let (before, way, shadowed) = choose|
                before: Vec3,
                way: Option<LightSample>,
                shadowed: bool,
            |
                self.lit(draw, scene, at, bounce, spot, throughput, start, i, before)
                    && #[trigger] self.lit_by(
                    scene,
                    scene.lights@[i as int],
                    spot,
                    throughput,
                    d,
                    before,
                    way,
                    shadowed,
                    r,
                );
            self.each_lamp_lights_once(
                draw,
                scene,
                at,
                bounce,
                spot,
                throughput,
                start,
                i,
                before,
            );
            let first = choose|sums: Seq<Vec3>|
                {
                    &&& sums.len() == i + 1
                    &&& sums[0] == start
                    &&& sums[i as int] == before
                    &&& #[trigger] self.lit_in_turn(
                        draw,
                        scene,
                        at,
                        bounce,
                        spot,
                        throughput,
                        sums,
                    )
                };
            let sums = first.push(r);
            assert(self.lit_once(
                draw,
                scene,
                at,
                bounce,
                spot,
                throughput,
                i as int,
                before,
                r,
            ));
            assert forall|k: int, j: int|
                0 <= k < sums.len() && 0 <= j < sums.len() && j == k + 1 implies self.lit_once(
                draw,
                scene,
                at,
                bounce,
                spot,
                throughput,
                k,
                #[trigger] sums[k],
                #[trigger] sums[j],
            ) by {
                if k < i {
                    assert(sums[k] == first[k] && sums[j] == first[j]);
                } else {
                    assert(sums[k] == before && sums[j] == r);
                }
            }
            assert(self.lit_in_turn(draw, scene, at, bounce, spot, throughput, sums));
        }
    }

    /// A throughput after some bounces: multiplied by the weight of each, in order.
    pub open spec fn weighed(&self, throughput: Vec3, samples: Seq<BsdfSample>) -> Vec3 {
        samples.fold_left(
            throughput,
            |t: Vec3, b: BsdfSample| arithmetic::applied2(self.times, t, b.weight),
        )
    }

    /// A path that began as a walk, after its first `i` bounces.
    pub open spec fn walk_after(
        &self,
        w: Walk,
        rays: Seq<Ray>,
        lights: Seq<Vec3>,
        samples: Seq<BsdfSample>,
        i: int,
    ) -> Walk {
        Walk {
            state: PathState {
                bounce: (w.state.bounce + i) as u32,
                last_was_specular: if i == 0 {
                    w.state.last_was_specular
                } else {
                    samples[i - 1].is_specular
                },
            },
            ray: rays[i],
            throughput: self.weighed(w.throughput, samples.take(i)),
            radiance: if i == 0 {
                w.radiance
            } else {
                lights[i - 1]
            },
        }
    }

    /// Whether a path goes along given rays: meets a given surface at the end of each but
    /// the last, has brought given light there, scatters by given samples, each in the
    /// direction of the next ray, and with the last ray leaves the scene.
    pub open spec fn goes_along<Dr: Fn(PixelSample, Purpose) -> Single>(
        &self,
        draw: Dr,
        scene: PathTraceScene,
        at: PixelSample,
        w: Walk,
        rays: Seq<Ray>,
        hits: Seq<Intersection>,
        lights: Seq<Vec3>,
        samples: Seq<BsdfSample>,
    ) -> bool {
        let k = hits.len() as int;
        &&& lights.len() == k
        &&& samples.len() == k
        &&& rays.len() == k + 1
        &&& rays[0] == w.ray
        &&& forall|i: int, h: Option<Intersection>|
            0 <= i < k ==> (#[trigger] self.meets(scene, rays[i], h) <==> h == Some(hits[i]))
        &&& forall|h: Option<Intersection>| #[trigger] self.meets(scene, rays[k], h) <==> h is None
        &&& forall|i: int, light: Vec3|
            0 <= i < k ==> (#[trigger] self.collects(
                draw,
                scene,
                at,
                self.walk_after(w, rays, lights, samples, i),
                hits[i],
                light,
            ) <==> light == lights[i])
        &&& forall|i: int|
            0 <= i < k ==> {
                let spot = self.spot(scene, rays[i], #[trigger] hits[i]);
                &&& self.scatter.scattered(
                    Self::scattering(draw, at, (w.state.bounce + i) as u32, spot),
                ) == Some(samples[i])
                &&& rays[i + 1] == Ray {
                    origin: spot.position,
                    dir: samples[i].direction,
                    t_min: Single { bits: 0x38d1_b717 },  // 0.0001
                    t_max: Single { bits: 0x7f80_0000 },
                }
            }
    }

    /// A path that scatters some times and then leaves the scene brings back what it had
    /// gathered until then and, weighed by the product of the weights of all its bounces,
    /// the light of the sky from the direction in which it leaves. Behind a mirror-like
    /// bounce, where no lamp was sampled, the lights that it runs into come on top, weighed
    /// alike. Roulette is not played before the set number of bounces.
    pub proof fn paths_weigh_the_sky_by_every_bounce<Dr: Fn(PixelSample, Purpose) -> Single>(
        &self,
        draw: Dr,
        scene: PathTraceScene,
        config: PathTraceConfig,
        at: PixelSample,
        w: Walk,
        rays: Seq<Ray>,
        hits: Seq<Intersection>,
        lights: Seq<Vec3>,
        samples: Seq<BsdfSample>,
        r: Vec3,
    )
        requires
            self.goes_along(draw, scene, at, w, rays, hits, lights, samples),
            w.state.bounce + hits.len() < config.max_bounces,
            w.state.bounce + hits.len() <= config.russian_roulette_min_bounces,
        ensures
            self.traced(draw, scene, config, at, w, rays_left(w, config), r) <==> r == ({
                let k = hits.len() as int;
                let gathered = if k == 0 {
                    w.radiance
                } else {
                    lights[k - 1]
                };
                let throughput = self.weighed(w.throughput, samples);
                let sky = arithmetic::applied3(
                    self.gain,
                    gathered,
                    throughput,
                    arithmetic::applied2(self.environment, scene.sky, rays[k].dir),
                );
                let mirrored = if k == 0 {
                    w.state.last_was_specular
                } else {
                    samples[k - 1].is_specular
                };
                if mirrored {
                    arithmetic::applied3(
                        self.gain,
                        sky,
                        throughput,
                        self.seen(scene.lights@, rays[k], scene.lights@.len() as int),
                    )
                } else {
                    sky
                }
            }),
    {
        let k = hits.len() as int;
        assert(samples.take(0) =~= Seq::empty());
        assert(self.walk_after(w, rays, lights, samples, 0) == w);
        self.path_so_far(draw, scene, config, at, w, rays, hits, lights, samples, r, k);
        assert(samples.take(k) =~= samples);
        let last = self.walk_after(w, rays, lights, samples, k);
        assert(self.meets(scene, last.ray, None));
        let n = (rays_left(w, config) - k) as nat;
        if self.traced(draw, scene, config, at, last, n, r) {
            let hit = choose|hit: Option<Intersection>|
                #![trigger self.meets(scene, last.ray, hit)]
                self.meets(scene, last.ray, hit) && match hit {
                    None => r == self.escaped(scene, last),
                    Some(h) => exists|light: Vec3|
                        #![trigger self.collects(draw, scene, at, last, h, light)]
                        self.collects(draw, scene, at, last, h, light) && match self.onward(
                            draw,
                            config,
                            at,
                            last,
                            self.spot(scene, last.ray, h),
                            light,
                        ) {
                            None => r == light,
                            Some(next) => self.traced(
                                draw,
                                scene,
                                config,
                                at,
                                next,
                                (n - 1) as nat,
                                r,
                            ),
                        },
                };
            assert(hit is None);
        }
    }

    proof fn path_so_far<Dr: Fn(PixelSample, Purpose) -> Single>(
        &self,
        draw: Dr,
        scene: PathTraceScene,
        config: PathTraceConfig,
        at: PixelSample,
        w: Walk,
        rays: Seq<Ray>,
        hits: Seq<Intersection>,
        lights: Seq<Vec3>,
        samples: Seq<BsdfSample>,
        r: Vec3,
        i: int,
    )
        requires
            self.goes_along(draw, scene, at, w, rays, hits, lights, samples),
            w.state.bounce + hits.len() < config.max_bounces,
            w.state.bounce + hits.len() <= config.russian_roulette_min_bounces,
            0 <= i <= hits.len(),
            self.walk_after(w, rays, lights, samples, 0) == w,
        ensures
            self.traced(draw, scene, config, at, w, rays_left(w, config), r) <==> self.traced(
                draw,
                scene,
                config,
                at,
                self.walk_after(w, rays, lights, samples, i),
                (rays_left(w, config) - i) as nat,
                r,
            ),
        decreases i,
    {
        if i > 0 {
            let j = i - 1;
            self.path_so_far(draw, scene, config, at, w, rays, hits, lights, samples, r, j);
            let here = self.walk_after(w, rays, lights, samples, j);
            let next = self.walk_after(w, rays, lights, samples, i);
            let n = (rays_left(w, config) - j) as nat;
            let h = hits[j];
            let spot = self.spot(scene, rays[j], h);
            let light = lights[j];
            assert(samples.take(i).drop_last() =~= samples.take(j));
            assert(samples.take(i).last() == samples[j]);
            assert(next.throughput == arithmetic::applied2(
                self.times,
                here.throughput,
                samples[j].weight,
            ));
            assert(self.meets(scene, here.ray, Some(h)));
            assert(self.collects(draw, scene, at, here, h, light));
            assert(self.onward(draw, config, at, here, spot, light) == Some(next));
            if self.traced(draw, scene, config, at, here, n, r) {
                let hit = choose|hit: Option<Intersection>|
                    #![trigger self.meets(scene, here.ray, hit)]
                    self.meets(scene, here.ray, hit) && match hit {
                        None => r == self.escaped(scene, here),
                        Some(h) => exists|light: Vec3|
                            #![trigger self.collects(draw, scene, at, here, h, light)]
                            self.collects(draw, scene, at, here, h, light) && match self.onward(
                                draw,
                                config,
                                at,
                                here,
                                self.spot(scene, here.ray, h),
                                light,
                            ) {
                                None => r == light,
                                Some(next) => self.traced(
                                    draw,
                                    scene,
                                    config,
                                    at,
                                    next,
                                    (n - 1) as nat,
                                    r,
                                ),
                            },
                    };
                assert(hit == Some(h));
                let found = choose|light: Vec3|
                    #![trigger self.collects(draw, scene, at, here, h, light)]
                    self.collects(draw, scene, at, here, h, light) && match self.onward(
                        draw,
                        config,
                        at,
                        here,
                        spot,
                        light,
                    ) {
                        None => r == light,
                        Some(next) => self.traced(
                            draw,
                            scene,
                            config,
                            at,
                            next,
                            (n - 1) as nat,
                            r,
                        ),
                    };
                assert(found == light);
            }
        }
    }

    /// After a bounce a path goes on from the point where it bounced, in the direction of
    /// the bounce, with what it had brought until then and its throughput multiplied by the
    /// weight of the bounce. Roulette, past the set number of bounces, ends it where its
    /// draw is above its chance, and else divides the throughput by that chance, so that
    /// what lives on stands for what does not.
    pub proof fn bounces_lead_on_from_where_they_happen<
        Dr: Fn(PixelSample, Purpose) -> Single,
    >(
        &self,
        draw: Dr,
        config: PathTraceConfig,
        at: PixelSample,
        w: Walk,
        spot: Spot,
        radiance: Vec3,
        b: BsdfSample,
    )
        requires
            w.state.bounce < config.max_bounces,
            self.scatter.scattered(Self::scattering(draw, at, w.state.bounce, spot)) == Some(b),
        ensures
            ({
                let t = arithmetic::applied2(self.times, w.throughput, b.weight);
                let chance = path_trace::survival(strongest(t));
                let played = w.state.bounce >= config.russian_roulette_min_bounces;
                let d = arithmetic::applied2(
                    draw,
                    at,
                    Purpose::Roulette { bounce: w.state.bounce },
                );
                let next = self.onward(draw, config, at, w, spot, radiance);
                &&& next is None <==> played && chance.below(d)
                &&& next matches Some(v) ==> {
                    &&& v.ray.origin == spot.position
                    &&& v.ray.dir == b.direction
                    &&& v.radiance == radiance
                    &&& v.state.bounce == w.state.bounce + 1
                    &&& v.state.last_was_specular == b.is_specular
                    &&& !played ==> v.throughput == t
                    &&& played ==> v.throughput == arithmetic::applied2(self.over, t, chance)
                }
            }),
    {
    }

    /// Where the surface swallows the light, the path is over, and brings back what it had.
    pub proof fn swallowed_light_ends_a_path<Dr: Fn(PixelSample, Purpose) -> Single>(
        &self,
        draw: Dr,
        config: PathTraceConfig,
        at: PixelSample,
        w: Walk,
        spot: Spot,
        radiance: Vec3,
    )
        requires
            self.scatter.scattered(Self::scattering(draw, at, w.state.bounce, spot)) is None,
        ensures
            self.onward(draw, config, at, w, spot, radiance) is None,
    {
    }

    /// How light goes on from a point is settled by the point itself, and by four draws for
    /// its bounce.
    pub proof fn bounces_have_draws_of_their_own<Dr: Fn(PixelSample, Purpose) -> Single>(
        draw: Dr,
        at: PixelSample,
        bounce: u32,
        spot: Spot,
    )
        ensures
            ({
                let s = Self::scattering(draw, at, bounce, spot);
                &&& s.material == spot.material && s.n == spot.n && s.wo == spot.wo
                &&& s.rng.lobe == arithmetic::applied2(draw, at, Purpose::Lobe { bounce })
                &&& s.rng.u1 == arithmetic::applied2(draw, at, Purpose::First { bounce })
                &&& s.rng.u2 == arithmetic::applied2(draw, at, Purpose::Second { bounce })
                &&& s.rng.split == arithmetic::applied2(draw, at, Purpose::Split { bounce })
            }),
    {
    }

    /// The light that a surface gives off counts, weighed by the throughput, where no lamp
    /// was sampled before: at the camera's ray and behind a mirror-like bounce.
    pub proof fn surfaces_shine_where_no_lamp_was_sampled(&self, w: Walk, spot: Spot)
        ensures
            w.state.last_was_specular ==> self.with_emission(w, spot) == arithmetic::applied3(
                self.gain,
                w.radiance,
                w.throughput,
                spot.material.emissive,
            ),
            !w.state.last_was_specular ==> self.with_emission(w, spot) == w.radiance,
            setting_out(w.ray).state.last_was_specular,
    {
    }

    /// A shaded point lies where the ray meets its triangle and has the triangle's own
    /// material. Its normal is the blended one, or, where that has no length, the
    /// triangle's, turned round where it points away from the viewer.
    pub proof fn points_face_their_viewer(&self, scene: PathTraceScene, ray: Ray, hit: Intersection)
        requires
            scene.wf(),
            hit.prim_id < scene.triangles@.len(),
        ensures
            ({
                let s = arithmetic::applied(
                    self.surface,
                    Strike {
                        triangle: scene.triangles@[hit.prim_id as int],
                        shading: scene.shading_data@[hit.prim_id as int],
                        hit,
                        ray,
                    },
                );
                let n = if s.smooth_length_squared.below(Single { bits: 0x322b_cc77 }) {  // 1e-08
                    s.flat
                } else {
                    s.smooth
                };
                let back = arithmetic::applied(self.negate, n);
                let spot = self.spot(scene, ray, hit);
                let zero = Single { bits: 0 };
                &&& spot.position == s.position
                &&& spot.wo == s.wo
                &&& zero.below(arithmetic::applied2(self.dot, n, s.wo)) ==> spot.n == n
                &&& arithmetic::applied2(self.dot, n, s.wo).at_most(zero) ==> spot.n == back
                &&& zero.below(arithmetic::applied2(self.dot, n, s.wo)) || zero.below(
                    arithmetic::applied2(self.dot, back, s.wo),
                ) ==> zero.below(arithmetic::applied2(self.dot, spot.n, s.wo))
                &&& scene.material_ids@[hit.prim_id as int] >= 0 ==> spot.material
                    == scene.materials@[scene.material_ids@[hit.prim_id as int] as int]
                &&& scene.material_ids@[hit.prim_id as int] < 0 ==> spot.material
                    == material::grey()
            }),
    {
    }

    /// A ray that leaves the scene takes in each light that it runs into, once.
    pub proof fn each_light_is_seen_once(&self, lights: Seq<NativeLight>, ray: Ray)
        ensures
            self.seen(lights, ray, lights.len() as int) == lights.fold_left(
                geometry::zeros(),
                |sum: Vec3, l: NativeLight|
                    match path_trace::met(l, ray, self.meeting_of(l, ray)) {
                        Some(light) => arithmetic::applied2(self.plus, sum, light),
                        None => sum,
                    },
            ),
    {
        self.seen_so_far(lights, ray, lights.len() as int);
        assert(lights.take(lights.len() as int) =~= lights);
    }

    proof fn seen_so_far(&self, lights: Seq<NativeLight>, ray: Ray, n: int)
        requires
            0 <= n <= lights.len(),
        ensures
            self.seen(lights, ray, n) == lights.take(n).fold_left(
                geometry::zeros(),
                |sum: Vec3, l: NativeLight|
                    match path_trace::met(l, ray, self.meeting_of(l, ray)) {
                        Some(light) => arithmetic::applied2(self.plus, sum, light),
                        None => sum,
                    },
            ),
        decreases n,
    {
        if n > 0 {
            self.seen_so_far(lights, ray, n - 1);
            assert(lights.take(n).drop_last() =~= lights.take(n - 1));
        }
    }

    /// The samples of a pixel are those numbered from 0 on, each followed along its own ray
    /// from the camera and each added once.
    pub proof fn each_sample_is_added_once<
        Dr: Fn(PixelSample, Purpose) -> Single,
        Fl: Fn(Sight) -> Vec3,
        Ro: Fn(Sight) -> Vec3,
    >(
        &self,
        draw: Dr,
        lens: Lens<Fl, Ro>,
        scene: PathTraceScene,
        config: PathTraceConfig,
        px: u32,
        py: u32,
        n: nat,
        sum: Vec3,
    )
        requires
            self.summed(draw, lens, scene, config, px, py, n, sum),
        ensures
            exists|lights: Seq<Vec3>|
                {
                    &&& lights.len() == n
                    &&& forall|s: int|
                        0 <= s < n ==> self.traced(
                            draw,
                            scene,
                            config,
                            PixelSample { px, py, sample: s as u32 },
                            setting_out(
                                Self::camera_ray(
                                    draw,
                                    lens,
                                    config,
                                    PixelSample { px, py, sample: s as u32 },
                                ),
                            ),
                            config.max_bounces as nat,
                            #[trigger] lights[s],
                        )
                    &&& sum == lights.fold_left(
                        geometry::zeros(),
                        |before: Vec3, light: Vec3|
                            arithmetic::applied2(self.plus, before, light),
                    )
                },
        decreases n,
    {
        let join = |before: Vec3, light: Vec3| arithmetic::applied2(self.plus, before, light);
        if n == 0 {
            let lights = Seq::<Vec3>::empty();
            assert(sum == lights.fold_left(geometry::zeros(), join));
        } else {
            let k = (n - 1) as nat;
            let at = PixelSample { px, py, sample: k as u32 };
            let (before, light) = choose|before: Vec3, light: Vec3|
                self.summed(draw, lens, scene, config, px, py, k, before) && #[trigger] self.adds(
                    draw,
                    lens,
                    scene,
                    config,
                    at,
                    before,
                    light,
                    sum,
                );
            self.each_sample_is_added_once(draw, lens, scene, config, px, py, k, before);
            let first = choose|lights: Seq<Vec3>|
                {
                    &&& lights.len() == k
                    &&& forall|s: int|
                        0 <= s < k ==> self.traced(
                            draw,
                            scene,
                            config,
                            PixelSample { px, py, sample: s as u32 },
                            setting_out(
                                Self::camera_ray(
                                    draw,
                                    lens,
                                    config,
                                    PixelSample { px, py, sample: s as u32 },
                                ),
                            ),
                            config.max_bounces as nat,
                            #[trigger] lights[s],
                        )
                    &&& before == lights.fold_left(geometry::zeros(), join)
                };
            let lights = first.push(light);
            assert(lights.drop_last() =~= first);
            assert(sum == lights.fold_left(geometry::zeros(), join));
        }
    }

    /// The ray of a sample starts at the camera and goes through the sample's own pixel, at
    /// the place in it that its two draws give, in a picture of the set size: flat, or of
    /// all that is around, as the projection says.
    pub proof fn rays_go_through_their_pixel<
        Dr: Fn(PixelSample, Purpose) -> Single,
        Fl: Fn(Sight) -> Vec3,
        Ro: Fn(Sight) -> Vec3,
    >(draw: Dr, lens: Lens<Fl, Ro>, config: PathTraceConfig, at: PixelSample)
        ensures
            ({
                let sight = Sight {
                    px: at.px,
                    py: at.py,
                    jx: arithmetic::applied2(draw, at, Purpose::JitterX),
                    jy: arithmetic::applied2(draw, at, Purpose::JitterY),
                    width: config.width,
                    height: config.height,
                    view: lens.view,
                    half_height: lens.half_height,
                };
                let ray = Self::camera_ray(draw, lens, config, at);
                &&& ray.origin == lens.view.origin
                &&& config.projection == CameraProjection::Perspective ==> ray.dir
                    == arithmetic::applied(lens.flat, sight)
                &&& config.projection == CameraProjection::Equirectangular ==> ray.dir
                    == arithmetic::applied(lens.round, sight)
            }),
    {
    }

    /// The moments of a pixel take in the samples from 0 on, each once, with the number of
    /// samples that it makes.
    pub proof fn each_sample_is_measured_once<
        Dr: Fn(PixelSample, Purpose) -> Single,
        Fl: Fn(Sight) -> Vec3,
        Ro: Fn(Sight) -> Vec3,
        We: Fn(Moments, Vec3, u32) -> Moments,
    >(
        &self,
        draw: Dr,
        lens: Lens<Fl, Ro>,
        update: We,
        scene: PathTraceScene,
        config: PathTraceConfig,
        px: u32,
        py: u32,
        n: nat,
        m: Moments,
    )
        requires
            self.spread(draw, lens, update, scene, config, px, py, n, m),
            n <= u32::MAX,
        ensures
            exists|lights: Seq<Vec3>|
                {
                    &&& lights.len() == n
                    &&& forall|s: int|
                        0 <= s < n ==> self.traced(
                            draw,
                            scene,
                            config,
                            PixelSample { px, py, sample: s as u32 },
                            setting_out(
                                Self::camera_ray(
                                    draw,
                                    lens,
                                    config,
                                    PixelSample { px, py, sample: s as u32 },
                                ),
                            ),
                            config.max_bounces as nat,
                            #[trigger] lights[s],
                        )
                    &&& m == moments_of(update, lights)
                },
        decreases n,
    {
        if n == 0 {
            let lights = Seq::<Vec3>::empty();
            assert(m == moments_of(update, lights));
        } else {
            let k = (n - 1) as nat;
            let at = PixelSample { px, py, sample: k as u32 };
            let (before, light) = choose|before: Moments, light: Vec3|
                self.spread(draw, lens, update, scene, config, px, py, k, before)
                    && #[trigger] self.weighs(
                    draw,
                    lens,
                    update,
                    scene,
                    config,
                    at,
                    before,
                    light,
                    m,
                );
            self.each_sample_is_measured_once(
                draw,
                lens,
                update,
                scene,
                config,
                px,
                py,
                k,
                before,
            );
            let first = choose|lights: Seq<Vec3>|
                {
                    &&& lights.len() == k
                    &&& forall|s: int|
                        0 <= s < k ==> self.traced(
                            draw,
                            scene,
                            config,
                            PixelSample { px, py, sample: s as u32 },
                            setting_out(
                                Self::camera_ray(
                                    draw,
                                    lens,
                                    config,
                                    PixelSample { px, py, sample: s as u32 },
                                ),
                            ),
                            config.max_bounces as nat,
                            #[trigger] lights[s],
                        )
                    &&& before == moments_of(update, lights)
                };
            let lights = first.push(light);
            assert(lights.drop_last() =~= first);
            assert(m == moments_of(update, lights));
        }
    }
}

/// A place in a picture that a ray goes through: the pixel, the place in it, the
/// picture's size, and how the camera sees it.
#[derive(Clone, Copy, Debug, PartialEq, Eq, Structural)]
pub struct Sight {
    pub px: u32,
    pub py: u32,
    pub jx: Single,
    pub jy: Single,
    pub width: u32,
    pub height: u32,
    pub view: ViewFrame,
    pub half_height: Single,
}

/// How a camera sees: where it stands, half the height of what it sees at distance 1,
/// and the directions in which it looks.
pub struct Lens<Fl, Ro> {
    pub view: ViewFrame,
    pub half_height: Single,
    /// The direction of a place in a flat picture.
    pub flat: Fl,
    /// The direction of a place in a picture of all that is around.
    pub round: Ro,
}

impl<Fl, Ro> Lens<Fl, Ro> {
    /// The lens of a camera. What it sees at distance 1 is at least 0.0001 high, each
    /// half.
    pub fn of<
        S: Fn(Vec3) -> Vec3,
        T: Fn(Vec3, Vec3) -> Course,
        A: Fn(Vec3) -> Course,
        U: Fn(Vec3, Vec3) -> Vec3,
        H: Fn(Single) -> Single,
    >(
        camera: &RenderCamera,
        numbers: &ViewArithmetic<S, T, A, U>,
        half: &H,
        flat: Fl,
        round: Ro,
    ) -> (r: Lens<Fl, Ro>)
        requires
            numbers.is_steady(),
            arithmetic::steady(*half),
        ensures
            r.view == numbers.view_of(*camera),
            r.half_height == path_trace::half_height_of(camera.focal_length_mm, *half).greatest(
                Single { bits: 0x38d1_b717 },  // 0.0001
            ),
            r.flat == flat,
            r.round == round,
    {
        let half_height: Single = path_trace::focal_to_half_height(camera.focal_length_mm, half);
        Lens {
            view: path_trace::build_view(camera, numbers),
            half_height: half_height.max(Single::from_bits(0x38d1_b717)),  // 0.0001
            flat,
            round,
        }
    }
}

/// The mean of some samples, and the sum of their squared distances from it.
#[derive(Clone, Copy, Debug, PartialEq)]
pub struct Moments {
    pub mean: Vec3,
    pub m2: Vec3,
}

/// The outcome of one pass over a tile.
#[derive(Debug, PartialEq)]
pub struct TilePassResult {
    pub tile: Tile,
    /// Red, green, blue and the number of samples of each pixel, row by row.
    pub sums: Vec<Vec4>,
    /// The sums of the squared distances from the mean.
    pub sums_sq: Vec<Vec3>,
}

/// The column of the `k`th pixel of a tile, row by row.
pub open spec fn column_in(tile: Tile, k: int) -> u32 {
    (tile.x_start + k % (tile.x_end - tile.x_start)) as u32
}

/// The row of the `k`th pixel of a tile, row by row.
pub open spec fn row_in(tile: Tile, k: int) -> u32 {
    (tile.y_start + k / (tile.x_end - tile.x_start)) as u32
}

fn place_in(tile: Tile, k: usize) -> (r: (u32, u32))
    requires
        tile.wf(),
        k < tile.area(),
    ensures
        r.0 == column_in(tile, k as int),
        r.1 == row_in(tile, k as int),
        tile.holds(r.0 as int, r.1 as int),
{
    let width: usize = tile.width() as usize;
    let ghost w = tile.x_end - tile.x_start;
    let ghost h = tile.y_end - tile.y_start;
    proof {
        assert(w > 0 && h > 0) by (nonlinear_arith)
            requires
                0 <= w,
                0 <= h,
                0 <= k < w * h,
        ;
        vstd::arithmetic::div_mod::lemma_fundamental_div_mod(k as int, w);
        assert(0 <= k as int / w < h) by (nonlinear_arith)
            requires
                w > 0,
                0 <= k < w * h,
                k == w * (k as int / w) + k as int % w,
                0 <= k as int % w < w,
        ;
    }
    let column: u32 = (k % width) as u32;
    let row: u32 = (k / width) as u32;
    (tile.x_start + column, tile.y_start + row)
}

/// The moments of a list of colours: each taken in with the number that it makes.
pub open spec fn moments_of<We: Fn(Moments, Vec3, u32) -> Moments>(
    update: We,
    lights: Seq<Vec3>,
) -> Moments
    decreases lights.len(),
{
    if lights.len() == 0 {
        Moments { mean: geometry::zeros(), m2: geometry::zeros() }
    } else {
        arithmetic::applied3(
            update,
            moments_of(update, lights.drop_last()),
            lights.last(),
            lights.len() as u32,
        )
    }
}

/// The largest part of a colour is one of its parts, and no part is above it.
pub proof fn the_strongest_part_is_the_largest(v: Vec3)
    requires
        !v.x.nan(),
        !v.y.nan(),
        !v.z.nan(),
    ensures
        strongest(v) == v.x || strongest(v) == v.y || strongest(v) == v.z,
        v.x.at_most(strongest(v)),
        v.y.at_most(strongest(v)),
        v.z.at_most(strongest(v)),
{
}

/// The pixels of a tile come row by row, each once: that in a column and a row of the tile
/// after all of the rows above and all to its left.
pub proof fn each_pixel_of_a_tile_comes_once(tile: Tile, x: u32, y: u32)
    requires
        tile.wf(),
        tile.holds(x as int, y as int),
    ensures
        ({
            let k = (y - tile.y_start) * (tile.x_end - tile.x_start) + (x - tile.x_start);
            &&& 0 <= k < tile.area()
            &&& column_in(tile, k) == x
            &&& row_in(tile, k) == y
            &&& forall|i: int|
                0 <= i < tile.area() && #[trigger] column_in(tile, i) == x && row_in(tile, i) == y
                    ==> i == k
        }),
{
    let w = tile.x_end - tile.x_start;
    let h = tile.y_end - tile.y_start;
    let k = (y - tile.y_start) * w + (x - tile.x_start);
    vstd::arithmetic::div_mod::lemma_fundamental_div_mod_converse(
        k,
        w,
        y - tile.y_start,
        x - tile.x_start,
    );
    assert(0 <= k < w * h) by (nonlinear_arith)
        requires
            k == (y - tile.y_start) * w + (x - tile.x_start),
            0 <= y - tile.y_start < h,
            0 <= x - tile.x_start < w,
    ;
    assert forall|i: int|
        0 <= i < tile.area() && #[trigger] column_in(tile, i) == x && row_in(tile, i)
            == y implies i == k by {
        vstd::arithmetic::div_mod::lemma_fundamental_div_mod(i, w);
        assert(0 <= i / w < h) by (nonlinear_arith)
            requires
                w > 0,
                0 <= i < w * h,
                i == w * (i / w) + i % w,
                0 <= i % w < w,
        ;
        assert(w * (i / w) == (i / w) * w) by (nonlinear_arith);
    }
}

/// A pixel of a picture comes from the place of a tile's pixels that is rendered for it: its
/// column and its row are those that the place is rendered through.
pub proof fn pictures_hold_what_was_rendered_for_them(tile: Tile, x: u32, y: u32)
    requires
        tile.wf(),
        tile.holds(x as int, y as int),
    ensures
        ({
            let k = crate::tiles::chunk_place(tile, x as int, y as int);
            0 <= k < tile.area() && column_in(tile, k) == x && row_in(tile, k) == y
        }),
{
    each_pixel_of_a_tile_comes_once(tile, x, y);
}

/// A path may send as many rays as there are bounces set, counted from the camera: each
/// bounce takes one off, and none is left once they are used up.
pub proof fn every_bounce_takes_a_ray(ray: Ray, w: Walk, next: Walk, config: PathTraceConfig)
    requires
        next.state.bounce == w.state.bounce + 1,
    ensures
        rays_left(setting_out(ray), config) == config.max_bounces,
        w.state.bounce < config.max_bounces ==> rays_left(w, config) == rays_left(next, config)
            + 1,
        rays_left(w, config) == 0 <==> w.state.bounce >= config.max_bounces,
{
}

} // verus!
