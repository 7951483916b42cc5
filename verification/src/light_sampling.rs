//! Lights in the form that the path tracer samples.
use vstd::prelude::*;

use crate::arithmetic;
use crate::geometry::Vec3;
use crate::ies::IesProfile;
use crate::photometry::{AngleArithmetic, Blend};
use crate::scene::RenderLight;
use crate::single::Single;

verus! {

#[derive(Debug)]
pub enum NativeLight {
    /// `direction` points from the light to the scene.
    Sun { direction: Vec3, radiance: Vec3, angular_radius_rad: Single },
    /// A rectangle.
    Area {
        position: Vec3,
        normal: Vec3,
        u_axis: Vec3,
        v_axis: Vec3,
        width: Single,
        height: Single,
        radiance: Vec3,
    },
    /// Shines the same in every direction.
    Point { position: Vec3, intensity: Vec3 },
    /// Shines as a photometric profile says.
    Ies {
        position: Vec3,
        /// Where the luminaire points.
        forward: Vec3,
        up: Vec3,
        profile: IesProfile,
        /// Multiplier on the candela values of the profile.
        intensity_scale: Single,
        /// Tint, linear RGB.
        color: Vec3,
    },
}

/// Along x.
pub open spec fn unit_x() -> Vec3 {
    Vec3 { x: Single { bits: 0x3f80_0000 }, y: Single { bits: 0 }, z: Single { bits: 0 } }
}

/// Straight down.
pub open spec fn down() -> Vec3 {
    Vec3 { x: Single { bits: 0 }, y: Single { bits: 0xbf80_0000 }, z: Single { bits: 0 } }
}

/// Along z.
pub open spec fn unit_z() -> Vec3 {
    Vec3 { x: Single { bits: 0 }, y: Single { bits: 0 }, z: Single { bits: 0x3f80_0000 } }
}

/// A light of a scene in the form that the path tracer samples: a sun with the
/// angular radius of the real one, an area light that faces down, or a point light.
pub open spec fn native<D: Fn(Single, Single) -> Vec3, E: Fn(Single, Single) -> Vec3>(
    l: RenderLight,
    sun_direction: D,
    emission: E,
) -> NativeLight {
    match l {
        RenderLight::SunSky { azimuth_deg, elevation_deg, intensity, color_temperature_k } =>
            NativeLight::Sun {
                direction: arithmetic::applied2(sun_direction, azimuth_deg, elevation_deg),
                radiance: arithmetic::applied2(emission, color_temperature_k, intensity),
                angular_radius_rad: Single { bits: 0x3b98_5f07 },  // 0.00465
            },
        RenderLight::Area { position_mm, width_mm, height_mm, intensity, color_temperature_k } =>
            NativeLight::Area {
                position: position_mm,
                normal: down(),
                u_axis: unit_x(),
                v_axis: unit_z(),
                width: width_mm,
                height: height_mm,
                radiance: arithmetic::applied2(emission, color_temperature_k, intensity),
            },
        RenderLight::Point { position_mm, intensity, color_temperature_k } =>
            NativeLight::Point {
                position: position_mm,
                intensity: arithmetic::applied2(emission, color_temperature_k, intensity),
            },
    }
}

impl NativeLight {
    /// A light of a scene in the form that the path tracer samples. Lengths stay in
    /// the units of the scene.
    ///
    /// `sun_direction` gives the way from the sun at an azimuth and an elevation in
    /// degrees, and `emission` the color of a temperature in kelvin times an
    /// intensity.
    pub fn from_render_light<D: Fn(Single, Single) -> Vec3, E: Fn(Single, Single) -> Vec3>(
        l: &RenderLight,
        sun_direction: &D,
        emission: &E,
    ) -> (r: NativeLight)
        requires
            arithmetic::steady2(*sun_direction),
            arithmetic::steady2(*emission),
        ensures
            r == native(*l, *sun_direction, *emission),
    {
        match l {
            RenderLight::SunSky { azimuth_deg, elevation_deg, intensity, color_temperature_k } => {
                let direction: Vec3 = sun_direction(*azimuth_deg, *elevation_deg);
                let radiance: Vec3 = emission(*color_temperature_k, *intensity);
                NativeLight::Sun {
                    direction,
                    radiance,
                    angular_radius_rad: Single::from_bits(0x3b98_5f07),  // 0.00465
                }
            },
            RenderLight::Area {
                position_mm,
                width_mm,
                height_mm,
                intensity,
                color_temperature_k,
            } => {
                let radiance: Vec3 = emission(*color_temperature_k, *intensity);
                NativeLight::Area {
                    position: *position_mm,
                    normal: Vec3::new(
                        Single::zero(),
                        Single::from_bits(0xbf80_0000),
                        Single::zero(),
                    ),
                    u_axis: Vec3::new(Single::one(), Single::zero(), Single::zero()),
                    v_axis: Vec3::new(Single::zero(), Single::zero(), Single::one()),
                    width: *width_mm,
                    height: *height_mm,
                    radiance,
                }
            },
            RenderLight::Point { position_mm, intensity, color_temperature_k } => {
                let tinted: Vec3 = emission(*color_temperature_k, *intensity);
                NativeLight::Point { position: *position_mm, intensity: tinted }
            },
        }
    }
}

/// One way from a shaded point to a light.
#[derive(Clone, Copy, Debug, PartialEq)]
pub struct LightSample {
    pub direction: Vec3,
    pub distance: Single,
    pub emitted: Vec3,
    pub pdf: Single,
}

/// The numbers of one way from a shaded point to a light.
#[derive(Clone, Copy, Debug, PartialEq)]
pub struct LightReach {
    pub direction: Vec3,
    pub distance: Single,
    pub distance_squared: Single,
    /// Cosine of the angle between the way and the face of an area light.
    pub cos_at_light: Single,
    /// Cosine of the angular radius of a sun.
    pub cos_alpha: Single,
    /// Density of the way among all ways to the light.
    pub density: Single,
    /// The angles under which a luminaire sees the point: from its axis, and around it.
    pub vertical_deg: Single,
    pub horizontal_deg: Single,
}

/// Two draws for the way to a light.
#[derive(Clone, Copy, Debug, PartialEq, Eq, Structural)]
pub struct LampDraws {
    pub u1: Single,
    pub u2: Single,
}

/// Whether the photometric profile of a light, if it has one, has a value for each
/// pair of angles.
pub open spec fn readable(l: NativeLight) -> bool {
    l matches NativeLight::Ies { profile, .. } ==> profile.covered()
}

/// The arithmetic of a way to a light.
pub struct LampArithmetic<R, F, G, M, P, W, T, B> {
    /// The numbers of the way.
    pub reach: R,
    /// A color divided by the square of a distance.
    pub fade: F,
    /// A color times a brightness times a scale.
    pub glow: G,
    /// Reads a photometric profile.
    pub angles: AngleArithmetic<M, P, W, T, B>,
}

impl<
    R: Fn(&NativeLight, Vec3, LampDraws) -> LightReach,
    F: Fn(Vec3, Single) -> Vec3,
    G: Fn(Vec3, Single, Single) -> Vec3,
    M: Fn(Single, Single) -> Single,
    P: Fn(Single, Single) -> Single,
    W: Fn(Single) -> Single,
    T: Fn(Single, Single, Single) -> Single,
    B: Fn(Blend) -> Single,
> LampArithmetic<R, F, G, M, P, W, T, B> {
    /// Whether each part gives one result for one input.
    pub open spec fn is_steady(&self) -> bool {
        &&& forall|l: NativeLight, p: Vec3, d: LampDraws| #[trigger]
            self.reach.requires((&l, p, d))
        &&& forall|l: NativeLight, p: Vec3, d: LampDraws, r: LightReach, s: LightReach| #[trigger]
            self.reach.ensures((&l, p, d), r) && #[trigger] self.reach.ensures((&l, p, d), s) ==> r
                == s
        &&& arithmetic::steady2(self.fade)
        &&& arithmetic::steady3(self.glow)
        &&& self.angles.wf()
    }

    /// The numbers of a way from a point to a light.
    pub open spec fn reach_of(&self, l: NativeLight, p: Vec3, d: LampDraws) -> LightReach {
        choose|r: LightReach| self.reach.ensures((&l, p, d), r)
    }

    /// What a way to a light carries: a sun is at a distance of 10000000000 and its
    /// density is 1 where its disk has no width; an area light shines on one side only;
    /// the light of the others fades with distance, and their density is 1. A
    /// luminaire's is as bright as the candela that its profile gives toward the point.
    pub open spec fn carried(&self, l: NativeLight, way: LightReach, candela: Single) -> Option<
        LightSample,
    > {
        let one = Single { bits: 0x3f80_0000 };
        match l {
            NativeLight::Sun { radiance, .. } => Some(
                LightSample {
                    direction: way.direction,
                    distance: Single { bits: 0x5015_02f9 },  // 10000000000
                    emitted: radiance,
                    pdf: if one.at_most(way.cos_alpha) {
                        one
                    } else {
                        way.density
                    },
                },
            ),
            NativeLight::Area { radiance, .. } => if way.cos_at_light.at_most(
                Single { bits: 0 },
            ) {
                None
            } else {
                Some(
                    LightSample {
                        direction: way.direction,
                        distance: way.distance,
                        emitted: radiance,
                        pdf: way.density,
                    },
                )
            },
            NativeLight::Point { intensity, .. } => Some(
                LightSample {
                    direction: way.direction,
                    distance: way.distance,
                    emitted: arithmetic::applied2(self.fade, intensity, way.distance_squared),
                    pdf: one,
                },
            ),
            NativeLight::Ies { intensity_scale, color, .. } => Some(
                LightSample {
                    direction: way.direction,
                    distance: way.distance,
                    emitted: arithmetic::applied2(
                        self.fade,
                        arithmetic::applied3(self.glow, color, candela, intensity_scale),
                        way.distance_squared,
                    ),
                    pdf: one,
                },
            ),
        }
    }

    /// Whether `r` is what a way from a point to a light carries.
    pub open spec fn samples(
        &self,
        l: NativeLight,
        from: Vec3,
        u: LampDraws,
        r: Option<LightSample>,
    ) -> bool {
        let way = self.reach_of(l, from, u);
        match l {
            NativeLight::Ies { profile, .. } => exists|candela: Single| #[trigger]
                self.angles.candela_toward(
                    profile@,
                    way.vertical_deg,
                    way.horizontal_deg,
                    candela,
                ) && r == self.carried(l, way, candela),
            _ => r == self.carried(l, way, Single { bits: 0 }),
        }
    }
}

/// What a way from a point to a light carries.
pub fn sample_light<
    R: Fn(&NativeLight, Vec3, LampDraws) -> LightReach,
    F: Fn(Vec3, Single) -> Vec3,
    G: Fn(Vec3, Single, Single) -> Vec3,
    M: Fn(Single, Single) -> Single,
    P: Fn(Single, Single) -> Single,
    W: Fn(Single) -> Single,
    T: Fn(Single, Single, Single) -> Single,
    B: Fn(Blend) -> Single,
>(
    light: &NativeLight,
    from: Vec3,
    u: LampDraws,
    numbers: &LampArithmetic<R, F, G, M, P, W, T, B>,
) -> (r: Option<LightSample>)
    requires
        readable(*light),
        numbers.is_steady(),
    ensures
        numbers.samples(*light, from, u, r),
{
    let way: LightReach = (numbers.reach)(light, from, u);
    match light {
        NativeLight::Sun { direction: _, radiance, angular_radius_rad: _ } => {
            let pdf: Single = if Single::one().le(way.cos_alpha) {
                Single::one()
            } else {
                way.density
            };
            Some(
                LightSample {
                    direction: way.direction,
                    distance: Single::from_bits(0x5015_02f9),  // 10000000000
                    emitted: *radiance,
                    pdf,
                },
            )
        },
        NativeLight::Area { radiance, .. } => if way.cos_at_light.le(Single::zero()) {
            None
        } else {
            Some(
                LightSample {
                    direction: way.direction,
                    distance: way.distance,
                    emitted: *radiance,
                    pdf: way.density,
                },
            )
        },
        NativeLight::Point { position: _, intensity } => {
            let emitted: Vec3 = (numbers.fade)(*intensity, way.distance_squared);
            Some(
                LightSample {
                    direction: way.direction,
                    distance: way.distance,
                    emitted,
                    pdf: Single::one(),
                },
            )
        },
        NativeLight::Ies { profile, intensity_scale, color, .. } => {
            let candela: Single = profile.candela_at(
                way.vertical_deg,
                way.horizontal_deg,
                &numbers.angles,
            );
            let bright: Vec3 = (numbers.glow)(*color, candela, *intensity_scale);
            let emitted: Vec3 = (numbers.fade)(bright, way.distance_squared);
            Some(
                LightSample {
                    direction: way.direction,
                    distance: way.distance,
                    emitted,
                    pdf: Single::one(),
                },
            )
        },
    }
}

/// The squares of two densities, added, and the share of the first.
#[derive(Clone, Copy, Debug, PartialEq)]
pub struct Squares {
    pub sum: Single,
    pub quotient: Single,
}

/// The weight that squared densities stand for: nothing where there is no density
/// at all.
pub open spec fn weight_of(squares: Squares) -> Single {
    if squares.sum.at_most(Single { bits: 0 }) {
        Single { bits: 0 }
    } else {
        squares.quotient
    }
}

/// The weight of one density against another.
pub fn power_heuristic<S: Fn(Single, Single) -> Squares>(
    pdf_a: Single,
    pdf_b: Single,
    squares: &S,
) -> (r: Single)
    requires
        arithmetic::steady2(*squares),
    ensures
        r == weight_of(arithmetic::applied2(*squares, pdf_a, pdf_b)),
{
    let s: Squares = squares(pdf_a, pdf_b);
    if s.sum.le(Single::zero()) {
        Single::zero()
    } else {
        s.quotient
    }
}

/// Whether a light is met by next-event estimation alone: all but area lights.
pub open spec fn delta(l: NativeLight) -> bool {
    !(l is Area)
}

/// Whether a light is met by next-event estimation alone.
pub fn is_delta(light: &NativeLight) -> (r: bool)
    ensures
        r == delta(*light),
{
    match light {
        NativeLight::Area { .. } => false,
        _ => true,
    }
}

/// Only an area light can be unseen from a point, and only from behind.
pub proof fn lights_are_seen_except_from_behind<
    R: Fn(&NativeLight, Vec3, LampDraws) -> LightReach,
    F: Fn(Vec3, Single) -> Vec3,
    G: Fn(Vec3, Single, Single) -> Vec3,
    M: Fn(Single, Single) -> Single,
    P: Fn(Single, Single) -> Single,
    W: Fn(Single) -> Single,
    T: Fn(Single, Single, Single) -> Single,
    B: Fn(Blend) -> Single,
>(
    numbers: LampArithmetic<R, F, G, M, P, W, T, B>,
    l: NativeLight,
    from: Vec3,
    u: LampDraws,
    r: Option<LightSample>,
)
    requires
        numbers.samples(l, from, u, r),
    ensures
        r is None <==> l is Area && numbers.reach_of(l, from, u).cos_at_light.at_most(
            Single { bits: 0 },
        ),
{
}

/// The lights of a scene keep their places and sizes, and shine in the color of their own
/// temperature by their own intensity: a sun from its own azimuth and elevation, an area
/// light down from its rectangle, a point light all around.
pub proof fn lights_keep_their_place_and_color<
    D: Fn(Single, Single) -> Vec3,
    E: Fn(Single, Single) -> Vec3,
>(l: RenderLight, sun_direction: D, emission: E)
    ensures
        match l {
            RenderLight::SunSky { azimuth_deg, elevation_deg, intensity, color_temperature_k } => {
                &&& native(l, sun_direction, emission) matches NativeLight::Sun {
                    direction,
                    radiance,
                    angular_radius_rad,
                }
                &&& direction == arithmetic::applied2(sun_direction, azimuth_deg, elevation_deg)
                &&& radiance == arithmetic::applied2(emission, color_temperature_k, intensity)
                &&& angular_radius_rad.bits == 0x3b98_5f07
            },
            RenderLight::Area {
                position_mm,
                width_mm,
                height_mm,
                intensity,
                color_temperature_k,
            } => {
                &&& native(l, sun_direction, emission) matches NativeLight::Area {
                    position,
                    normal,
                    u_axis,
                    v_axis,
                    width,
                    height,
                    radiance,
                }
                &&& position == position_mm
                &&& width == width_mm
                &&& height == height_mm
                &&& radiance == arithmetic::applied2(emission, color_temperature_k, intensity)
                &&& normal.x.bits == 0 && normal.y.bits == 0xbf80_0000 && normal.z.bits == 0
                &&& u_axis.x.bits == 0x3f80_0000 && u_axis.y.bits == 0 && u_axis.z.bits == 0
                &&& v_axis.x.bits == 0 && v_axis.y.bits == 0 && v_axis.z.bits == 0x3f80_0000
            },
            RenderLight::Point { position_mm, intensity: strength, color_temperature_k } => {
                &&& native(l, sun_direction, emission) matches NativeLight::Point {
                    position,
                    intensity,
                }
                &&& position == position_mm
                &&& intensity == arithmetic::applied2(emission, color_temperature_k, strength)
            },
        },
{
}

impl<
    R: Fn(&NativeLight, Vec3, LampDraws) -> LightReach,
    F: Fn(Vec3, Single) -> Vec3,
    G: Fn(Vec3, Single, Single) -> Vec3,
    M: Fn(Single, Single) -> Single,
    P: Fn(Single, Single) -> Single,
    W: Fn(Single) -> Single,
    T: Fn(Single, Single, Single) -> Single,
    B: Fn(Blend) -> Single,
> LampArithmetic<R, F, G, M, P, W, T, B> {
    /// A way to a light leads where it was reached, as far as it was reached; a sun is far
    /// beyond everything. Suns and area lights send their radiance at the density of the
    /// way, a sun without width at density 1; the light of points and luminaires fades with
    /// the square of the distance, at density 1.
    pub proof fn ways_carry_what_their_light_sends(
        &self,
        l: NativeLight,
        from: Vec3,
        u: LampDraws,
        s: LightSample,
    )
        requires
            self.samples(l, from, u, Some(s)),
        ensures
            ({
                let way = self.reach_of(l, from, u);
                let one = Single { bits: 0x3f80_0000 };
                &&& s.direction == way.direction
                &&& match l {
                    NativeLight::Sun { radiance, .. } => {
                        &&& s.emitted == radiance
                        &&& s.distance.bits == 0x5015_02f9
                        &&& way.cos_alpha.below(one) ==> s.pdf == way.density
                        &&& one.at_most(way.cos_alpha) ==> s.pdf == one
                    },
                    NativeLight::Area { radiance, .. } => {
                        &&& s.emitted == radiance
                        &&& s.distance == way.distance
                        &&& s.pdf == way.density
                        &&& !way.cos_at_light.at_most(Single { bits: 0 })
                    },
                    NativeLight::Point { intensity, .. } => {
                        &&& s.emitted == arithmetic::applied2(
                            self.fade,
                            intensity,
                            way.distance_squared,
                        )
                        &&& s.distance == way.distance
                        &&& s.pdf == one
                    },
                    NativeLight::Ies { profile, intensity_scale, color, .. } => {
                        &&& s.distance == way.distance
                        &&& s.pdf == one
                        &&& exists|candela: Single| #[trigger]
                            self.angles.candela_toward(
                                profile@,
                                way.vertical_deg,
                                way.horizontal_deg,
                                candela,
                            ) && s.emitted == arithmetic::applied2(
                                self.fade,
                                arithmetic::applied3(self.glow, color, candela, intensity_scale),
                                way.distance_squared,
                            )
                    },
                }
            }),
    {
    }

    /// A luminaire that glows toward a point as a point light does lights it as that light
    /// would, reached on the same way.
    pub proof fn luminaires_light_like_points(
        &self,
        l: NativeLight,
        p: NativeLight,
        way: LightReach,
        candela: Single,
    )
        requires
            l is Ies,
            p is Point,
            arithmetic::applied3(self.glow, l->Ies_color, candela, l->Ies_intensity_scale)
                == p->Point_intensity,
        ensures
            self.carried(l, way, candela) == self.carried(p, way, candela),
    {
    }
}

/// The weight of one density against another is its share where the two have a sum, and
/// nothing where they have none. Only area lights are weighed.
pub proof fn weights_are_shares(squares: Squares, l: NativeLight)
    ensures
        (Single { bits: 0 }).below(squares.sum) ==> weight_of(squares) == squares.quotient,
        squares.sum.at_most(Single { bits: 0 }) ==> weight_of(squares).bits == 0,
        delta(l) <==> l is Sun || l is Point || l is Ies,
{
}

} // verus!
