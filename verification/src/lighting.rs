//! Lighting presets: six bundled moods and what users save beside them.
use vstd::prelude::*;

use crate::arithmetic;
use crate::catalog::Catalog;
use crate::geometry::Vec3;
use crate::scene::RenderLight;
use crate::single::Single;
use crate::text;

pub use crate::ies::{IesParseError, IesPhotometricType, IesProfile};
pub use crate::photometry::IesLookupTexture;

verus! {

/// Bundled lighting moods.
#[derive(Clone, Copy, Debug, PartialEq, Eq, Hash, Structural)]
pub enum LightingPresetKind {
    WarmEvening,
    Daylight,
    Studio,
    GoldenHour,
    BlueTwilight,
    Overcast,
}

/// Sky parameters of a preset.
#[derive(Clone, Copy, Debug, PartialEq, Eq, Structural)]
pub struct SkyParams {
    /// Overall strength.
    pub strength: Single,
    /// Tint, linear RGB.
    pub color: Vec3,
    /// Atmospheric haze; higher values soften shadows.
    pub turbidity: Single,
}

/// Neutral overcast sky: strength 1, mid-grey tint, light haze of 2.
pub open spec fn plain_sky() -> SkyParams {
    SkyParams {
        strength: Single { bits: 0x3f80_0000 },  // 1
        color: Vec3 {
            x: Single { bits: 0x3f00_0000 },  // 0.5
            y: Single { bits: 0x3f00_0000 },  // 0.5
            z: Single { bits: 0x3f00_0000 },  // 0.5
        },
        turbidity: Single { bits: 0x4000_0000 },  // 2
    }
}

impl Default for SkyParams {
    fn default() -> (r: SkyParams)
        ensures
            r == plain_sky(),
    {
        SkyParams {
            strength: Single::one(),
            color: Vec3::splat(Single { bits: 0x3f00_0000 }),  // 0.5
            turbidity: Single { bits: 0x4000_0000 },  // 2
        }
    }
}

/// A complete lighting setup.
#[derive(Debug, PartialEq)]
pub struct LightingPreset {
    pub id: String,
    pub display_name: String,
    pub kind: Option<LightingPresetKind>,
    /// Sun azimuth in degrees.
    pub sun_azimuth_deg: Single,
    /// Sun elevation above the horizon in degrees.
    pub sun_elevation_deg: Single,
    pub sun_intensity: Single,
    /// Sun color temperature in Kelvin.
    pub sun_color_temperature_k: Single,
    pub sky: SkyParams,
    pub ambient_strength: Single,
    /// Accent and fill lights, without the sun.
    pub accent_lights: Vec<RenderLight>,
}

/// What a lighting setup holds.
pub struct LightingPresetView {
    pub id: Seq<char>,
    pub display_name: Seq<char>,
    pub kind: Option<LightingPresetKind>,
    pub sun_azimuth_deg: Single,
    pub sun_elevation_deg: Single,
    pub sun_intensity: Single,
    pub sun_color_temperature_k: Single,
    pub sky: SkyParams,
    pub ambient_strength: Single,
    pub accent_lights: Seq<RenderLight>,
}

impl View for LightingPreset {
    type V = LightingPresetView;

    open spec fn view(&self) -> LightingPresetView {
        LightingPresetView {
            id: self.id@,
            display_name: self.display_name@,
            kind: self.kind,
            sun_azimuth_deg: self.sun_azimuth_deg,
            sun_elevation_deg: self.sun_elevation_deg,
            sun_intensity: self.sun_intensity,
            sun_color_temperature_k: self.sun_color_temperature_k,
            sky: self.sky,
            ambient_strength: self.ambient_strength,
            accent_lights: self.accent_lights@,
        }
    }
}

impl Clone for LightingPreset {
    fn clone(&self) -> (r: LightingPreset)
        ensures
            r@ == self@,
    {
        let accent_lights: Vec<RenderLight> = self.accent_lights.clone();
        proof {
            assert(accent_lights@ =~= self.accent_lights@);
        }
        LightingPreset {
            id: self.id.clone(),
            display_name: self.display_name.clone(),
            kind: self.kind,
            sun_azimuth_deg: self.sun_azimuth_deg,
            sun_elevation_deg: self.sun_elevation_deg,
            sun_intensity: self.sun_intensity,
            sun_color_temperature_k: self.sun_color_temperature_k,
            sky: self.sky,
            ambient_strength: self.ambient_strength,
            accent_lights,
        }
    }
}

#[derive(Clone, Copy, Debug, PartialEq, Eq, Structural)]
pub enum LightingValidationError {
    /// The sun's intensity is negative or not finite.
    NegativeIntensity,
    /// The color temperature is outside 1000..=12000 K.
    ColorTemperatureOutOfRange(Single),
    /// Nothing in the preset gives light.
    ZeroEnergy,
}

/// The id of a mood.
pub open spec fn kind_id(kind: LightingPresetKind) -> Seq<char> {
    match kind {
        LightingPresetKind::WarmEvening => "warm_evening"@,
        LightingPresetKind::Daylight => "daylight"@,
        LightingPresetKind::Studio => "studio"@,
        LightingPresetKind::GoldenHour => "golden_hour"@,
        LightingPresetKind::BlueTwilight => "blue_twilight"@,
        LightingPresetKind::Overcast => "overcast"@,
    }
}

/// The name of a mood as it is shown.
pub open spec fn kind_name(kind: LightingPresetKind) -> Seq<char> {
    match kind {
        LightingPresetKind::WarmEvening => "Warm Evening"@,
        LightingPresetKind::Daylight => "Daylight"@,
        LightingPresetKind::Studio => "Studio"@,
        LightingPresetKind::GoldenHour => "Golden Hour"@,
        LightingPresetKind::BlueTwilight => "Blue Twilight"@,
        LightingPresetKind::Overcast => "Overcast"@,
    }
}

/// Every mood, in the order they are offered.
pub open spec fn every_kind() -> Seq<LightingPresetKind> {
    seq![
        LightingPresetKind::WarmEvening,
        LightingPresetKind::Daylight,
        LightingPresetKind::Studio,
        LightingPresetKind::GoldenHour,
        LightingPresetKind::BlueTwilight,
        LightingPresetKind::Overcast,
    ]
}

/// The mood with an id.
pub open spec fn kind_with_id(id: Seq<char>) -> Option<LightingPresetKind> {
    if id == "warm_evening"@ {
        Some(LightingPresetKind::WarmEvening)
    } else if id == "daylight"@ {
        Some(LightingPresetKind::Daylight)
    } else if id == "studio"@ {
        Some(LightingPresetKind::Studio)
    } else if id == "golden_hour"@ {
        Some(LightingPresetKind::GoldenHour)
    } else if id == "blue_twilight"@ {
        Some(LightingPresetKind::BlueTwilight)
    } else if id == "overcast"@ {
        Some(LightingPresetKind::Overcast)
    } else {
        None
    }
}

/// The setup of a mood.
pub open spec fn bundled(kind: LightingPresetKind) -> LightingPresetView {
    match kind {
        LightingPresetKind::WarmEvening => LightingPresetView {
            id: "warm_evening"@,
            display_name: "Warm Evening"@,
            kind: Some(LightingPresetKind::WarmEvening),
            sun_azimuth_deg: Single { bits: 0x438c_0000 },  // 280
            sun_elevation_deg: Single { bits: 0x4100_0000 },  // 8
            sun_intensity: Single { bits: 0x3fc0_0000 },  // 1.5
            sun_color_temperature_k: Single { bits: 0x4548_0000 },  // 3200
            sky: SkyParams {
                strength: Single { bits: 0x3e4c_cccd },  // 0.2
                color: Vec3 {
                    x: Single { bits: 0x3f73_3333 },  // 0.95
                    y: Single { bits: 0x3f0c_cccd },  // 0.55
                    z: Single { bits: 0x3e99_999a },  // 0.3
                },
                turbidity: Single { bits: 0x4060_0000 },  // 3.5
            },
            ambient_strength: Single { bits: 0x3e80_0000 },  // 0.25
            accent_lights: seq![
                RenderLight::Area {
                    position_mm: Vec3 {
                        x: Single { bits: 0x0000_0000 },  // 0
                        y: Single { bits: 0x451c_4000 },  // 2500
                        z: Single { bits: 0x453b_8000 },  // 3000
                    },
                    width_mm: Single { bits: 0x44fa_0000 },  // 2000
                    height_mm: Single { bits: 0x44bb_8000 },  // 1500
                    intensity: Single { bits: 0x4270_0000 },  // 60
                    color_temperature_k: Single { bits: 0x4535_4000 },  // 2900
                },
            ],
        },
        LightingPresetKind::Daylight => LightingPresetView {
            id: "daylight"@,
            display_name: "Daylight"@,
            kind: Some(LightingPresetKind::Daylight),
            sun_azimuth_deg: Single { bits: 0x4316_0000 },  // 150
            sun_elevation_deg: Single { bits: 0x425c_0000 },  // 55
            sun_intensity: Single { bits: 0x40a0_0000 },  // 5
            sun_color_temperature_k: Single { bits: 0x45cb_2000 },  // 6500
            sky: SkyParams {
                strength: Single { bits: 0x3f80_0000 },  // 1
                color: Vec3 {
                    x: Single { bits: 0x3f26_6666 },  // 0.65
                    y: Single { bits: 0x3f47_ae14 },  // 0.78
                    z: Single { bits: 0x3f73_3333 },  // 0.95
                },
                turbidity: Single { bits: 0x4000_0000 },  // 2
            },
            ambient_strength: Single { bits: 0x3f00_0000 },  // 0.5
            accent_lights: Seq::empty(),
        },
        LightingPresetKind::Studio => LightingPresetView {
            id: "studio"@,
            display_name: "Studio"@,
            kind: Some(LightingPresetKind::Studio),
            sun_azimuth_deg: Single { bits: 0x0000_0000 },  // 0
            sun_elevation_deg: Single { bits: 0x0000_0000 },  // 0
            sun_intensity: Single { bits: 0x3dcc_cccd },  // 0.1
            sun_color_temperature_k: Single { bits: 0x45ab_e000 },  // 5500
            sky: SkyParams {
                strength: Single { bits: 0x0000_0000 },  // 0
                color: Vec3 {
                    x: Single { bits: 0x3e4c_cccd },  // 0.2
                    y: Single { bits: 0x3e4c_cccd },  // 0.2
                    z: Single { bits: 0x3e4c_cccd },  // 0.2
                },
                turbidity: Single { bits: 0x3f80_0000 },  // 1
            },
            ambient_strength: Single { bits: 0x3dcc_cccd },  // 0.1
            accent_lights: seq![
                RenderLight::Area {
                    position_mm: Vec3 {
                        x: Single { bits: 0xc51c_4000 },  // -2500
                        y: Single { bits: 0x44bb_8000 },  // 1500
                        z: Single { bits: 0x451c_4000 },  // 2500
                    },
                    width_mm: Single { bits: 0x451c_4000 },  // 2500
                    height_mm: Single { bits: 0x451c_4000 },  // 2500
                    intensity: Single { bits: 0x4448_0000 },  // 800
                    color_temperature_k: Single { bits: 0x45ab_e000 },  // 5500
                },
                RenderLight::Area {
                    position_mm: Vec3 {
                        x: Single { bits: 0x451c_4000 },  // 2500
                        y: Single { bits: 0x44bb_8000 },  // 1500
                        z: Single { bits: 0x451c_4000 },  // 2500
                    },
                    width_mm: Single { bits: 0x451c_4000 },  // 2500
                    height_mm: Single { bits: 0x451c_4000 },  // 2500
                    intensity: Single { bits: 0x43c8_0000 },  // 400
                    color_temperature_k: Single { bits: 0x45ab_e000 },  // 5500
                },
                RenderLight::Point {
                    position_mm: Vec3 {
                        x: Single { bits: 0x0000_0000 },  // 0
                        y: Single { bits: 0x455a_c000 },  // 3500
                        z: Single { bits: 0xc4bb_8000 },  // -1500
                    },
                    intensity: Single { bits: 0x4348_0000 },  // 200
                    color_temperature_k: Single { bits: 0x45c1_c000 },  // 6200
                },
            ],
        },
        LightingPresetKind::GoldenHour => LightingPresetView {
            id: "golden_hour"@,
            display_name: "Golden Hour"@,
            kind: Some(LightingPresetKind::GoldenHour),
            sun_azimuth_deg: Single { bits: 0x437a_0000 },  // 250
            sun_elevation_deg: Single { bits: 0x4140_0000 },  // 12
            sun_intensity: Single { bits: 0x4080_0000 },  // 4
            sun_color_temperature_k: Single { bits: 0x456d_8000 },  // 3800
            sky: SkyParams {
                strength: Single { bits: 0x3f33_3333 },  // 0.7
                color: Vec3 {
                    x: Single { bits: 0x3f73_3333 },  // 0.95
                    y: Single { bits: 0x3f26_6666 },  // 0.65
                    z: Single { bits: 0x3ecc_cccd },  // 0.4
                },
                turbidity: Single { bits: 0x40a0_0000 },  // 5
            },
            ambient_strength: Single { bits: 0x3ecc_cccd },  // 0.4
            accent_lights: Seq::empty(),
        },
        LightingPresetKind::BlueTwilight => LightingPresetView {
            id: "blue_twilight"@,
            display_name: "Blue Twilight"@,
            kind: Some(LightingPresetKind::BlueTwilight),
            sun_azimuth_deg: Single { bits: 0x42a0_0000 },  // 80
            sun_elevation_deg: Single { bits: 0xc0a0_0000 },  // -5
            sun_intensity: Single { bits: 0x3f00_0000 },  // 0.5
            sun_color_temperature_k: Single { bits: 0x460c_a000 },  // 9000
            sky: SkyParams {
                strength: Single { bits: 0x3ecc_cccd },  // 0.4
                color: Vec3 {
                    x: Single { bits: 0x3e4c_cccd },  // 0.2
                    y: Single { bits: 0x3eb3_3333 },  // 0.35
                    z: Single { bits: 0x3f33_3333 },  // 0.7
                },
                turbidity: Single { bits: 0x3fc0_0000 },  // 1.5
            },
            ambient_strength: Single { bits: 0x3e99_999a },  // 0.3
            accent_lights: seq![
                RenderLight::Point {
                    position_mm: Vec3 {
                        x: Single { bits: 0x44bb_8000 },  // 1500
                        y: Single { bits: 0x44e1_0000 },  // 1800
                        z: Single { bits: 0x44bb_8000 },  // 1500
                    },
                    intensity: Single { bits: 0x4270_0000 },  // 60
                    color_temperature_k: Single { bits: 0x4528_c000 },  // 2700
                },
            ],
        },
        LightingPresetKind::Overcast => LightingPresetView {
            id: "overcast"@,
            display_name: "Overcast"@,
            kind: Some(LightingPresetKind::Overcast),
            sun_azimuth_deg: Single { bits: 0x4316_0000 },  // 150
            sun_elevation_deg: Single { bits: 0x420c_0000 },  // 35
            sun_intensity: Single { bits: 0x3f99_999a },  // 1.2
            sun_color_temperature_k: Single { bits: 0x45d1_6000 },  // 6700
            sky: SkyParams {
                strength: Single { bits: 0x3fb3_3333 },  // 1.4
                color: Vec3 {
                    x: Single { bits: 0x3f47_ae14 },  // 0.78
                    y: Single { bits: 0x3f4c_cccd },  // 0.8
                    z: Single { bits: 0x3f59_999a },  // 0.85
                },
                turbidity: Single { bits: 0x4100_0000 },  // 8
            },
            ambient_strength: Single { bits: 0x3f26_6666 },  // 0.65
            accent_lights: Seq::empty(),
        },
    }
}

impl LightingPresetKind {
    pub fn id(self) -> (r: &'static str)
        ensures
            r@ == kind_id(self),
    {
        match self {
            LightingPresetKind::WarmEvening => "warm_evening",
            LightingPresetKind::Daylight => "daylight",
            LightingPresetKind::Studio => "studio",
            LightingPresetKind::GoldenHour => "golden_hour",
            LightingPresetKind::BlueTwilight => "blue_twilight",
            LightingPresetKind::Overcast => "overcast",
        }
    }

    pub fn display_name(self) -> (r: &'static str)
        ensures
            r@ == kind_name(self),
    {
        match self {
            LightingPresetKind::WarmEvening => "Warm Evening",
            LightingPresetKind::Daylight => "Daylight",
            LightingPresetKind::Studio => "Studio",
            LightingPresetKind::GoldenHour => "Golden Hour",
            LightingPresetKind::BlueTwilight => "Blue Twilight",
            LightingPresetKind::Overcast => "Overcast",
        }
    }

    pub fn all() -> (r: [LightingPresetKind; 6])
        ensures
            r@ == every_kind(),
    {
        let r = [
            LightingPresetKind::WarmEvening,
            LightingPresetKind::Daylight,
            LightingPresetKind::Studio,
            LightingPresetKind::GoldenHour,
            LightingPresetKind::BlueTwilight,
            LightingPresetKind::Overcast,
        ];
        proof {
            assert(r@ =~= every_kind());
        }
        r
    }

    /// The mood with an id.
    pub fn from_id(id: &str) -> (r: Option<LightingPresetKind>)
        ensures
            r == kind_with_id(id@),
    {
        if text::same_text(id, "warm_evening") {
            Some(LightingPresetKind::WarmEvening)
        } else if text::same_text(id, "daylight") {
            Some(LightingPresetKind::Daylight)
        } else if text::same_text(id, "studio") {
            Some(LightingPresetKind::Studio)
        } else if text::same_text(id, "golden_hour") {
            Some(LightingPresetKind::GoldenHour)
        } else if text::same_text(id, "blue_twilight") {
            Some(LightingPresetKind::BlueTwilight)
        } else if text::same_text(id, "overcast") {
            Some(LightingPresetKind::Overcast)
        } else {
            None
        }
    }
}

/// The lights of a setup: the sun, then the accents.
pub open spec fn lights_of(p: LightingPresetView) -> Seq<RenderLight> {
    seq![
        RenderLight::SunSky {
            azimuth_deg: p.sun_azimuth_deg,
            elevation_deg: p.sun_elevation_deg,
            intensity: p.sun_intensity,
            color_temperature_k: p.sun_color_temperature_k,
        },
    ] + p.accent_lights
}

/// What is wrong with a setup whose lights, sky and ambient add up to `total`.
pub open spec fn verdict(p: LightingPresetView, total: Single) -> Result<
    (),
    LightingValidationError,
> {
    let zero = Single { bits: 0 };
    let t = p.sun_color_temperature_k;
    if !p.sun_intensity.finite() || p.sun_intensity.below(zero) {
        Err(LightingValidationError::NegativeIntensity)
    } else if !(Single { bits: 0x447a_0000 }.at_most(t) && t.at_most(  // 1000
        Single { bits: 0x463b_8000 },  // 12000
    )) {
        Err(LightingValidationError::ColorTemperatureOutOfRange(t))
    } else if total.at_most(zero) {
        Err(LightingValidationError::ZeroEnergy)
    } else {
        Ok(())
    }
}

/// The intensity of a light.
pub open spec fn intensity_of(l: RenderLight) -> Single {
    match l {
        RenderLight::SunSky { intensity, .. } => intensity,
        RenderLight::Area { intensity, .. } => intensity,
        RenderLight::Point { intensity, .. } => intensity,
    }
}

/// The intensities of lights, added up from 0.
pub open spec fn intensities<P: Fn(Single, Single) -> Single>(
    plus: P,
    lights: Seq<RenderLight>,
) -> Single
    decreases lights.len(),
{
    if lights.len() == 0 {
        Single { bits: 0 }
    } else {
        arithmetic::applied2(
            plus,
            intensities(plus, lights.drop_last()),
            intensity_of(lights.last()),
        )
    }
}

/// What a setup gives: the sun, the accents, the sky and the ambient light, added up
/// in this order.
pub open spec fn energy<P: Fn(Single, Single) -> Single>(plus: P, p: LightingPresetView) -> Single {
    arithmetic::applied2(
        plus,
        arithmetic::applied2(
            plus,
            arithmetic::applied2(plus, p.sun_intensity, intensities(plus, p.accent_lights)),
            p.sky.strength,
        ),
        p.ambient_strength,
    )
}

impl LightingPreset {
    /// The lights the renderer takes: the sun first, then every accent.
    pub fn build_lights(&self) -> (r: Vec<RenderLight>)
        ensures
            r@ == lights_of(self@),
    {
        let mut out: Vec<RenderLight> = Vec::new();
        out.push(
            RenderLight::SunSky {
                azimuth_deg: self.sun_azimuth_deg,
                elevation_deg: self.sun_elevation_deg,
                intensity: self.sun_intensity,
                color_temperature_k: self.sun_color_temperature_k,
            },
        );
        let mut i: usize = 0;
        while i < self.accent_lights.len()
            invariant
                i <= self.accent_lights.len(),
                out@.len() == i + 1,
                out@[0] == lights_of(self@)[0],
                forall|j: int| 0 <= j < i ==> out@[j + 1] == #[trigger] self.accent_lights@[j],
            decreases self.accent_lights.len() - i,
        {
            out.push(self.accent_lights[i]);
            i = i + 1;
        }
        proof {
            assert forall|j: int| 0 <= j < out@.len() implies out@[j] == lights_of(self@)[j] by {
                if j > 0 {
                    assert(out@[j - 1 + 1] == self.accent_lights@[j - 1]);
                }
            }
            assert(out@ =~= lights_of(self@));
        }
        out
    }

    /// What the setup gives, added up.
    fn total_energy<P: Fn(Single, Single) -> Single>(&self, plus: &P) -> (r: Single)
        requires
            arithmetic::steady2(*plus),
        ensures
            r == energy(*plus, self@),
    {
        let mut accents: Single = Single::zero();
        let mut i: usize = 0;
        proof {
            assert(self.accent_lights@.take(0) =~= Seq::empty());
        }
        while i < self.accent_lights.len()
            invariant
                i <= self.accent_lights@.len(),
                arithmetic::steady2(*plus),
                accents == intensities(*plus, self.accent_lights@.take(i as int)),
            decreases self.accent_lights@.len() - i,
        {
            let intensity: Single = match &self.accent_lights[i] {
                RenderLight::SunSky { intensity, .. } => *intensity,
                RenderLight::Area { intensity, .. } => *intensity,
                RenderLight::Point { intensity, .. } => *intensity,
            };
            accents = plus(accents, intensity);
            i = i + 1;
            proof {
                let longer = self.accent_lights@.take(i as int);
                assert(longer.drop_last() =~= self.accent_lights@.take(i - 1));
            }
        }
        proof {
            assert(self.accent_lights@.take(i as int) =~= self.accent_lights@);
        }
        let lamps: Single = plus(self.sun_intensity, accents);
        let outside: Single = plus(lamps, self.sky.strength);
        plus(outside, self.ambient_strength)
    }

    /// Refuses a setup whose sun is negative or of no natural colour, or that gives
    /// no light at all. Sky and ambient light count. `plus` is the sum of two
    /// numbers.
    pub fn validate<P: Fn(Single, Single) -> Single>(&self, plus: &P) -> (r: Result<
        (),
        LightingValidationError,
    >)
        requires
            arithmetic::steady2(*plus),
        ensures
            r == verdict(self@, energy(*plus, self@)),
    {
        let zero: Single = Single::zero();
        if !self.sun_intensity.is_finite() || self.sun_intensity.lt(zero) {
            return Err(LightingValidationError::NegativeIntensity);
        }
        let t: Single = self.sun_color_temperature_k;
        if !(Single::from_bits(0x447a_0000).le(t) && t.le(Single::from_bits(0x463b_8000))) {
            return Err(LightingValidationError::ColorTemperatureOutOfRange(t));
        }
        if self.total_energy(plus).le(zero) {
            return Err(LightingValidationError::ZeroEnergy);
        }
        Ok(())
    }

    /// The bundled preset of a mood.
    pub fn from_kind(kind: LightingPresetKind) -> (r: LightingPreset)
        ensures
            r@ == bundled(kind),
    {
        match kind {
            LightingPresetKind::WarmEvening => LightingPreset::warm_evening(),
            LightingPresetKind::Daylight => LightingPreset::daylight(),
            LightingPresetKind::Studio => LightingPreset::studio(),
            LightingPresetKind::GoldenHour => LightingPreset::golden_hour(),
            LightingPresetKind::BlueTwilight => LightingPreset::blue_twilight(),
            LightingPresetKind::Overcast => LightingPreset::overcast(),
        }
    }

    /// Low western sun at 280 degrees and 3200 K over one warm area light.
    pub fn warm_evening() -> (r: LightingPreset)
        ensures
            r@ == bundled(LightingPresetKind::WarmEvening),
    {
        let mut accent_lights: Vec<RenderLight> = Vec::new();
        accent_lights.push(RenderLight::Area {
            position_mm: Vec3 {
                x: Single { bits: 0x0000_0000 },  // 0
                y: Single { bits: 0x451c_4000 },  // 2500
                z: Single { bits: 0x453b_8000 },  // 3000
            },
            width_mm: Single { bits: 0x44fa_0000 },  // 2000
            height_mm: Single { bits: 0x44bb_8000 },  // 1500
            intensity: Single { bits: 0x4270_0000 },  // 60
            color_temperature_k: Single { bits: 0x4535_4000 },  // 2900
        });
        let r = LightingPreset {
            id: "warm_evening".to_owned(),
            display_name: "Warm Evening".to_owned(),
            kind: Some(LightingPresetKind::WarmEvening),
            sun_azimuth_deg: Single { bits: 0x438c_0000 },  // 280
            sun_elevation_deg: Single { bits: 0x4100_0000 },  // 8
            sun_intensity: Single { bits: 0x3fc0_0000 },  // 1.5
            sun_color_temperature_k: Single { bits: 0x4548_0000 },  // 3200
            sky: SkyParams {
                strength: Single { bits: 0x3e4c_cccd },  // 0.2
                color: Vec3 {
                    x: Single { bits: 0x3f73_3333 },  // 0.95
                    y: Single { bits: 0x3f0c_cccd },  // 0.55
                    z: Single { bits: 0x3e99_999a },  // 0.3
                },
                turbidity: Single { bits: 0x4060_0000 },  // 3.5
            },
            ambient_strength: Single { bits: 0x3e80_0000 },  // 0.25
            accent_lights,
        };
        proof {
            assert(r@.accent_lights =~= bundled(LightingPresetKind::WarmEvening).accent_lights);
        }
        r
    }

    /// High sun at 6500 K under a clear sky.
    pub fn daylight() -> (r: LightingPreset)
        ensures
            r@ == bundled(LightingPresetKind::Daylight),
    {
        let mut accent_lights: Vec<RenderLight> = Vec::new();
        let r = LightingPreset {
            id: "daylight".to_owned(),
            display_name: "Daylight".to_owned(),
            kind: Some(LightingPresetKind::Daylight),
            sun_azimuth_deg: Single { bits: 0x4316_0000 },  // 150
            sun_elevation_deg: Single { bits: 0x425c_0000 },  // 55
            sun_intensity: Single { bits: 0x40a0_0000 },  // 5
            sun_color_temperature_k: Single { bits: 0x45cb_2000 },  // 6500
            sky: SkyParams {
                strength: Single { bits: 0x3f80_0000 },  // 1
                color: Vec3 {
                    x: Single { bits: 0x3f26_6666 },  // 0.65
                    y: Single { bits: 0x3f47_ae14 },  // 0.78
                    z: Single { bits: 0x3f73_3333 },  // 0.95
                },
                turbidity: Single { bits: 0x4000_0000 },  // 2
            },
            ambient_strength: Single { bits: 0x3f00_0000 },  // 0.5
            accent_lights,
        };
        proof {
            assert(r@.accent_lights =~= bundled(LightingPresetKind::Daylight).accent_lights);
        }
        r
    }

    /// Key, fill and rim lights; the sun is kept low on purpose.
    pub fn studio() -> (r: LightingPreset)
        ensures
            r@ == bundled(LightingPresetKind::Studio),
    {
        let mut accent_lights: Vec<RenderLight> = Vec::new();
        accent_lights.push(RenderLight::Area {
            position_mm: Vec3 {
                x: Single { bits: 0xc51c_4000 },  // -2500
                y: Single { bits: 0x44bb_8000 },  // 1500
                z: Single { bits: 0x451c_4000 },  // 2500
            },
            width_mm: Single { bits: 0x451c_4000 },  // 2500
            height_mm: Single { bits: 0x451c_4000 },  // 2500
            intensity: Single { bits: 0x4448_0000 },  // 800
            color_temperature_k: Single { bits: 0x45ab_e000 },  // 5500
        });
        accent_lights.push(RenderLight::Area {
            position_mm: Vec3 {
                x: Single { bits: 0x451c_4000 },  // 2500
                y: Single { bits: 0x44bb_8000 },  // 1500
                z: Single { bits: 0x451c_4000 },  // 2500
            },
            width_mm: Single { bits: 0x451c_4000 },  // 2500
            height_mm: Single { bits: 0x451c_4000 },  // 2500
            intensity: Single { bits: 0x43c8_0000 },  // 400
            color_temperature_k: Single { bits: 0x45ab_e000 },  // 5500
        });
        accent_lights.push(RenderLight::Point {
            position_mm: Vec3 {
                x: Single { bits: 0x0000_0000 },  // 0
                y: Single { bits: 0x455a_c000 },  // 3500
                z: Single { bits: 0xc4bb_8000 },  // -1500
            },
            intensity: Single { bits: 0x4348_0000 },  // 200
            color_temperature_k: Single { bits: 0x45c1_c000 },  // 6200
        });
        let r = LightingPreset {
            id: "studio".to_owned(),
            display_name: "Studio".to_owned(),
            kind: Some(LightingPresetKind::Studio),
            sun_azimuth_deg: Single { bits: 0x0000_0000 },  // 0
            sun_elevation_deg: Single { bits: 0x0000_0000 },  // 0
            sun_intensity: Single { bits: 0x3dcc_cccd },  // 0.1
            sun_color_temperature_k: Single { bits: 0x45ab_e000 },  // 5500
            sky: SkyParams {
                strength: Single { bits: 0x0000_0000 },  // 0
                color: Vec3 {
                    x: Single { bits: 0x3e4c_cccd },  // 0.2
                    y: Single { bits: 0x3e4c_cccd },  // 0.2
                    z: Single { bits: 0x3e4c_cccd },  // 0.2
                },
                turbidity: Single { bits: 0x3f80_0000 },  // 1
            },
            ambient_strength: Single { bits: 0x3dcc_cccd },  // 0.1
            accent_lights,
        };
        proof {
            assert(r@.accent_lights =~= bundled(LightingPresetKind::Studio).accent_lights);
        }
        r
    }

    /// Low sun at 3800 K through haze.
    pub fn golden_hour() -> (r: LightingPreset)
        ensures
            r@ == bundled(LightingPresetKind::GoldenHour),
    {
        let mut accent_lights: Vec<RenderLight> = Vec::new();
        let r = LightingPreset {
            id: "golden_hour".to_owned(),
            display_name: "Golden Hour".to_owned(),
            kind: Some(LightingPresetKind::GoldenHour),
            sun_azimuth_deg: Single { bits: 0x437a_0000 },  // 250
            sun_elevation_deg: Single { bits: 0x4140_0000 },  // 12
            sun_intensity: Single { bits: 0x4080_0000 },  // 4
            sun_color_temperature_k: Single { bits: 0x456d_8000 },  // 3800
            sky: SkyParams {
                strength: Single { bits: 0x3f33_3333 },  // 0.7
                color: Vec3 {
                    x: Single { bits: 0x3f73_3333 },  // 0.95
                    y: Single { bits: 0x3f26_6666 },  // 0.65
                    z: Single { bits: 0x3ecc_cccd },  // 0.4
                },
                turbidity: Single { bits: 0x40a0_0000 },  // 5
            },
            ambient_strength: Single { bits: 0x3ecc_cccd },  // 0.4
            accent_lights,
        };
        proof {
            assert(r@.accent_lights =~= bundled(LightingPresetKind::GoldenHour).accent_lights);
        }
        r
    }

    /// Sun below the horizon at 9000 K and one warm point light.
    pub fn blue_twilight() -> (r: LightingPreset)
        ensures
            r@ == bundled(LightingPresetKind::BlueTwilight),
    {
        let mut accent_lights: Vec<RenderLight> = Vec::new();
        accent_lights.push(RenderLight::Point {
            position_mm: Vec3 {
                x: Single { bits: 0x44bb_8000 },  // 1500
                y: Single { bits: 0x44e1_0000 },  // 1800
                z: Single { bits: 0x44bb_8000 },  // 1500
            },
            intensity: Single { bits: 0x4270_0000 },  // 60
            color_temperature_k: Single { bits: 0x4528_c000 },  // 2700
        });
        let r = LightingPreset {
            id: "blue_twilight".to_owned(),
            display_name: "Blue Twilight".to_owned(),
            kind: Some(LightingPresetKind::BlueTwilight),
            sun_azimuth_deg: Single { bits: 0x42a0_0000 },  // 80
            sun_elevation_deg: Single { bits: 0xc0a0_0000 },  // -5
            sun_intensity: Single { bits: 0x3f00_0000 },  // 0.5
            sun_color_temperature_k: Single { bits: 0x460c_a000 },  // 9000
            sky: SkyParams {
                strength: Single { bits: 0x3ecc_cccd },  // 0.4
                color: Vec3 {
                    x: Single { bits: 0x3e4c_cccd },  // 0.2
                    y: Single { bits: 0x3eb3_3333 },  // 0.35
                    z: Single { bits: 0x3f33_3333 },  // 0.7
                },
                turbidity: Single { bits: 0x3fc0_0000 },  // 1.5
            },
            ambient_strength: Single { bits: 0x3e99_999a },  // 0.3
            accent_lights,
        };
        proof {
            assert(r@.accent_lights =~= bundled(LightingPresetKind::BlueTwilight).accent_lights);
        }
        r
    }

    /// Weak sun under a bright, hazy sky.
    pub fn overcast() -> (r: LightingPreset)
        ensures
            r@ == bundled(LightingPresetKind::Overcast),
    {
        let mut accent_lights: Vec<RenderLight> = Vec::new();
        let r = LightingPreset {
            id: "overcast".to_owned(),
            display_name: "Overcast".to_owned(),
            kind: Some(LightingPresetKind::Overcast),
            sun_azimuth_deg: Single { bits: 0x4316_0000 },  // 150
            sun_elevation_deg: Single { bits: 0x420c_0000 },  // 35
            sun_intensity: Single { bits: 0x3f99_999a },  // 1.2
            sun_color_temperature_k: Single { bits: 0x45d1_6000 },  // 6700
            sky: SkyParams {
                strength: Single { bits: 0x3fb3_3333 },  // 1.4
                color: Vec3 {
                    x: Single { bits: 0x3f47_ae14 },  // 0.78
                    y: Single { bits: 0x3f4c_cccd },  // 0.8
                    z: Single { bits: 0x3f59_999a },  // 0.85
                },
                turbidity: Single { bits: 0x4100_0000 },  // 8
            },
            ambient_strength: Single { bits: 0x3f26_6666 },  // 0.65
            accent_lights,
        };
        proof {
            assert(r@.accent_lights =~= bundled(LightingPresetKind::Overcast).accent_lights);
        }
        r
    }

    /// Every bundled preset.
    pub fn defaults() -> (r: Vec<LightingPreset>)
        ensures
            preset_views(r@) == bundled_presets(),
    {
        let kinds = LightingPresetKind::all();
        let mut out: Vec<LightingPreset> = Vec::new();
        let mut i: usize = 0;
        while i < 6
            invariant
                i <= 6,
                kinds@ == every_kind(),
                preset_views(out@) == bundled_presets().take(i as int),
            decreases 6 - i,
        {
            let ghost before = out@;
            out.push(LightingPreset::from_kind(kinds[i]));
            i = i + 1;
            proof {
                assert(preset_views(out@) =~= preset_views(before).push(out@.last()@));
                assert(bundled_presets().take(i as int) =~= bundled_presets().take(i - 1).push(
                    bundled_presets()[i - 1],
                ));
            }
        }
        proof {
            assert(bundled_presets().take(6) =~= bundled_presets());
        }
        out
    }
}

/// What each preset of a list holds.
pub open spec fn preset_views(presets: Seq<LightingPreset>) -> Seq<LightingPresetView> {
    presets.map_values(|p: LightingPreset| p@)
}

/// The bundled presets, in the order they are offered.
pub open spec fn bundled_presets() -> Seq<LightingPresetView> {
    every_kind().map_values(|k: LightingPresetKind| bundled(k))
}

/// Bundled presets and the user's own beside them.
pub struct LightingPresetStore {
    pub custom: Catalog<LightingPreset>,
    pub selected: String,
}

impl LightingPresetStore {
    pub open spec fn wf(&self) -> bool {
        self.custom.wf()
    }

    /// The preset that an id names: a bundled one, else one of the user's.
    pub open spec fn named(&self, id: Seq<char>) -> Option<LightingPresetView> {
        match kind_with_id(id) {
            Some(kind) => Some(bundled(kind)),
            None => if self.custom@.dom().contains(id) {
                Some(self.custom@[id]@)
            } else {
                None
            },
        }
    }

    /// The preset in use: the selected one, daylight where it is gone.
    pub open spec fn in_use(&self) -> LightingPresetView {
        match self.named(self.selected@) {
            Some(p) => p,
            None => bundled(LightingPresetKind::Daylight),
        }
    }

    /// Bundled presets, then the user's in the order of their ids.
    pub fn all(&self) -> (r: Vec<LightingPreset>)
        requires
            self.wf(),
        ensures
            preset_views(r@) == bundled_presets() + preset_views(self.custom.value_seq()),
    {
        let mut out: Vec<LightingPreset> = LightingPreset::defaults();
        let ghost own = preset_views(self.custom.value_seq());
        let mut i: usize = 0;
        proof {
            assert(bundled_presets() + own.take(0) =~= bundled_presets());
        }
        while i < self.custom.len()
            invariant
                self.wf(),
                i <= self.custom.value_seq().len(),
                own == preset_views(self.custom.value_seq()),
                preset_views(out@) == bundled_presets() + own.take(i as int),
            decreases self.custom.value_seq().len() - i,
        {
            let ghost before = out@;
            out.push(self.custom.value_at(i).clone());
            i = i + 1;
            proof {
                assert(preset_views(out@) =~= preset_views(before).push(out@.last()@));
                assert(own.take(i as int) =~= own.take(i - 1).push(own[i - 1]));
                assert(bundled_presets() + own.take(i as int) =~= (bundled_presets() + own.take(
                    i - 1,
                )).push(own[i - 1]));
            }
        }
        proof {
            assert(own.take(i as int) =~= own);
        }
        out
    }

    pub fn get(&self, id: &str) -> (r: Option<LightingPreset>)
        requires
            self.wf(),
        ensures
            match r {
                Some(p) => self.named(id@) == Some(p@),
                None => self.named(id@) is None,
            },
    {
        match LightingPresetKind::from_id(id) {
            Some(kind) => Some(LightingPreset::from_kind(kind)),
            None => match self.custom.get(id) {
                Some(p) => Some(p.clone()),
                None => None,
            },
        }
    }

    pub fn current(&self) -> (r: LightingPreset)
        requires
            self.wf(),
        ensures
            r@ == self.in_use(),
    {
        match self.get(self.selected.as_str()) {
            Some(p) => p,
            None => LightingPreset::daylight(),
        }
    }

    /// Selects a preset that exists; another id changes nothing.
    pub fn select(&mut self, id: &str) -> (r: bool)
        requires
            old(self).wf(),
        ensures
            r == (old(self).named(id@) is Some),
            final(self).custom == old(self).custom,
            r ==> final(self).selected@ == id@,
            !r ==> final(self).selected == old(self).selected,
    {
        if self.get(id).is_some() {
            self.selected = id.to_owned();
            true
        } else {
            false
        }
    }

    /// Saves a preset under its id, replacing one of the same id. One that does
    /// not validate is refused and changes nothing.
    pub fn insert_custom<P: Fn(Single, Single) -> Single>(
        &mut self,
        preset: LightingPreset,
        plus: &P,
    ) -> (r: Result<(), LightingValidationError>)
        requires
            old(self).wf(),
            arithmetic::steady2(*plus),
        ensures
            final(self).wf(),
            r == verdict(preset@, energy(*plus, preset@)),
            r is Err ==> *final(self) == *old(self),
            r is Ok ==> final(self).custom@ == old(self).custom@.insert(preset.id@, preset)
                && final(self).selected == old(self).selected,
    {
        match preset.validate(plus) {
            Err(e) => Err(e),
            Ok(_) => {
                let id: String = preset.id.clone();
                let replaced: Option<LightingPreset> = self.custom.insert(id, preset);
                Ok(())
            },
        }
    }
}

impl Default for LightingPresetStore {
    fn default() -> (r: LightingPresetStore)
        ensures
            r.wf(),
            r.custom@ == Map::<Seq<char>, LightingPreset>::empty(),
            r.selected@ == "daylight"@,
    {
        LightingPresetStore {
            custom: Catalog::new(),
            selected: LightingPresetKind::Daylight.id().to_owned(),
        }
    }
}

proof fn ids_differ()
    ensures
        forall|a: LightingPresetKind, b: LightingPresetKind|
            a != b ==> #[trigger] kind_id(a) != #[trigger] kind_id(b),
{
    reveal_strlit("warm_evening");
    reveal_strlit("daylight");
    reveal_strlit("studio");
    reveal_strlit("golden_hour");
    reveal_strlit("blue_twilight");
    reveal_strlit("overcast");
    assert forall|a: LightingPresetKind, b: LightingPresetKind| a != b implies #[trigger] kind_id(a)
        != #[trigger] kind_id(b) by {
        if kind_id(a).len() == kind_id(b).len() {
            assert(kind_id(a)[0] != kind_id(b)[0]);
        }
    }
}

/// A mood's id names that mood, and its bundled preset carries the id and name.
pub proof fn every_mood_is_found_by_its_id(kind: LightingPresetKind)
    ensures
        kind_with_id(kind_id(kind)) == Some(kind),
        bundled(kind).id == kind_id(kind),
        bundled(kind).display_name == kind_name(kind),
        bundled(kind).kind == Some(kind),
{
    ids_differ();
    assert(kind_id(LightingPresetKind::WarmEvening) == "warm_evening"@);
    assert(kind_id(LightingPresetKind::Daylight) == "daylight"@);
    assert(kind_id(LightingPresetKind::Studio) == "studio"@);
    assert(kind_id(LightingPresetKind::GoldenHour) == "golden_hour"@);
    assert(kind_id(LightingPresetKind::BlueTwilight) == "blue_twilight"@);
    assert(kind_id(LightingPresetKind::Overcast) == "overcast"@);
}

/// A bundled preset validates wherever its energies add up to more than nothing.
pub proof fn every_bundled_preset_validates(kind: LightingPresetKind, total: Single)
    requires
        (Single { bits: 0 }).below(total),
    ensures
        verdict(bundled(kind), total) == Ok::<(), LightingValidationError>(()),
{
}

/// The sun leads the lights and no light is lost or added.
pub proof fn sun_leads_the_lights(p: LightingPresetView)
    ensures
        lights_of(p).len() == p.accent_lights.len() + 1,
        lights_of(p)[0] is SunSky,
        forall|i: int|
            0 <= i < p.accent_lights.len() ==> #[trigger] lights_of(p)[i + 1] == p.accent_lights[i],
{
}

/// A user's preset never hides a bundled one.
pub proof fn bundled_presets_are_not_shadowed(
    before: LightingPresetStore,
    after: LightingPresetStore,
    kind: LightingPresetKind,
)
    ensures
        after.named(kind_id(kind)) == before.named(kind_id(kind)),
        after.named(kind_id(kind)) == Some(bundled(kind)),
{
    every_mood_is_found_by_its_id(kind);
}

/// A preset saved under an id of its own is what the store then hands out.
pub proof fn saved_preset_is_handed_out(
    before: LightingPresetStore,
    after: LightingPresetStore,
    preset: LightingPreset,
)
    requires
        kind_with_id(preset.id@) is None,
        after.custom@ == before.custom@.insert(preset.id@, preset),
    ensures
        after.named(preset.id@) == Some(preset@),
{
}

// ---- colour temperature ------------------------------------------------

/// The curves that the colour of a temperature is made of.
#[derive(Clone, Copy, Debug, PartialEq, Eq, Structural)]
pub enum Curve {
    /// Red above 6600 kelvin.
    RedCool,
    /// Green up to 6600 kelvin.
    GreenWarm,
    /// Green above 6600 kelvin.
    GreenCool,
    /// Blue between 1900 and 6600 kelvin.
    BlueWarm,
}

/// A part of a colour out of 255 as a number from 0 to 1.
pub open spec fn unit_part<N: Fn(Single) -> Single>(of_255: N, v: Single) -> Single {
    arithmetic::applied(of_255, v).clamped(Single { bits: 0 }, Single { bits: 0x3f80_0000 })
}

/// The colour of a temperature, given in hundreds of kelvin and held to 10 to 400.
pub open spec fn blackbody<C: Fn(Curve, Single) -> Single, N: Fn(Single) -> Single>(
    hundreds: Single,
    curve: C,
    of_255: N,
) -> Vec3 {
    let t = hundreds.clamped(Single { bits: 0x4120_0000 }, Single { bits: 0x43c8_0000 });
    let turn = Single { bits: 0x4284_0000 };  // 66
    let full = Single { bits: 0x437f_0000 };  // 255
    let red = if t.at_most(turn) {
        full
    } else {
        arithmetic::applied2(curve, Curve::RedCool, t)
    };
    let green = if t.at_most(turn) {
        arithmetic::applied2(curve, Curve::GreenWarm, t)
    } else {
        arithmetic::applied2(curve, Curve::GreenCool, t)
    };
    let blue = if turn.at_most(t) {
        full
    } else if t.at_most(Single { bits: 0x4198_0000 }) {  // 19
        Single { bits: 0 }
    } else {
        arithmetic::applied2(curve, Curve::BlueWarm, t)
    };
    Vec3 {
        x: unit_part(of_255, red),
        y: unit_part(of_255, green),
        z: unit_part(of_255, blue),
    }
}

fn to_unit<N: Fn(Single) -> Single>(of_255: &N, v: Single) -> (r: Single)
    requires
        arithmetic::steady(*of_255),
    ensures
        r == unit_part(*of_255, v),
{
    of_255(v).clamp(Single::zero(), Single::one())
}

/// The colour of a temperature in kelvin, linear red, green and blue from 0 to 1.
/// `hundredth` divides by 100, `curve` is the value of a curve, `of_255` divides by
/// 255.
pub fn kelvin_to_rgb<
    H: Fn(Single) -> Single,
    C: Fn(Curve, Single) -> Single,
    N: Fn(Single) -> Single,
>(kelvin_k: Single, hundredth: &H, curve: &C, of_255: &N) -> (r: Vec3)
    requires
        arithmetic::steady(*hundredth),
        arithmetic::steady2(*curve),
        arithmetic::steady(*of_255),
    ensures
        r == blackbody(arithmetic::applied(*hundredth, kelvin_k), *curve, *of_255),
{
    let hundreds: Single = hundredth(kelvin_k);
    let t: Single = hundreds.clamp(Single::from_bits(0x4120_0000), Single::from_bits(0x43c8_0000));
    let turn: Single = Single::from_bits(0x4284_0000);  // 66
    let full: Single = Single::from_bits(0x437f_0000);  // 255
    let red: Single = if t.le(turn) {
        full
    } else {
        curve(Curve::RedCool, t)
    };
    let green: Single = if t.le(turn) {
        curve(Curve::GreenWarm, t)
    } else {
        curve(Curve::GreenCool, t)
    };
    let blue: Single = if turn.le(t) {
        full
    } else if t.le(Single::from_bits(0x4198_0000)) {  // 19
        Single::zero()
    } else {
        curve(Curve::BlueWarm, t)
    };
    Vec3::new(to_unit(of_255, red), to_unit(of_255, green), to_unit(of_255, blue))
}

/// The parts of the colour of a temperature lie in 0 to 1, unless one is not a
/// number.
pub proof fn colours_lie_in_range<C: Fn(Curve, Single) -> Single, N: Fn(Single) -> Single>(
    hundreds: Single,
    curve: C,
    of_255: N,
)
    ensures
        ({
            let zero = Single { bits: 0 };
            let one = Single { bits: 0x3f80_0000 };
            let c = blackbody(hundreds, curve, of_255);
            &&& c.x.nan() || (zero.at_most(c.x) && c.x.at_most(one))
            &&& c.y.nan() || (zero.at_most(c.y) && c.y.at_most(one))
            &&& c.z.nan() || (zero.at_most(c.z) && c.z.at_most(one))
        }),
{
}

/// A setup is sound exactly where its sun is finite and not below 0, its temperature lies
/// from 1000 to 12000 kelvin and it gives any light at all. What is found wrong is wrong,
/// and a temperature is named as it is.
pub proof fn sound_setups_give_light(p: LightingPresetView, total: Single)
    requires
        !total.nan(),
    ensures
        ({
            let zero = Single { bits: 0 };
            let t = p.sun_color_temperature_k;
            let sun = p.sun_intensity.finite() && zero.at_most(p.sun_intensity);
            let warm = Single { bits: 0x447a_0000 };
            let cool = Single { bits: 0x463b_8000 };
            &&& verdict(p, total) is Ok <==> sun && warm.at_most(t) && t.at_most(cool)
                && zero.below(total)
            &&& verdict(p, total) matches Err(e) ==> match e {
                LightingValidationError::NegativeIntensity => !sun,
                LightingValidationError::ColorTemperatureOutOfRange(k) => k == t
                    && !(warm.at_most(t) && t.at_most(cool)),
                LightingValidationError::ZeroEnergy => total.at_most(zero),
            }
        }),
{
}

/// The sun among the lights of a setup stands where the setup's sun stands, with its
/// intensity and temperature.
pub proof fn the_sun_shines_as_it_is_set(p: LightingPresetView)
    ensures
        lights_of(p)[0]->SunSky_azimuth_deg == p.sun_azimuth_deg,
        lights_of(p)[0]->SunSky_elevation_deg == p.sun_elevation_deg,
        lights_of(p)[0]->SunSky_intensity == p.sun_intensity,
        lights_of(p)[0]->SunSky_color_temperature_k == p.sun_color_temperature_k,
{
}

/// What a setup gives takes in the sun, each accent once by its own intensity, the sky and
/// the ambient light.
pub proof fn every_light_gives_energy<P: Fn(Single, Single) -> Single>(
    plus: P,
    p: LightingPresetView,
)
    ensures
        ({
            let join = |sum: Single, v: Single| arithmetic::applied2(plus, sum, v);
            let accents = p.accent_lights.map_values(|l: RenderLight| intensity_of(l)).fold_left(
                Single { bits: 0 },
                join,
            );
            energy(plus, p) == join(
                join(join(p.sun_intensity, accents), p.sky.strength),
                p.ambient_strength,
            )
        }),
{
    let join = |sum: Single, v: Single| arithmetic::applied2(plus, sum, v);
    intensities_are_gathered(plus, p.accent_lights, join);
}

proof fn intensities_are_gathered<P: Fn(Single, Single) -> Single>(
    plus: P,
    lights: Seq<RenderLight>,
    join: spec_fn(Single, Single) -> Single,
)
    requires
        forall|a: Single, b: Single| #[trigger] join(a, b) == arithmetic::applied2(plus, a, b),
    ensures
        intensities(plus, lights) == lights.map_values(
            |l: RenderLight| intensity_of(l),
        ).fold_left(Single { bits: 0 }, join),
    decreases lights.len(),
{
    let all = lights.map_values(|l: RenderLight| intensity_of(l));
    if lights.len() > 0 {
        intensities_are_gathered(plus, lights.drop_last(), join);
        assert(all.drop_last() =~= lights.drop_last().map_values(
            |l: RenderLight| intensity_of(l),
        ));
    }
}

/// The preset in use is the selected one where there is one of that id, a bundled one
/// before the user's own, and daylight where there is none.
pub proof fn selected_presets_are_in_use(store: LightingPresetStore)
    ensures
        kind_with_id(store.selected@) matches Some(kind) ==> store.in_use() == bundled(kind),
        kind_with_id(store.selected@) is None && store.custom@.dom().contains(store.selected@)
            ==> store.in_use() == store.custom@[store.selected@]@,
        kind_with_id(store.selected@) is None && !store.custom@.dom().contains(store.selected@)
            ==> store.in_use() == bundled(LightingPresetKind::Daylight),
{
}

/// Warm light is all red and cool light all blue, the warmest without blue; the curve of
/// each part counts on its own side of 6600 kelvin. Temperatures past 1000 and 40000 kelvin
/// shine as those two.
pub proof fn warm_light_is_red_and_cool_light_blue<
    C: Fn(Curve, Single) -> Single,
    N: Fn(Single) -> Single,
>(hundreds: Single, curve: C, of_255: N)
    ensures
        ({
            let low = Single { bits: 0x4120_0000 };
            let high = Single { bits: 0x43c8_0000 };
            let t = hundreds.clamped(low, high);
            let turn = Single { bits: 0x4284_0000 };  // 66
            let zero = Single { bits: 0 };
            let one = Single { bits: 0x3f80_0000 };
            let part = |v: Single| arithmetic::applied(of_255, v).clamped(zero, one);
            let c = blackbody(hundreds, curve, of_255);
            &&& t.at_most(turn) ==> c.x == part(Single { bits: 0x437f_0000 })
            &&& turn.below(t) ==> c.x == part(arithmetic::applied2(curve, Curve::RedCool, t))
            &&& t.at_most(turn) ==> c.y == part(arithmetic::applied2(curve, Curve::GreenWarm, t))
            &&& turn.below(t) ==> c.y == part(arithmetic::applied2(curve, Curve::GreenCool, t))
            &&& turn.at_most(t) ==> c.z == part(Single { bits: 0x437f_0000 })
            &&& t.at_most(Single { bits: 0x4198_0000 }) ==> c.z == part(zero)
            &&& (Single { bits: 0x4198_0000 }).below(t) && t.below(turn) ==> c.z == part(
                arithmetic::applied2(curve, Curve::BlueWarm, t),
            )
            &&& hundreds.below(low) ==> c == blackbody(low, curve, of_255)
            &&& high.below(hundreds) ==> c == blackbody(high, curve, of_255)
        }),
{
}

} // verus!
