//! Lighting presets, photometric profiles and lights.
use aec_render::catalog::Catalog;
use aec_render::geometry::Vec3;
use aec_render::ies::{IesParseError, IesPhotometricType, IesProfile};
use aec_render::light_sampling::{
    is_delta, power_heuristic, sample_light, LampArithmetic, LampDraws, LightReach, LightSample,
    NativeLight, Squares,
};
use aec_render::lighting::{
    kelvin_to_rgb, Curve, LightingPreset, LightingPresetKind, LightingPresetStore,
    LightingValidationError,
};
use aec_render::photometry::{
    bracket_angle, AngleArithmetic, AnglePlace, Blend, Bracket, Cell, Corners, FluxArithmetic,
    IesLookupTexture, Ring,
};
use aec_render::scene::RenderLight;
use aec_render::single::Single;

fn num(x: f32) -> Single {
    Single::from_bits(x.to_bits())
}

fn val(x: Single) -> f32 {
    f32::from_bits(x.to_bits())
}

fn lib(v: glam::Vec3) -> Vec3 {
    Vec3::new(num(v.x), num(v.y), num(v.z))
}

fn gl(v: Vec3) -> glam::Vec3 {
    glam::Vec3::new(val(v.x), val(v.y), val(v.z))
}

fn plus(a: Single, b: Single) -> Single {
    num(val(a) + val(b))
}

fn minus(a: Single, b: Single) -> Single {
    num(val(a) - val(b))
}

fn wrap(a: Single) -> Single {
    num(val(a).rem_euclid(360.0))
}

fn ratio(a: Single, lower: Single, upper: Single) -> Single {
    let span = (val(upper) - val(lower)).max(1e-9);
    num((val(a) - val(lower)) / span)
}

fn blend(b: Blend) -> Single {
    let (v_t, h_t) = (val(b.along), val(b.across));
    let c = b.corners;
    let c0 = val(c.c00) + (val(c.c01) - val(c.c00)) * v_t;
    let c1 = val(c.c10) + (val(c.c11) - val(c.c10)) * v_t;
    num((c0 + (c1 - c0) * h_t) * val(b.scale))
}

fn read_number(token: &str) -> Option<Single> {
    token.parse::<f32>().ok().map(num)
}

fn parse(text: &str) -> Result<IesProfile, IesParseError> {
    IesProfile::parse_ies(text, read_number)
}

fn candela_at(p: &IesProfile, v: f32, h: f32) -> f32 {
    let numbers = AngleArithmetic { minus, plus, wrap, ratio, blend };
    val(p.candela_at(num(v), num(h), &numbers))
}

fn bake(p: &IesProfile, w: u32, h: u32) -> IesLookupTexture {
    let numbers = AngleArithmetic { minus, plus, wrap, ratio, blend };
    let column = |x: usize, n: u32| {
        num(if n > 1 { (x as f32 / (n - 1) as f32) * 360.0 } else { 0.0 })
    };
    let row = |y: usize, n: u32| {
        num(if n > 1 { (y as f32 / (n - 1) as f32) * 180.0 } else { 0.0 })
    };
    p.to_lookup_texture(w, h, &numbers, &column, &row)
}

fn sample(tex: &IesLookupTexture, v: f32, h: f32) -> f32 {
    let row = |a: Single, n: u32| num((val(a) / 180.0) * (n as f32 - 1.0));
    let column = |a: Single, n: u32| num(val(a).rem_euclid(360.0) / 360.0 * (n as f32 - 1.0));
    let offset = |place: Single, at: u32| num(val(place) - at as f32);
    let mix = |c: Corners, ty: Single, tx: Single| {
        let c0 = val(c.c00) + (val(c.c01) - val(c.c00)) * val(tx);
        let c1 = val(c.c10) + (val(c.c11) - val(c.c10)) * val(tx);
        num(c0 + (c1 - c0) * val(ty))
    };
    val(tex.sample(num(v), num(h), row, column, offset, mix))
}

fn lumens(p: &IesProfile) -> f32 {
    let rad = |a: Single| (val(a) as f64).to_radians();
    val(p.integrate_lumens(&FluxArithmetic {
        none: || 0.0_f64,
        add_ring: |flux: f64, r: Ring| {
            let (t0, t1) = (rad(r.from), rad(r.to));
            let average = 0.5 * (val(r.candela_from) as f64 + val(r.candela_to) as f64);
            flux + 2.0 * std::f64::consts::PI * average * ((t0 + t1) * 0.5).sin() * (t1 - t0)
        },
        add_cell: |flux: f64, c: Cell| {
            let (t0, t1) = (rad(c.from), rad(c.to));
            let dphi = rad(c.turn_to) - rad(c.turn_from);
            let sum = val(c.corners.c00) as f64
                + val(c.corners.c10) as f64
                + val(c.corners.c01) as f64
                + val(c.corners.c11) as f64;
            flux + 0.25 * sum * ((t0 + t1) * 0.5).sin() * (t1 - t0) * dphi
        },
        minus,
        spread: |flux: f64, span: Single| flux * (360.0 / val(span) as f64),
        total: |flux: f64, scale: Single| num((flux * val(scale) as f64) as f32),
    }))
}

// ---- presets -----------------------------------------------------------

#[test]
fn every_default_preset_validates() {
    for p in LightingPreset::defaults() {
        assert!(p.validate(&plus).is_ok(), "default preset `{}` failed validation", p.id);
    }
}

#[test]
fn build_lights_prepends_sun() {
    let p = LightingPreset::warm_evening();
    let lights = p.build_lights();
    assert!(matches!(lights[0], RenderLight::SunSky { .. }));
    assert_eq!(lights.len(), 1 + p.accent_lights.len());
}

#[test]
fn studio_has_key_fill_rim() {
    let s = LightingPreset::studio();
    assert_eq!(s.accent_lights.len(), 3);
}

#[test]
fn validate_rejects_zero_energy_preset() {
    let mut p = LightingPreset::overcast();
    p.sun_intensity = num(0.0);
    p.accent_lights.clear();
    p.sky.strength = num(0.0);
    p.ambient_strength = num(0.0);
    assert_eq!(p.validate(&plus), Err(LightingValidationError::ZeroEnergy));
}

#[test]
fn validate_accepts_sky_only_preset() {
    let mut p = LightingPreset::overcast();
    p.sun_intensity = num(0.0);
    p.accent_lights.clear();
    p.ambient_strength = num(0.0);
    p.sky.strength = num(1.5);
    assert!(p.validate(&plus).is_ok());
}

#[test]
fn validate_accepts_ambient_only_preset() {
    let mut p = LightingPreset::overcast();
    p.sun_intensity = num(0.0);
    p.accent_lights.clear();
    p.sky.strength = num(0.0);
    p.ambient_strength = num(0.5);
    assert!(p.validate(&plus).is_ok());
}

#[test]
fn validate_rejects_out_of_range_temperature() {
    let mut p = LightingPreset::daylight();
    p.sun_color_temperature_k = num(30_000.0);
    assert!(matches!(
        p.validate(&plus),
        Err(LightingValidationError::ColorTemperatureOutOfRange(_))
    ));
}

#[test]
fn validate_rejects_negative_sun() {
    let mut p = LightingPreset::daylight();
    p.sun_intensity = num(-0.1);
    assert_eq!(p.validate(&plus), Err(LightingValidationError::NegativeIntensity));
    p.sun_intensity = num(f32::NAN);
    assert_eq!(p.validate(&plus), Err(LightingValidationError::NegativeIntensity));
}

fn helland(curve: Curve, t: Single) -> Single {
    let t = val(t);
    num(match curve {
        Curve::RedCool => 329.698_73 * (t - 60.0).powf(-0.133_204_8),
        Curve::GreenWarm => 99.470_8 * t.ln() - 161.119_57,
        Curve::GreenCool => 288.122_2 * (t - 60.0).powf(-0.075_514_85),
        Curve::BlueWarm => 138.517_73 * (t - 10.0).ln() - 305.044_8,
    })
}

fn rgb(kelvin: f32) -> [f32; 3] {
    let c = kelvin_to_rgb(
        num(kelvin),
        &|k: Single| num(val(k) / 100.0),
        &helland,
        &|x: Single| num(val(x) / 255.0),
    );
    [val(c.x), val(c.y), val(c.z)]
}

#[test]
fn kelvin_to_rgb_is_warm_at_low_temperatures() {
    let warm = rgb(3200.0);
    assert!(warm[0] > warm[2]);
    let cool = rgb(9000.0);
    assert!(cool[2] > cool[0]);
}

#[test]
fn candle_light_has_no_blue() {
    assert_eq!(rgb(1900.0)[2], 0.0);
    assert_eq!(rgb(6600.0)[0], 1.0);
    assert_eq!(rgb(6600.0)[2], 1.0);
    assert_eq!(rgb(100.0), rgb(1000.0));
}

#[test]
fn studio_preset_emits_sun_first_in_native_light_list() {
    let preset = LightingPreset::studio();
    let lights = preset.build_lights();
    assert!(matches!(lights[0], RenderLight::SunSky { .. }));
    assert_eq!(lights.len(), 4);
}

#[test]
fn lighting_store_roundtrips_via_serde() {
    let mut store = LightingPresetStore::default();
    let mut custom = LightingPreset::warm_evening();
    custom.id = "warm_evening_high".to_string();
    custom.sun_intensity = num(2.5);
    store.insert_custom(custom, &plus).unwrap();
    assert!(store.select("warm_evening_high"));

    let bytes = serde_json::to_vec(&store.selected).unwrap();
    let mut presets: Catalog<LightingPreset> = Catalog::new();
    for i in 0..store.custom.len() {
        presets.insert(store.custom.key_at(i).clone(), store.custom.value_at(i).clone());
    }
    let loaded = LightingPresetStore {
        custom: presets,
        selected: serde_json::from_slice(&bytes).unwrap(),
    };
    assert_eq!(loaded.selected, store.selected);
    assert_eq!(loaded.all(), store.all());
    assert_eq!(loaded.current().id, "warm_evening_high");
}

#[test]
fn lighting_store_select_rejects_unknown_ids() {
    let mut store = LightingPresetStore::default();
    let orig = store.selected.clone();
    assert!(!store.select("nope"));
    assert_eq!(store.selected, orig);
}

#[test]
fn preset_that_does_not_validate_is_not_saved() {
    let mut store = LightingPresetStore::default();
    let mut bad = LightingPreset::daylight();
    bad.id = "bad".to_string();
    bad.sun_color_temperature_k = num(1.0);
    assert!(store.insert_custom(bad, &plus).is_err());
    assert!(store.get("bad").is_none());
    assert_eq!(store.current().id, LightingPresetKind::Daylight.id());
}

// ---- photometric profiles ----------------------------------------------

const SAMPLE_IES: &str = r#"IESNA:LM-63-2002
[TEST=Cognition AEC Studio fixture]
[MANUFAC=ACME]
TILT=NONE
1 1000.0 1.0 5 1 1 2 0.0 0.0 0.0
1.0 1.0 100.0
0.0 22.5 45.0 67.5 90.0
0.0
10.0 8.0 6.0 4.0 2.0
"#;

#[test]
fn ies_parser_extracts_distribution() {
    let p = parse(SAMPLE_IES).unwrap();
    assert_eq!(p.lamp_count, 1);
    assert_eq!(val(p.lumens_per_lamp), 1000.0);
    assert_eq!(val(p.candela_multiplier), 1.0);
    assert_eq!(p.vertical_angles.len(), 5);
    assert_eq!(p.horizontal_angles.len(), 1);
    assert_eq!(p.candela, [10.0, 8.0, 6.0, 4.0, 2.0].map(num).to_vec());
    assert_eq!(val(p.peak_candela(|a: Single, b: Single| num(val(a) * val(b)))), 10.0);
    assert_eq!(p.photometric_type, IesPhotometricType::C);
    assert_eq!(p.source, "[TEST=Cognition AEC Studio fixture]");
}

#[test]
fn ies_parser_rejects_missing_tilt() {
    let bad = "IESNA:LM-63-2002\n1 1000.0 1.0 1 1 1 2 0 0 0\n1 1 1\n0\n0\n0\n";
    assert!(matches!(parse(bad).unwrap_err(), IesParseError::MissingTilt));
}

#[test]
fn ies_parser_rejects_truncated_table() {
    let truncated = r#"IESNA:LM-63-2002
TILT=NONE
1 1000.0 1.0 5 1 1 2 0.0 0.0 0.0
1.0 1.0 100.0
0.0 22.5 45.0 67.5 90.0
0.0
10.0 8.0 6.0
"#;
    let err = parse(truncated).unwrap_err();
    assert!(matches!(err, IesParseError::TruncatedCandelaTable { .. }));
    assert_eq!(err, IesParseError::TruncatedCandelaTable { expected: 5, got: 3 });
}

#[test]
fn ies_parser_names_the_token_that_is_no_number() {
    let bad = SAMPLE_IES.replace("22.5", "xx");
    assert_eq!(parse(&bad).unwrap_err(), IesParseError::MalformedNumber(14, "xx".to_string()));
    let odd = SAMPLE_IES.replace("5 1 1 2 0.0", "5 1 9 2 0.0");
    assert_eq!(
        parse(&odd).unwrap_err(),
        IesParseError::UnknownPhotometricType("9".to_string())
    );
    let b = parse(&SAMPLE_IES.replace("5 1 1 2 0.0", "5 1 2 2 0.0")).unwrap();
    assert_eq!(b.photometric_type, IesPhotometricType::B);
}

#[test]
fn declared_lumens_need_a_positive_lamp() {
    let times = |a: Single, n: u32| num(val(a) * n as f32);
    let mut p = parse(SAMPLE_IES).unwrap();
    p.lamp_count = 3;
    assert_eq!(p.declared_lumens(times).map(val), Some(3000.0));
    p.lamp_count = 0;
    assert_eq!(p.declared_lumens(times).map(val), Some(1000.0));
    p.lumens_per_lamp = num(-1.0);
    assert_eq!(p.declared_lumens(times), None);
}

fn isotropic(peak: f32) -> IesProfile {
    IesProfile::test_isotropic(num(peak), |cd: Single| {
        num(val(cd) * 4.0 * std::f32::consts::PI)
    })
}

#[test]
fn flux_of_an_even_profile_fills_the_sphere() {
    let p = isotropic(100.0);
    let sphere = 100.0 * 4.0 * std::f32::consts::PI;
    assert_eq!(val(p.lumens_per_lamp), sphere);
    assert!((lumens(&p) - sphere).abs() / sphere < 0.01, "{}", lumens(&p));
}

#[test]
fn flux_of_a_quarter_turn_is_spread_over_the_whole() {
    let mut p = isotropic(100.0);
    p.horizontal_angles = [0.0, 45.0, 90.0].map(num).to_vec();
    p.candela = vec![num(100.0); 19 * 3];
    let sphere = 100.0 * 4.0 * std::f32::consts::PI;
    assert!((lumens(&p) - sphere).abs() / sphere < 0.01, "{}", lumens(&p));
    p.vertical_angles.truncate(1);
    assert_eq!(lumens(&p), 0.0);
}

const ASYMMETRIC_IES: &str = r#"IESNA:LM-63-2002
[TEST=Cognition AEC Studio asymmetric fixture]
[MANUFAC=ACME]
TILT=NONE
1 1000.0 1.0 3 5 1 2 0.0 0.0 0.0
1.0 1.0 100.0
0.0 90.0 180.0
0.0 90.0 180.0 270.0 360.0
100.0 200.0 50.0
100.0 300.0 50.0
100.0 400.0 50.0
100.0 500.0 50.0
100.0 200.0 50.0
"#;

fn two_rows(last: f32) -> IesProfile {
    IesProfile {
        source: String::new(),
        lamp_count: 1,
        lumens_per_lamp: num(1.0),
        candela_multiplier: num(1.0),
        vertical_angles: vec![num(0.0)],
        horizontal_angles: vec![num(0.0), num(last)],
        candela: vec![num(1.0), num(2.0)],
        photometric_type: IesPhotometricType::C,
    }
}

#[test]
fn angles_outside_of_an_odd_span_go_to_the_nearest_sample() {
    let p = two_rows(30.0);
    let expected = [
        (-10.0, 1.0),
        (350.0, 1.0),
        (0.0, 1.0),
        (15.0, 1.5),
        (30.0, 2.0),
        (40.0, 2.0),
        (190.0, 2.0),
        (200.0, 1.0),
        (-320.0, 2.0),
    ];
    for (h, candela) in expected {
        assert_eq!(candela_at(&p, 0.0, h), candela, "h={h}");
    }
}

#[test]
fn spans_of_a_symmetry_still_fold() {
    assert_eq!(candela_at(&two_rows(90.0), 0.0, -90.0), 2.0);
    assert_eq!(candela_at(&two_rows(180.0), 0.0, -90.0), 1.5);
    assert_eq!(candela_at(&two_rows(360.0), 0.0, -90.0), 1.75);
}

#[test]
fn an_angle_that_is_no_number_is_bracketed_at_the_first_sample() {
    let angles = vec![num(0.0), num(10.0), num(20.0)];
    let b = bracket_angle(&angles, num(f32::NAN));
    assert_eq!(b, Bracket { lower: 0, place: AnglePlace::Inside });
    let b = bracket_angle(&angles, num(15.0));
    assert_eq!(b, Bracket { lower: 1, place: AnglePlace::Inside });
}

#[test]
fn lookup_texture_sample_matches_bake_at_each_horizontal_angle() {
    let p = parse(ASYMMETRIC_IES).unwrap();
    let tex = bake(&p, 5, 3);
    assert_eq!(tex.width, 5);
    assert_eq!(tex.height, 3);
    let v_equator = 90.0;
    for (h_deg, expected_cd) in
        [(0.0_f32, 200.0_f32), (90.0, 300.0), (180.0, 400.0), (270.0, 500.0), (360.0, 200.0)]
    {
        let got = sample(&tex, v_equator, h_deg);
        assert!(
            (got - expected_cd).abs() < 1e-4,
            "sample at v={v_equator}, h={h_deg}: expected {expected_cd}, got {got}"
        );
    }
}

#[test]
fn lookup_texture_sample_interpolates_between_adjacent_horizontal_columns() {
    let p = parse(ASYMMETRIC_IES).unwrap();
    let tex = bake(&p, 5, 3);
    let got = sample(&tex, 90.0, 135.0);
    assert!((got - 350.0).abs() < 1e-3, "expected midpoint cd=350.0, got {got}");
}

#[test]
fn lookup_texture_sample_wraps_horizontal_modulo_360() {
    let p = parse(ASYMMETRIC_IES).unwrap();
    let tex = bake(&p, 5, 3);
    let v = 90.0;
    let at_0 = sample(&tex, v, 0.0);
    let at_360 = sample(&tex, v, 360.0);
    let at_minus_45 = sample(&tex, v, -45.0);
    let at_315 = sample(&tex, v, 315.0);
    let at_405 = sample(&tex, v, 405.0);
    let at_45 = sample(&tex, v, 45.0);
    assert!((at_0 - at_360).abs() < 1e-4);
    assert!((at_minus_45 - at_315).abs() < 1e-4);
    assert!((at_405 - at_45).abs() < 1e-4);
}

const QUADRANT_SYMMETRIC_IES: &str = r#"IESNA:LM-63-2002
[TEST=Cognition AEC Studio quadrant symmetry fixture]
TILT=NONE
1 1000.0 1.0 3 3 1 2 0.0 0.0 0.0
1.0 1.0 100.0
0.0 90.0 180.0
0.0 45.0 90.0
0.0 100.0 0.0
0.0 200.0 0.0
0.0 300.0 0.0
"#;

const BILATERAL_SYMMETRIC_IES: &str = r#"IESNA:LM-63-2002
[TEST=Cognition AEC Studio bilateral symmetry fixture]
TILT=NONE
1 1000.0 1.0 3 3 1 2 0.0 0.0 0.0
1.0 1.0 100.0
0.0 90.0 180.0
0.0 90.0 180.0
0.0 100.0 0.0
0.0 200.0 0.0
0.0 300.0 0.0
"#;

#[test]
fn candela_at_folds_quadrant_symmetric_profile_into_first_quadrant() {
    let p = parse(QUADRANT_SYMMETRIC_IES).unwrap();
    let v = 90.0;
    for (h, expected) in [
        (0.0, 100.0),
        (45.0, 200.0),
        (90.0, 300.0),
        (135.0, 200.0),
        (225.0, 200.0),
        (270.0, 300.0),
        (315.0, 200.0),
        (360.0, 100.0),
        (-45.0, 200.0),
    ] {
        assert!((candela_at(&p, v, h) - expected).abs() < 1e-4, "h={h}");
    }
}

#[test]
fn candela_at_folds_bilateral_symmetric_profile_about_180_plane() {
    let p = parse(BILATERAL_SYMMETRIC_IES).unwrap();
    let v = 90.0;
    assert!((candela_at(&p, v, 0.0) - 100.0).abs() < 1e-4);
    assert!((candela_at(&p, v, 90.0) - 200.0).abs() < 1e-4);
    assert!((candela_at(&p, v, 180.0) - 300.0).abs() < 1e-4);
    assert!((candela_at(&p, v, 270.0) - 200.0).abs() < 1e-4);
    assert!((candela_at(&p, v, 225.0) - 250.0).abs() < 1e-3);
    assert!((candela_at(&p, v, 360.0) - 100.0).abs() < 1e-4);
}

#[test]
fn candela_at_keeps_to_the_ends_of_the_table() {
    let p = parse(SAMPLE_IES).unwrap();
    assert_eq!(candela_at(&p, 150.0, 12.0), 2.0);
    assert_eq!(candela_at(&p, -10.0, 200.0), 10.0);
    assert!((candela_at(&p, 33.75, 0.0) - 7.0).abs() < 1e-4);
    let mut empty = parse(SAMPLE_IES).unwrap();
    empty.vertical_angles.clear();
    assert_eq!(candela_at(&empty, 0.0, 0.0), 0.0);
}

#[test]
fn lookup_texture_periodic_at_360_wrap_for_quadrant_symmetric_profile() {
    let p = parse(QUADRANT_SYMMETRIC_IES).unwrap();
    let tex = bake(&p, 13, 3);
    let last_col = tex.width as usize - 1;
    let w = tex.width as usize;
    let v_equator_row = 1;
    let c0 = val(tex.candela[v_equator_row * w]);
    let c_last = val(tex.candela[v_equator_row * w + last_col]);
    assert!((c0 - c_last).abs() < 1e-3, "bake not periodic: {c0}, {c_last}");
    let just_below_360 = sample(&tex, 90.0, 359.99);
    let just_above_zero = sample(&tex, 90.0, 0.01);
    assert!(
        (just_below_360 - just_above_zero).abs() < 1e-3,
        "sampler discontinuous: {just_below_360}, {just_above_zero}"
    );
}

#[test]
fn lookup_texture_periodic_at_360_wrap_for_bilateral_symmetric_profile() {
    let p = parse(BILATERAL_SYMMETRIC_IES).unwrap();
    let tex = bake(&p, 13, 3);
    let last_col = tex.width as usize - 1;
    let w = tex.width as usize;
    let v_equator_row = 1;
    let c0 = val(tex.candela[v_equator_row * w]);
    let c_last = val(tex.candela[v_equator_row * w + last_col]);
    assert!((c0 - c_last).abs() < 1e-3, "bake not periodic: {c0}, {c_last}");
}

#[test]
fn lookup_texture_sample_handles_width_one() {
    let p = parse(SAMPLE_IES).unwrap();
    let tex = bake(&p, 1, 5);
    assert_eq!(tex.width, 1);
    for h in [0.0_f32, 47.0, 180.0, 360.0, -90.0] {
        let got = sample(&tex, 0.0, h);
        assert!((got - 10.0).abs() < 1e-4, "h={h}: expected 10.0, got {got}");
    }
}

#[test]
fn lookup_texture_without_its_buffer_is_dark() {
    let tex = IesLookupTexture { width: 4, height: 4, candela: vec![num(7.0); 15] };
    assert_eq!(sample(&tex, 90.0, 90.0), 0.0);
    let flat = IesLookupTexture { width: 0, height: 0, candela: vec![num(7.0)] };
    assert_eq!(sample(&flat, 90.0, 90.0), 7.0);
}

// ---- lights ------------------------------------------------------------

fn orthonormal_basis(n: glam::Vec3) -> (glam::Vec3, glam::Vec3) {
    let sign = if n.z >= 0.0 { 1.0 } else { -1.0 };
    let a = -1.0 / (sign + n.z);
    let b = n.x * n.y * a;
    let t = glam::Vec3::new(1.0 + sign * n.x * n.x * a, sign * b, -sign * n.x).normalize();
    let bt = glam::Vec3::new(b, sign + n.y * n.y * a, -n.y).normalize();
    (t, bt)
}

fn reach(light: &NativeLight, from: Vec3, u: LampDraws) -> LightReach {
    let mut r = LightReach {
        direction: Vec3::splat(num(0.0)),
        distance: num(0.0),
        distance_squared: num(0.0),
        cos_at_light: num(0.0),
        cos_alpha: num(0.0),
        density: num(0.0),
        vertical_deg: num(0.0),
        horizontal_deg: num(0.0),
    };
    let from = gl(from);
    match light {
        NativeLight::Sun { direction, angular_radius_rad, .. } => {
            let cone = -gl(*direction);
            let cos_alpha = val(*angular_radius_rad).cos();
            let (t, b) = orthonormal_basis(cone);
            let cos_theta = 1.0 - val(u.u1) * (1.0 - cos_alpha);
            let sin_theta = (1.0 - cos_theta * cos_theta).max(0.0).sqrt();
            let phi = 2.0 * std::f32::consts::PI * val(u.u2);
            let dir = cone * cos_theta + (t * phi.cos() + b * phi.sin()) * sin_theta;
            r.direction = lib(dir.normalize());
            r.cos_alpha = num(cos_alpha);
            r.density = num(1.0 / (2.0 * std::f32::consts::PI * (1.0 - cos_alpha)));
        }
        NativeLight::Area { position, normal, u_axis, v_axis, width, height, .. } => {
            let point = gl(*position)
                + gl(*u_axis) * ((val(u.u1) - 0.5) * val(*width))
                + gl(*v_axis) * ((val(u.u2) - 0.5) * val(*height));
            let to_light = point - from;
            let dist_sq = to_light.length_squared().max(1e-12);
            let dist = dist_sq.sqrt();
            let dir = to_light / dist;
            let cos = (-dir).dot(gl(*normal)).max(0.0);
            r.direction = lib(dir);
            r.distance = num(dist);
            r.cos_at_light = num(cos);
            r.density = num(dist_sq / (cos * (val(*width) * val(*height))));
        }
        NativeLight::Point { position, .. } => {
            let to_light = gl(*position) - from;
            let dist_sq = to_light.length_squared().max(1e-12);
            r.direction = lib(to_light / dist_sq.sqrt());
            r.distance = num(dist_sq.sqrt());
            r.distance_squared = num(dist_sq);
        }
        NativeLight::Ies { position, forward, up, .. } => {
            let to_light = gl(*position) - from;
            let dist_sq = to_light.length_squared().max(1e-12);
            let dir = to_light / dist_sq.sqrt();
            let right = gl(*forward).cross(gl(*up)).normalize();
            let true_up = right.cross(gl(*forward)).normalize();
            let v = -dir;
            let local =
                glam::Vec3::new(v.dot(right), v.dot(true_up), v.dot(gl(*forward)));
            let vertical = local.z.clamp(-1.0, 1.0).acos().to_degrees();
            let horizontal = local.y.atan2(local.x).to_degrees().rem_euclid(360.0);
            r.direction = lib(dir);
            r.distance = num(dist_sq.sqrt());
            r.distance_squared = num(dist_sq);
            r.vertical_deg = num(vertical);
            r.horizontal_deg = num(horizontal);
        }
    }
    r
}

fn fade(v: Vec3, distance_squared: Single) -> Vec3 {
    lib(gl(v) / val(distance_squared))
}

fn glow(color: Vec3, candela: Single, scale: Single) -> Vec3 {
    lib(gl(color) * val(candela) * val(scale))
}

fn lamp(light: &NativeLight, from: glam::Vec3) -> Option<LightSample> {
    let angles = AngleArithmetic { minus, plus, wrap, ratio, blend };
    let numbers = LampArithmetic { reach, fade, glow, angles };
    sample_light(light, lib(from), LampDraws { u1: num(0.5), u2: num(0.5) }, &numbers)
}

fn area_light() -> NativeLight {
    NativeLight::Area {
        position: lib(glam::Vec3::new(0.0, 5.0, 0.0)),
        normal: lib(glam::Vec3::NEG_Y),
        u_axis: lib(glam::Vec3::X),
        v_axis: lib(glam::Vec3::Z),
        width: num(2.0),
        height: num(2.0),
        radiance: lib(glam::Vec3::splat(10.0)),
    }
}

#[test]
fn point_light_pdf_is_unity() {
    let l = NativeLight::Point {
        position: lib(glam::Vec3::new(0.0, 5.0, 0.0)),
        intensity: lib(glam::Vec3::splat(100.0)),
    };
    let s = lamp(&l, glam::Vec3::ZERO).unwrap();
    assert_eq!(val(s.pdf), 1.0);
    assert!(val(s.distance) > 4.9 && val(s.distance) < 5.1);
    assert!((val(s.emitted.x) - 4.0).abs() < 1e-3, "got {}", val(s.emitted.x));
}

#[test]
fn area_light_emits_only_on_correct_side() {
    let l = area_light();
    assert!(lamp(&l, glam::Vec3::ZERO).is_some());
    assert!(lamp(&l, glam::Vec3::new(0.0, 10.0, 0.0)).is_none());
}

#[test]
fn sun_light_returns_direction_to_sun_with_small_pdf_for_small_cone() {
    let l = NativeLight::Sun {
        direction: lib(glam::Vec3::new(0.0, -1.0, 0.0)),
        radiance: lib(glam::Vec3::splat(1.0)),
        angular_radius_rad: num(0.005),
    };
    let s = lamp(&l, glam::Vec3::ZERO).unwrap();
    assert!(val(s.direction.y) > 0.99);
    assert!(val(s.pdf) > 100.0);
    assert_eq!(val(s.distance), 1e10);
}

#[test]
fn sun_without_width_has_unit_density() {
    let l = NativeLight::Sun {
        direction: lib(glam::Vec3::NEG_Y),
        radiance: lib(glam::Vec3::ONE),
        angular_radius_rad: num(0.0),
    };
    assert_eq!(val(lamp(&l, glam::Vec3::ZERO).unwrap().pdf), 1.0);
}

#[test]
fn ies_sample_uses_profile() {
    let l = NativeLight::Ies {
        position: lib(glam::Vec3::new(0.0, 3.0, 0.0)),
        forward: lib(glam::Vec3::NEG_Y),
        up: lib(glam::Vec3::Z),
        profile: isotropic(1000.0),
        intensity_scale: num(1.0),
        color: lib(glam::Vec3::ONE),
    };
    let s = lamp(&l, glam::Vec3::ZERO).unwrap();
    assert!(val(s.direction.y) > 0.99);
    assert!((val(s.emitted.x) - 1000.0 / 9.0).abs() < 1e-1);
}

fn heuristic(a: f32, b: f32) -> f32 {
    let squares = |a: Single, b: Single| {
        let (a2, b2) = (val(a) * val(a), val(b) * val(b));
        Squares { sum: num(a2 + b2), quotient: num(a2 / (a2 + b2)) }
    };
    val(power_heuristic(num(a), num(b), &squares))
}

#[test]
fn power_heuristic_unity_at_equal_pdf() {
    assert!((heuristic(1.0, 1.0) - 0.5).abs() < 1e-6);
}

#[test]
fn power_heuristic_zero_dominates() {
    assert_eq!(heuristic(0.0, 1.0), 0.0);
    assert_eq!(heuristic(0.0, 0.0), 0.0);
}

#[test]
fn mis_reduces_variance_on_well_known_combination() {
    let mut max_w = 0.0_f32;
    for i in 0..32 {
        for j in 0..32 {
            let p1 = (i as f32) / 32.0 + 0.01;
            let p2 = (j as f32) / 32.0 + 0.01;
            let w = heuristic(p1, p2);
            max_w = max_w.max(w);
            assert!((0.0..=1.0).contains(&w));
        }
    }
    assert!(max_w > 0.5);
}

fn sun_direction(azimuth: Single, elevation: Single) -> Vec3 {
    let az = val(azimuth).to_radians();
    let el = val(elevation).to_radians();
    lib(glam::Vec3::new(-el.cos() * az.cos(), -el.sin(), -el.cos() * az.sin()).normalize())
}

fn emission(kelvin: Single, intensity: Single) -> Vec3 {
    lib(glam::Vec3::from_array(rgb(val(kelvin))) * val(intensity))
}

#[test]
fn render_light_round_trip_sun() {
    let rl = RenderLight::SunSky {
        azimuth_deg: num(90.0),
        elevation_deg: num(45.0),
        intensity: num(2.0),
        color_temperature_k: num(5500.0),
    };
    match NativeLight::from_render_light(&rl, &sun_direction, &emission) {
        NativeLight::Sun { direction, radiance, .. } => {
            assert!((gl(direction).length() - 1.0).abs() < 1e-4);
            assert!(gl(radiance).length() > 0.0);
        }
        _ => panic!("expected sun"),
    }
}

#[test]
fn render_light_panel_faces_down() {
    let rl = RenderLight::Area {
        position_mm: lib(glam::Vec3::new(1.0, 2.0, 3.0)),
        width_mm: num(4.0),
        height_mm: num(5.0),
        intensity: num(2.0),
        color_temperature_k: num(6600.0),
    };
    match NativeLight::from_render_light(&rl, &sun_direction, &emission) {
        NativeLight::Area { normal, u_axis, v_axis, width, height, radiance, .. } => {
            assert_eq!(gl(normal), glam::Vec3::NEG_Y);
            assert_eq!(gl(u_axis), glam::Vec3::X);
            assert_eq!(gl(v_axis), glam::Vec3::Z);
            assert_eq!((val(width), val(height)), (4.0, 5.0));
            assert_eq!(val(radiance.x), 2.0);
        }
        _ => panic!("expected a panel"),
    }
}

#[test]
fn delta_light_detection() {
    assert!(is_delta(&NativeLight::Point {
        position: lib(glam::Vec3::ZERO),
        intensity: lib(glam::Vec3::ONE)
    }));
    assert!(!is_delta(&area_light()));
}
