//! Render presets, the requests built from them, scenes, and the search for the
//! renderer's executable.
use std::collections::HashSet;

use aec_render::blender_discovery::{discover_blender_with, DiscoverySource, Host, Platform};
use aec_render::catalog::Catalog;
use aec_render::geometry::{Mat4, Vec2, Vec3, Vec4};
use aec_render::preset::{
    migrate_legacy_preset_id, quality_for_id, recommend_preset, HardwareTier, PresetError,
    RenderPreset, RenderPresetStore, RenderQuality,
};
use aec_render::scene::{GeometryMesh, RenderScene, SerializedMesh};
use aec_render::single::Single;
use aec_render::worker::{BlenderRequest, CyclesPipeline, EeveePipeline};

fn num(x: f32) -> Single {
    Single::from_bits(x.to_bits())
}

fn vec3(x: f32, y: f32, z: f32) -> Vec3 {
    Vec3::new(num(x), num(y), num(z))
}

fn vec2(x: f32, y: f32) -> Vec2 {
    Vec2 { x: num(x), y: num(y) }
}

fn vec4(x: f32, y: f32, z: f32, w: f32) -> Vec4 {
    Vec4 { x: num(x), y: num(y), z: num(z), w: num(w) }
}

fn linux() -> Host {
    Host {
        platform: Platform::Linux,
        home: Some("/home/me".to_string()),
        current_dir: Some("/work".to_string()),
    }
}

fn among(paths: &[&str]) -> HashSet<String> {
    paths.iter().map(|p| p.to_string()).collect()
}

#[test]
fn presets_have_increasing_samples() {
    assert!(RenderPreset::quick().config.samples < RenderPreset::standard().config.samples);
    assert!(RenderPreset::standard().config.samples < RenderPreset::high().config.samples);
    assert!(RenderPreset::high().config.samples < RenderPreset::studio().config.samples);
}

#[test]
fn defaults_are_unique_ids() {
    let presets = RenderPreset::defaults();
    let mut ids: Vec<&str> = presets.iter().map(|p| p.id.as_str()).collect();
    ids.sort_unstable();
    ids.dedup();
    assert_eq!(ids.len(), presets.len());
}

#[test]
fn recommend_preset_maps_each_tier_per_architecture_md() {
    assert_eq!(recommend_preset(HardwareTier::Low), RenderQuality::Quick);
    assert_eq!(recommend_preset(HardwareTier::Medium), RenderQuality::Standard);
    assert_eq!(recommend_preset(HardwareTier::High), RenderQuality::High);
    assert_eq!(recommend_preset(HardwareTier::Pro), RenderQuality::Studio);
}

#[test]
fn store_for_tier_preselects_the_recommendation() {
    let store = RenderPresetStore::for_tier(HardwareTier::High);
    assert_eq!(store.current().config.quality, RenderQuality::High);
    let store_low = RenderPresetStore::for_tier(HardwareTier::Low);
    assert_eq!(store_low.current().config.quality, RenderQuality::Quick);
}

#[test]
fn preset_store_roundtrips_via_serde() {
    let mut store = RenderPresetStore::for_tier(HardwareTier::Pro);
    let mut custom = RenderPreset::standard();
    custom.id = "studio_high_iso".to_string();
    custom.display_name = "Studio (high ISO)".to_string();
    custom.config.samples = 768;
    store.insert_custom(custom).unwrap();
    assert!(store.select("studio_high_iso"));

    // The selection goes through JSON; the presets are put back one by one.
    let bytes = serde_json::to_vec(&store.selected).unwrap();
    let selected: String = serde_json::from_slice(&bytes).unwrap();
    let mut presets: Catalog<RenderPreset> = Catalog::new();
    for i in 0..store.custom.len() {
        presets.insert(store.custom.key_at(i).clone(), store.custom.value_at(i).clone());
    }
    let loaded =
        RenderPresetStore::from_saved(presets, &store.order, &selected, store.recommendation_override);
    assert_eq!(loaded.selected, store.selected);
    assert_eq!(loaded.all(), store.all());
    assert_eq!(loaded.recommendation_override, store.recommendation_override);
    assert_eq!(loaded.current().id, "studio_high_iso");
    assert_eq!(loaded.current().config.samples, 768);
}

#[test]
fn store_rejects_custom_id_collisions_with_bundled() {
    let mut store = RenderPresetStore::default();
    let mut clash = RenderPreset::quick();
    clash.display_name = "User Quick".to_string();
    let err = store.insert_custom(clash).unwrap_err();
    assert!(matches!(err, PresetError::ReservedId(id) if id == "quick"));
}

#[test]
fn remove_custom_falls_back_to_standard_for_active_preset() {
    let mut store = RenderPresetStore::default();
    let mut custom = RenderPreset::standard();
    custom.id = "draft_preset".to_string();
    store.insert_custom(custom).unwrap();
    store.select("draft_preset");
    assert_eq!(store.current().id, "draft_preset");
    assert!(store.remove_custom("draft_preset"));
    assert_eq!(store.current().id, RenderPreset::standard().id);
}

#[test]
fn recommendation_override_pins_quality() {
    let mut store = RenderPresetStore::for_tier(HardwareTier::Pro);
    store.recommendation_override = Some(RenderQuality::Quick);
    assert_eq!(store.recommended(HardwareTier::Pro).config.quality, RenderQuality::Quick);
    store.recommendation_override = None;
    assert_eq!(store.recommended(HardwareTier::Pro).config.quality, RenderQuality::Studio);
}

#[test]
fn preset_store_select_rejects_unknown_ids() {
    let mut store = RenderPresetStore::default();
    let original = store.selected.clone();
    assert!(!store.select("nope"));
    assert_eq!(store.selected, original);
}

#[test]
fn migrate_legacy_preset_id_maps_all_known_legacy_ids() {
    assert_eq!(migrate_legacy_preset_id("cycles_quick"), "quick");
    assert_eq!(migrate_legacy_preset_id("cycles_standard"), "standard");
    assert_eq!(migrate_legacy_preset_id("cycles_high"), "high");
    assert_eq!(migrate_legacy_preset_id("cycles_studio"), "studio");
    assert_eq!(migrate_legacy_preset_id("cycles_walkthrough"), "walkthrough");
    assert_eq!(migrate_legacy_preset_id("cycles_panorama"), "panorama");
    assert_eq!(migrate_legacy_preset_id("cycles_eevee_preview"), "eevee_preview");
    assert_eq!(migrate_legacy_preset_id("standard"), "standard");
    assert_eq!(migrate_legacy_preset_id("custom_evening"), "custom_evening");
}

#[test]
fn store_deserializes_legacy_cycles_ids() {
    let legacy_json = r#"{
            "custom": {},
            "selected": "cycles_high",
            "recommendation_override": null
        }"#;
    let saved: serde_json::Value = serde_json::from_str(legacy_json).unwrap();
    let selected = saved.get("selected").and_then(|s| s.as_str()).unwrap();
    let store = RenderPresetStore::from_saved(Catalog::new(), &Vec::new(), selected, None);
    assert_eq!(store.selected, "high");
    assert_eq!(store.current().id, "high");
}

#[test]
fn store_get_accepts_legacy_id_at_runtime() {
    let store = RenderPresetStore::default();
    let preset = store.get("cycles_studio").expect("legacy id resolves");
    assert_eq!(preset.id, "studio");
}

#[test]
fn selecting_by_a_former_id_stores_the_short_one() {
    let mut store = RenderPresetStore::default();
    assert!(store.select("cycles_high"));
    assert_eq!(store.selected, "high");
}

#[test]
fn bundled_presets_hold_the_documented_numbers() {
    let studio = RenderPreset::from_quality(RenderQuality::Studio);
    assert_eq!(studio.config.samples, 1024);
    assert_eq!(quality_for_id("panorama"), Some(RenderQuality::Panorama));
    assert_eq!(quality_for_id("cycles_panorama"), None);
    let pano = RenderPreset::panorama();
    assert_eq!(pano.config.resolution_x, 2 * pano.config.resolution_y);
}

#[test]
fn own_presets_follow_the_bundled_ones() {
    let mut store = RenderPresetStore::default();
    for id in ["zebra", "apple"] {
        let mut custom = RenderPreset::quick();
        custom.id = id.to_string();
        store.insert_custom(custom).unwrap();
    }
    let ids: Vec<String> = store.all().into_iter().map(|p| p.id).collect();
    let bundled = RenderPreset::defaults().len();
    assert_eq!(ids.len(), bundled + 2);
    assert_eq!(ids[bundled], "zebra");
    assert_eq!(ids[bundled + 1], "apple");
    assert!(!store.remove_custom("quick"));
}

fn own_ids(store: &RenderPresetStore) -> Vec<String> {
    store.all().into_iter().skip(7).map(|p| p.id).collect()
}

#[test]
fn own_presets_come_in_the_order_they_were_saved() {
    let mut store = RenderPresetStore::default();
    for id in ["zeta", "alpha", "mid"] {
        let mut custom = RenderPreset::quick();
        custom.id = id.to_string();
        store.insert_custom(custom).unwrap();
    }
    assert_eq!(own_ids(&store), ["zeta", "alpha", "mid"]);
    let mut again = RenderPreset::high();
    again.id = "alpha".to_string();
    store.insert_custom(again).unwrap();
    assert_eq!(own_ids(&store), ["zeta", "alpha", "mid"]);
    assert_eq!(store.all()[8].config, RenderPreset::high().config);
    assert!(store.remove_custom("zeta"));
    assert!(!store.remove_custom("zeta"));
    assert_eq!(own_ids(&store), ["alpha", "mid"]);
}

#[test]
fn saving_and_removing_leaves_the_store_as_it_was() {
    let mut store = RenderPresetStore::default();
    let mut first = RenderPreset::quick();
    first.id = "first".to_string();
    store.insert_custom(first).unwrap();
    let before = store.all();
    let mut second = RenderPreset::quick();
    second.id = "a_second".to_string();
    store.insert_custom(second).unwrap();
    assert_eq!(store.all().len(), 9);
    assert!(store.remove_custom("a_second"));
    assert_eq!(store.all(), before);
    assert_eq!(store.selected, "standard");
}

#[test]
fn saved_orders_are_mended() {
    let mut presets: Catalog<RenderPreset> = Catalog::new();
    for id in ["b", "a", "c"] {
        let mut custom = RenderPreset::quick();
        custom.id = id.to_string();
        presets.insert(id.to_string(), custom);
    }
    let order: Vec<String> = ["c", "gone", "c"].iter().map(|s| s.to_string()).collect();
    let store = RenderPresetStore::from_saved(presets, &order, "quick", None);
    assert_eq!(own_ids(&store), ["c", "a", "b"]);
}

#[test]
fn relative_paths_count_from_the_current_directory() {
    let d = discover_blender_with(&linux(), Some("tools/blender"), None, None, |p: &str| {
        p == "/work/tools/blender"
    })
    .unwrap();
    assert_eq!(d.path, "/work/tools/blender");
    assert_eq!(d.source, DiscoverySource::EnvAecBlenderBin);
    let d = discover_blender_with(&linux(), None, None, Some("bin"), |p: &str| {
        p == "/work/bin/blender"
    })
    .unwrap();
    assert_eq!(d.path, "/work/bin/blender");
    assert_eq!(d.source, DiscoverySource::Path);
}

#[test]
fn paths_without_an_absolute_form_are_passed_over() {
    let lost = Host { platform: Platform::Other, home: None, current_dir: None };
    assert!(discover_blender_with(&lost, Some("blender"), Some(""), Some("bin"), |_| true).is_none());
    let windows = Host {
        platform: Platform::Windows,
        home: None,
        current_dir: Some("D:\\work".to_string()),
    };
    for (given, found) in [
        ("blender.exe", "D:\\work\\blender.exe"),
        ("C:\\b\\blender.exe", "C:\\b\\blender.exe"),
        ("\\\\host\\share\\blender.exe", "\\\\host\\share\\blender.exe"),
        ("\\blender.exe", "D:\\blender.exe"),
        ("/opt/blender/custom-blender", "D:/opt/blender/custom-blender"),
    ] {
        let d = discover_blender_with(&windows, Some(given), None, None, |_| true).unwrap();
        assert_eq!(d.path, found);
        assert_eq!(d.source, DiscoverySource::EnvAecBlenderBin);
    }
    for given in ["C:blender.exe", "\\\\host", ""] {
        let d = discover_blender_with(&windows, Some(given), None, None, |_| true).unwrap();
        assert_eq!(d.source, DiscoverySource::KnownInstallPath);
    }
}

#[test]
fn aec_env_wins_when_file_exists() {
    let exists = among(&["/opt/blender/custom-blender", "/usr/bin/blender"]);
    let d = discover_blender_with(
        &linux(),
        Some("/opt/blender/custom-blender"),
        Some("/usr/bin/blender"),
        Some("/usr/bin:/bin"),
        |p: &str| exists.contains(p),
    )
    .unwrap();
    assert_eq!(d.source, DiscoverySource::EnvAecBlenderBin);
    assert_eq!(d.path, "/opt/blender/custom-blender");
}

#[test]
fn falls_through_to_known_install_path_when_env_paths_missing() {
    let places = [
        (Platform::Linux, "/usr/bin/blender"),
        (Platform::MacOs, "/Applications/Blender.app/Contents/MacOS/Blender"),
        (Platform::Windows, "C:\\Program Files\\Blender Foundation\\Blender 4.1\\blender.exe"),
    ];
    for (platform, path) in places {
        let host = Host { platform, home: None, current_dir: None };
        let set = among(&[path]);
        let d = discover_blender_with(
            &host,
            Some("/nope/aec-blender"),
            Some("/nope/blender"),
            None,
            |p: &str| set.contains(p),
        )
        .unwrap();
        assert_eq!(d.source, DiscoverySource::KnownInstallPath);
    }
}

#[test]
fn path_search_picks_blender_when_known_paths_miss() {
    let exists = among(&["/opt/extra/blender"]);
    let d = discover_blender_with(&linux(), None, None, Some("/usr/bin:/opt/extra"), |p: &str| {
        exists.contains(p)
    });
    let d = d.expect("expected discovery via PATH");
    assert_eq!(d.source, DiscoverySource::Path);
    assert_eq!(d.path, "/opt/extra/blender");
}

#[test]
fn returns_none_when_nothing_matches() {
    let set = among(&[]);
    let d = discover_blender_with(&linux(), None, None, Some("/none"), |p: &str| set.contains(p));
    assert!(d.is_none());
}

#[test]
fn second_variable_counts_where_the_first_is_missing() {
    let exists = among(&["/b"]);
    let d = discover_blender_with(&linux(), Some("/a"), Some("/b"), None, |p: &str| {
        exists.contains(p)
    })
    .unwrap();
    assert_eq!(d.source, DiscoverySource::EnvBlenderBin);
    assert_eq!(d.path, "/b");
}

#[test]
fn cycles_pipeline_upgrades_eevee_preset() {
    let req = CyclesPipeline::build_request(
        RenderScene::new(),
        RenderPreset::eevee_preview(),
        "out.png".to_string(),
    );
    match req {
        BlenderRequest::CyclesRender { preset, .. } => {
            assert_eq!(preset.config.quality, RenderQuality::Standard);
        }
        _ => panic!("expected CyclesRender"),
    }
}

#[test]
fn cycles_pipeline_keeps_standard_preset_intact() {
    let req = CyclesPipeline::build_request(
        RenderScene::new(),
        RenderPreset::high(),
        "out.png".to_string(),
    );
    match req {
        BlenderRequest::CyclesRender { preset, .. } => {
            assert_eq!(preset.config.quality, RenderQuality::High);
            assert_eq!(preset.config.samples, 256);
        }
        _ => panic!("expected CyclesRender"),
    }
}

#[test]
fn request_uses_eevee_quality() {
    let req = EeveePipeline::build_request(
        RenderScene::new(),
        RenderPreset::studio(),
        "out.png".to_string(),
    );
    match req {
        BlenderRequest::EeveeRender { preset, output_path, .. } => {
            assert_eq!(preset.config.quality, RenderQuality::Eevee);
            assert_eq!(output_path, "out.png");
        }
        _ => panic!("expected EeveeRender"),
    }
}

fn zero_transform() -> Mat4 {
    let z = vec4(0.0, 0.0, 0.0, 0.0);
    Mat4 { row0: z, row1: z, row2: z, row3: z }
}

fn identity() -> Mat4 {
    Mat4 {
        row0: vec4(1.0, 0.0, 0.0, 0.0),
        row1: vec4(0.0, 1.0, 0.0, 0.0),
        row2: vec4(0.0, 0.0, 1.0, 0.0),
        row3: vec4(0.0, 0.0, 0.0, 1.0),
    }
}

#[test]
fn triangle_count_sums_meshes() {
    let mut s = RenderScene::new();
    s.push_mesh(SerializedMesh {
        id: "m1".to_string(),
        indices: vec![0, 1, 2, 0, 1, 2],
        positions: Vec::new(),
        normals: Vec::new(),
        uvs: Vec::new(),
        material_id: None,
        transform: zero_transform(),
    });
    assert_eq!(s.triangle_count(), 2);
}

#[test]
fn push_geometry_mesh_pads_missing_uvs_and_normals() {
    let mesh = GeometryMesh {
        positions: vec![vec3(0.0, 0.0, 0.0), vec3(1.0, 0.0, 0.0), vec3(0.0, 1.0, 0.0)],
        normals: vec![],
        uvs: vec![],
        indices: vec![0, 1, 2],
    };
    let mut s = RenderScene::new();
    s.push_geometry_mesh("wall_1", &mesh, Some("oak".to_string()), identity());
    assert_eq!(s.meshes.len(), 1);
    let m = &s.meshes[0];
    assert_eq!(m.positions.len(), 3);
    assert_eq!(m.normals.len(), 3, "normals padded to position count");
    assert_eq!(m.uvs.len(), 3, "uvs padded to position count");
    assert_eq!(m.indices, vec![0, 1, 2]);
    assert_eq!(m.material_id, Some("oak".to_string()));
    assert_eq!(s.triangle_count(), 1);
}

#[test]
fn push_geometry_mesh_preserves_provided_normals_and_uvs() {
    let mesh = GeometryMesh {
        positions: vec![vec3(0.0, 0.0, 0.0), vec3(1.0, 0.0, 0.0)],
        normals: vec![vec3(0.0, 1.0, 0.0), vec3(0.0, 0.0, 1.0)],
        uvs: vec![vec2(0.0, 0.0), vec2(1.0, 0.0)],
        indices: vec![],
    };
    let s = SerializedMesh::from_geometry_mesh("m", &mesh, None, zero_transform());
    assert_eq!(s.normals, vec![vec3(0.0, 1.0, 0.0), vec3(0.0, 0.0, 1.0)]);
    assert_eq!(s.uvs, vec![vec2(0.0, 0.0), vec2(1.0, 0.0)]);
}
