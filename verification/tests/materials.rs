//! Materials, their library, mood boards, swaps, and what is wrong with materials.
use aec_render::doctor::{
    check_materials, detect_channel_swap, CheckMaterialsOptions, MaterialCheckResult,
    MaterialFinding,
};
use aec_render::geometry::{Mat4, Vec3, Vec4};
use aec_render::ids::EntityId;
use aec_render::materials::library::{MaterialLibrary, MaterialLibraryError, MaterialQuery};
use aec_render::materials::material::{PbrMaterial, TextureRef};
use aec_render::materials::mood_board::{
    generate_mood_board, quantise, MoodBoard, MAX_SWATCHES, MAX_SWATCHES_PER_PAGE,
    PALETTE_BIN_COUNT,
};
use aec_render::materials::swap::FinishSwap;
use aec_render::scene::{RenderScene, SerializedMesh};
use aec_render::single::Single;

fn num(x: f32) -> Single {
    Single::from_bits(x.to_bits())
}

fn val(x: Single) -> f32 {
    f32::from_bits(x.to_bits())
}

fn vec3(x: f32, y: f32, z: f32) -> Vec3 {
    Vec3::new(num(x), num(y), num(z))
}

fn times_bins(x: Single) -> Single {
    num(val(x) * PALETTE_BIN_COUNT as f32)
}

fn mean(a: Single, n: u32, x: Single) -> Single {
    let n = n as f32;
    num((val(a) * (n - 1.0) + val(x)) / n)
}

fn show(x: Single) -> String {
    format!("{}", val(x))
}

fn show_part(x: Single) -> String {
    format!("{:?}", val(x))
}

// ---- the library -------------------------------------------------------

#[test]
fn default_pack_has_eight_materials() {
    let lib = MaterialLibrary::with_default_pack();
    assert_eq!(lib.len(), 8);
}

#[test]
fn query_by_style_tag_filters_results() {
    let lib = MaterialLibrary::with_default_pack();
    let q = MaterialQuery { style_tags: vec!["warm".to_string()], ..MaterialQuery::default() };
    let hits = lib.query(&q);
    assert!(!hits.is_empty());
    for m in hits {
        assert!(m.style_tags.iter().any(|s| s == "warm"));
    }
}

#[test]
fn duplicate_add_errors() {
    let mut lib = MaterialLibrary::new();
    lib.add(PbrMaterial::new("a", "A")).unwrap();
    let err = lib.add(PbrMaterial::new("a", "A2")).unwrap_err();
    assert_eq!(err, MaterialLibraryError::DuplicateId("a".to_string()));
    assert_eq!(err.message(), "duplicate material id `a`");
    assert_eq!(lib.get("a").unwrap().name, "A");
    assert_eq!(
        MaterialLibraryError::NotFound("b".to_string()).message(),
        "material `b` not found"
    );
}

#[test]
fn load_pack_inserts_materials() {
    let mut lib = MaterialLibrary::new();
    let n = lib.load_pack(vec![PbrMaterial::new("b", "B")]);
    assert_eq!(n, 1);
    assert!(lib.get("b").is_some());
}

#[test]
fn query_by_name_ignores_case() {
    let mut lib = MaterialLibrary::with_default_pack();
    lib.upsert(PbrMaterial::new("mat:steel", "ÉDELSTAHL Gebürstet"));
    let by_name = |part: &str| {
        let q = MaterialQuery {
            name_contains: Some(part.to_string()),
            ..MaterialQuery::default()
        };
        lib.query(&q).into_iter().map(|m| m.id.clone()).collect::<Vec<String>>()
    };
    assert_eq!(by_name("OAK"), vec!["mat:oak_light".to_string()]);
    assert_eq!(by_name("édel"), vec!["mat:steel".to_string()]);
    assert_eq!(by_name("stahl GEBÜR"), vec!["mat:steel".to_string()]);
    assert!(by_name("granite").is_empty());
}

#[test]
fn query_lists_by_name_up_to_the_limit() {
    let lib = MaterialLibrary::with_default_pack();
    let all = lib.query(&MaterialQuery::default());
    let names: Vec<&str> = all.iter().map(|m| m.name.as_str()).collect();
    let mut sorted = names.clone();
    sorted.sort_unstable();
    assert_eq!(names, sorted);
    let q = MaterialQuery { limit: Some(3), ..MaterialQuery::default() };
    assert_eq!(lib.query(&q).len(), 3);
    assert_eq!(lib.iter()[0].id, "mat:brushed_brass");
}

#[test]
fn query_by_tag_and_vendor_asks_for_both() {
    let mut lib = MaterialLibrary::new();
    let mut m = PbrMaterial::new("a", "A");
    m.tags = vec!["floor".to_string(), "wood".to_string()];
    m.vendor_id = Some("acme".to_string());
    lib.add(m).unwrap();
    let mut q = MaterialQuery { tags: vec!["wood".to_string()], ..MaterialQuery::default() };
    assert_eq!(lib.query(&q).len(), 1);
    q.vendor_id = Some("other".to_string());
    assert!(lib.query(&q).is_empty());
}

#[test]
fn default_pack_is_tuned_by_kind() {
    let lib = MaterialLibrary::with_default_pack();
    let brass = lib.get("mat:brushed_brass").unwrap();
    assert_eq!(val(brass.metallic), 0.9);
    assert_eq!(val(brass.roughness), 0.3);
    assert_eq!(val(lib.get("mat:linen_oat").unwrap().roughness), 0.85);
    assert_eq!(val(lib.get("mat:marble_carrara").unwrap().roughness), 0.45);
    let oak = lib.get("mat:oak_light").unwrap();
    assert_eq!(oak.albedo, vec3(0.78, 0.66, 0.5));
    assert_eq!(val(oak.roughness), 0.6);
}

// ---- mood boards -------------------------------------------------------

fn mat(id: &str, name: &str, rgb: [f32; 3], tags: &[&str]) -> PbrMaterial {
    PbrMaterial::new(id, name)
        .with_albedo(vec3(rgb[0], rgb[1], rgb[2]))
        .with_style_tags(tags.iter().map(|s| s.to_string()).collect())
}

fn board(room: &str, materials: &Vec<PbrMaterial>) -> MoodBoard {
    generate_mood_board(room.to_string(), materials, times_bins, mean)
}

#[test]
fn empty_input_returns_empty_board() {
    let mb = board("room-1", &vec![]);
    assert!(mb.is_empty());
    assert_eq!(mb.style_tags, Vec::<String>::new());
}

#[test]
fn swatch_count_matches_input_count() {
    let mats = vec![
        mat("a", "Oak", [0.7, 0.55, 0.4], &["scandi"]),
        mat("b", "Wool", [0.85, 0.82, 0.78], &["scandi", "warm"]),
        mat("c", "Concrete", [0.4, 0.4, 0.42], &["industrial"]),
    ];
    let mb = board("room-1", &mats);
    assert_eq!(mb.swatches.len(), 3);
}

#[test]
fn style_tags_are_union_sorted_dedup() {
    let mats = vec![
        mat("a", "x", [0.5; 3], &["scandi", "warm"]),
        mat("b", "y", [0.5; 3], &["warm", "industrial"]),
    ];
    let mb = board("room-1", &mats);
    assert_eq!(mb.style_tags, vec!["industrial", "scandi", "warm"]);
}

#[test]
fn dominant_colour_groups_similar_albedos() {
    let mats = vec![
        mat("a", "Grey1", [0.40, 0.41, 0.42], &[]),
        mat("b", "Grey2", [0.41, 0.40, 0.41], &[]),
        mat("c", "Grey3", [0.42, 0.42, 0.40], &[]),
        mat("d", "Oak", [0.78, 0.55, 0.30], &[]),
    ];
    let mb = board("room-1", &mats);
    assert!(!mb.palette.is_empty());
    assert!(mb.palette[0].count >= mb.palette[1].count);
    assert_eq!(mb.palette[0].count, 3);
    assert!((val(mb.palette[0].albedo.x) - 0.41).abs() < 1e-5);
    assert_eq!(mb.palette[0].material_ids, vec!["a", "b", "c"]);
}

#[test]
fn output_is_deterministic_regardless_of_input_order() {
    let m1 = mat("a", "x", [0.7, 0.7, 0.7], &["s"]);
    let m2 = mat("b", "y", [0.3, 0.3, 0.3], &["i"]);
    let mb1 = board("r", &vec![m1.clone(), m2.clone()]);
    let mb2 = board("r", &vec![m2, m1]);
    assert_eq!(mb1, mb2);
}

#[test]
fn palette_counts_add_up_and_list_each_material_once() {
    let mats: Vec<PbrMaterial> = (0..20)
        .map(|i| {
            let shade = i as f32 / 20.0;
            mat(&format!("m{i:02}"), "Mat", [shade, 1.0 - shade, 0.5], &[])
        })
        .collect();
    let mb = board("r", &mats);
    assert_eq!(mb.palette.iter().map(|e| e.count).sum::<u32>(), 20);
    assert!(mb.palette.iter().all(|e| e.count as usize == e.material_ids.len()));
    assert!(mb.palette.windows(2).all(|w| w[0].count >= w[1].count));
    let mut ids: Vec<&String> = mb.palette.iter().flat_map(|e| &e.material_ids).collect();
    ids.sort();
    let all: Vec<&String> = mb.swatches.iter().map(|s| &s.material_id).collect();
    assert_eq!(ids, all);
}

#[test]
fn pages_split_by_max_swatches() {
    let mats: Vec<PbrMaterial> = (0..(MAX_SWATCHES_PER_PAGE + 3))
        .map(|i| mat(&format!("m{i:02}"), &format!("Mat {i}"), [0.5; 3], &[]))
        .collect();
    let mb = board("r", &mats);
    let pages = mb.pages();
    assert_eq!(pages.len(), 2);
    assert_eq!(pages[0].swatches.len(), MAX_SWATCHES_PER_PAGE);
    assert_eq!(pages[1].swatches.len(), 3);
    assert_eq!(pages[0].page_index, 0);
    assert_eq!(pages[1].page_index, 1);
}

#[test]
fn board_holds_no_more_than_its_swatches() {
    let mats: Vec<PbrMaterial> =
        (0..200).map(|i| mat(&format!("m{i:03}"), "M", [0.5; 3], &["t"])).collect();
    let mb = board("r", &mats);
    assert_eq!(mb.swatches.len(), MAX_SWATCHES);
    assert_eq!(mb.page_count(), 8);
    assert_eq!(mb.swatches[0].material_id, "m000");
    assert_eq!(mb.swatches[0].style_tag.as_deref(), Some("t"));
}

#[test]
fn quantise_clamps_out_of_range_values() {
    let q = quantise(&times_bins, vec3(-0.5, 2.0, 0.5));
    assert!(q.0 < PALETTE_BIN_COUNT as u8);
    assert!(q.1 < PALETTE_BIN_COUNT as u8);
    assert!(q.2 < PALETTE_BIN_COUNT as u8);
    assert_eq!(q, (0, 5, 3));
}

// ---- swaps -------------------------------------------------------------

#[test]
fn preview_carries_previous_id() {
    let swap = FinishSwap {
        target_entity: EntityId::new(),
        slot: 0,
        new_material_id: "mat:walnut".to_string(),
    };
    let preview = swap.clone().preview(Some("mat:oak_light".to_string()));
    assert_eq!(preview.swap.new_material_id, "mat:walnut");
    assert_eq!(preview.previous_material_id.as_deref(), Some("mat:oak_light"));
}

// ---- the doctor --------------------------------------------------------

fn plain(id: &str) -> PbrMaterial {
    PbrMaterial::new(id, id)
}

fn texture(hash: &str, channel: &str, edge: u32) -> TextureRef {
    TextureRef {
        blob_hash: hash.to_string(),
        channel: channel.to_string(),
        width: edge,
        height: edge,
    }
}

fn scene_with(materials: &[&str]) -> RenderScene {
    let z = Vec4 { x: num(0.0), y: num(0.0), z: num(0.0), w: num(0.0) };
    let mut s = RenderScene::new();
    for m in materials {
        s.push_mesh(SerializedMesh {
            id: format!("mesh-{m}"),
            indices: vec![0, 1, 2],
            positions: Vec::new(),
            normals: Vec::new(),
            uvs: Vec::new(),
            material_id: Some(m.to_string()),
            transform: Mat4 { row0: z, row1: z, row2: z, row3: z },
        });
    }
    s
}

fn check(
    scene: &RenderScene,
    materials: Vec<PbrMaterial>,
    known: &[&str],
    opts: &CheckMaterialsOptions,
) -> MaterialCheckResult {
    let known: Vec<String> = known.iter().map(|h| h.to_string()).collect();
    check_materials(scene, &materials, &known, opts, show, show_part)
}

#[test]
fn clean_scene_yields_no_findings() {
    let scene = scene_with(&["mat:oak"]);
    let result = check(&scene, vec![plain("mat:oak")], &[], &CheckMaterialsOptions::default());
    assert!(result.is_clean());
}

#[test]
fn missing_texture_blob_is_flagged_as_error() {
    let mut m = plain("mat:oak");
    m.albedo_map = Some(texture("deadbeef", "albedo", 1024));
    let scene = scene_with(&["mat:oak"]);
    let result = check(&scene, vec![m], &[], &CheckMaterialsOptions::default());
    assert_eq!(result.findings.len(), 1);
    assert!(matches!(result.findings[0], MaterialFinding::MissingTexture { .. }));
    assert!(result.has_blocking_issues());
    assert_eq!(
        result.findings[0].message(),
        "mat:oak: albedo texture blob `deadbeef` is missing from the asset store"
    );
}

#[test]
fn non_pbr_metallic_above_one_flagged() {
    let mut m = plain("mat:oak");
    m.metallic = num(1.4);
    let scene = scene_with(&["mat:oak"]);
    let result = check(&scene, vec![m], &[], &CheckMaterialsOptions::default());
    assert!(result
        .findings
        .iter()
        .any(|f| matches!(f, MaterialFinding::NonPbrMaterial { .. })));
    assert_eq!(result.findings[0].message(), "mat:oak: non-PBR — metallic 1.4 out of [0,1]");
    assert!(!result.has_blocking_issues());
}

#[test]
fn each_parameter_out_of_range_is_named() {
    let scene = scene_with(&["m"]);
    let fault = |change: fn(&mut PbrMaterial)| {
        let mut m = plain("m");
        change(&mut m);
        let result = check(&scene, vec![m], &[], &CheckMaterialsOptions::default());
        assert_eq!(result.findings.len(), 1);
        result.findings[0].message()
    };
    assert_eq!(
        fault(|m| m.albedo = vec3(0.5, 1.5, 0.25)),
        "m: non-PBR — albedo [0.5, 1.5, 0.25] out of [0,1]"
    );
    assert_eq!(fault(|m| m.roughness = num(-1.0)), "m: non-PBR — roughness -1 out of [0,1]");
    assert_eq!(
        fault(|m| m.ior = num(4.0)),
        "m: non-PBR — ior 4 is outside the realistic 1.0..=3.0 range"
    );
    assert_eq!(
        fault(|m| {
            m.metallic = num(0.75);
            m.transmission = num(0.75);
        }),
        "m: non-PBR — metallic + transmissive is not a real PBR material"
    );
}

#[test]
fn swapped_channel_detected_when_normal_in_albedo_slot() {
    let mut m = plain("mat:oak");
    m.albedo_map = Some(texture("h1", "normal", 1024));
    let scene = scene_with(&["mat:oak"]);
    let result = check(&scene, vec![m], &["h1"], &CheckMaterialsOptions::default());
    let has_swap = result
        .findings
        .iter()
        .any(|f| matches!(f, MaterialFinding::SwappedChannels { .. }));
    assert!(has_swap, "expected swapped-channel finding, got {:?}", result.findings);
}

#[test]
fn channel_names_are_known_in_any_case() {
    assert_eq!(detect_channel_swap(&texture("h", "NORMAL", 1), "albedo"), Some("normal"));
    assert_eq!(detect_channel_swap(&texture("h", "Albedo", 1), "albedo"), None);
    assert_eq!(detect_channel_swap(&texture("h", "", 1), "albedo"), None);
}

#[test]
fn oversized_texture_flagged_against_budget() {
    let mut m = plain("mat:oak");
    m.albedo_map = Some(texture("h1", "albedo", 8192));
    let scene = scene_with(&["mat:oak"]);
    let result = check(&scene, vec![m], &["h1"], &CheckMaterialsOptions::default());
    assert!(result
        .findings
        .iter()
        .any(|f| matches!(f, MaterialFinding::OversizedTexture { .. })));
}

#[test]
fn material_referenced_but_missing_from_library_is_flagged() {
    let scene = scene_with(&["mat:ghost"]);
    let result = check(&scene, vec![], &[], &CheckMaterialsOptions::default());
    assert_eq!(result.findings.len(), 1);
    assert_eq!(result.findings[0].material_id(), "mat:ghost");
    assert!(matches!(result.findings[0], MaterialFinding::MissingTexture { .. }));
}

#[test]
fn findings_do_not_depend_on_order_repeats_or_unused_materials() {
    let broken = |id: &str| {
        let mut m = plain(id);
        m.metallic = num(2.0);
        m
    };
    let opts = CheckMaterialsOptions::default();
    let first = check(&scene_with(&["b", "a"]), vec![broken("a"), broken("b")], &[], &opts);
    let ids: Vec<&str> = first.findings.iter().map(|f| f.material_id()).collect();
    assert_eq!(ids, ["a", "b"]);
    let repeated = scene_with(&["a", "b", "a", "b"]);
    assert_eq!(check(&repeated, vec![broken("a"), broken("b")], &[], &opts), first);
    let turned = scene_with(&["b", "a"]);
    assert_eq!(check(&turned, vec![broken("b"), broken("a")], &[], &opts), first);
    let more = vec![broken("z"), broken("a"), broken("0"), broken("b")];
    assert_eq!(check(&turned, more, &[], &opts), first);
}

#[test]
fn unused_materials_are_not_inspected() {
    let mut bad = plain("mat:oak");
    bad.metallic = num(9.0);
    let scene = scene_with(&["mat:used"]);
    let result = check(
        &scene,
        vec![bad, plain("mat:used")],
        &[],
        &CheckMaterialsOptions::default(),
    );
    assert!(result.is_clean());
}

#[test]
fn into_ai_findings_includes_material_id_and_code() {
    let result = MaterialCheckResult {
        findings: vec![MaterialFinding::OversizedTexture {
            material_id: "mat:tile".to_string(),
            channel: "albedo".to_string(),
            width: 8192,
            height: 8192,
            budget: 4096,
        }],
    };
    let ai = result.into_ai_findings();
    assert_eq!(ai.len(), 1);
    assert_eq!(ai[0].material_id, "mat:tile");
    assert_eq!(ai[0].code, "material.oversized_texture");
    assert_eq!(ai[0].severity, "warning");
}

#[test]
fn options_can_disable_swap_heuristic() {
    let mut m = plain("mat:oak");
    m.albedo_map = Some(texture("h1", "normal", 1024));
    let scene = scene_with(&["mat:oak"]);
    let opts = CheckMaterialsOptions { enable_swap_heuristic: false, ..Default::default() };
    let result = check(&scene, vec![m], &["h1"], &opts);
    assert!(result.is_clean(), "swap heuristic should be disabled");
}
