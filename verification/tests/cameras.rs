//! Saved cameras, their journal, thumbnails and camera paths.
use aec_render::cameras::{
    render_thumbnail_rgba8, CameraJournal, CameraJournalEntry, CameraKeyframe, CameraPath,
    CameraPathError, CameraPresetKind, CameraSnapshot, CameraStore, CameraTraits,
    CameraValidationError, Colour, PathSample, Stage,
};
use aec_render::geometry::Vec3;
use aec_render::ids::EntityId;
use aec_render::single::Single;

fn num(x: f32) -> Single {
    Single::from_bits(x.to_bits())
}

fn val(x: Single) -> f32 {
    f32::from_bits(x.to_bits())
}

fn vec3(x: f32, y: f32, z: f32) -> Vec3 {
    Vec3::new(num(x), num(y), num(z))
}

fn minus(a: Vec3, b: Vec3) -> Vec3 {
    vec3(val(a.x) - val(b.x), val(a.y) - val(b.y), val(a.z) - val(b.z))
}

fn lerp(a: Vec3, b: Vec3, at: Stage) -> Vec3 {
    let t = at.offset as f32 / at.span as f32;
    let one = |x: Single, y: Single| val(x) + (val(y) - val(x)) * t;
    vec3(one(a.x, b.x), one(a.y, b.y), one(a.z, b.z))
}

fn fingerprint(c: CameraTraits, row: usize, col: usize) -> Colour {
    let d = minus(c.target_mm, c.position_mm);
    let (dx, dy, dz) = (val(d.x), val(d.y), val(d.z));
    let len = (dx * dx + dy * dy + dz * dz).sqrt().max(1e-6);
    let (nx, ny, nz) = (dx / len, dy / len, dz / len);
    let hue = (val(c.focal_length_mm) / 200.0).clamp(0.0, 1.0);
    let brightness = (0.5 + 0.05 * val(c.exposure_ev)).clamp(0.0, 1.0);
    let u = col as f32 / 31.0;
    let v = row as f32 / 31.0;
    let red = ((0.5 + 0.5 * nx) * (1.0 - u) + hue * u) * brightness;
    let green = ((0.5 + 0.5 * ny) * (1.0 - v) + hue * v) * brightness;
    let blue = ((0.5 + 0.5 * nz) * brightness
        + (val(c.white_balance_k) / 12000.0).clamp(0.0, 1.0) * 0.4)
        .clamp(0.0, 1.0);
    Colour {
        red: (red.clamp(0.0, 1.0) * 255.0) as u8,
        green: (green.clamp(0.0, 1.0) * 255.0) as u8,
        blue: (blue * 255.0) as u8,
    }
}

fn sample_camera(id: &str) -> CameraSnapshot {
    CameraSnapshot {
        id: EntityId::from_text(&format!("ent_{id}")),
        name: "Cam A".to_string(),
        position_mm: vec3(5000.0, 3000.0, 1600.0),
        target_mm: vec3(0.0, 0.0, 1500.0),
        up_mm: vec3(0.0, 0.0, 1.0),
        focal_length_mm: num(35.0),
        sensor_width_mm: num(36.0),
        sensor_height_mm: num(24.0),
        exposure_ev: num(0.5),
        white_balance_k: num(5500.0),
        aperture_f: num(5.6),
        focus_distance_mm: num(4500.0),
        aspect_ratio: num(16.0 / 9.0),
        preset_key: None,
    }
}

#[test]
fn validate_accepts_realistic_camera() {
    sample_camera("cam_001").validate(&minus).unwrap();
}

#[test]
fn validate_rejects_zero_focal_length() {
    let mut cam = sample_camera("cam_002");
    cam.focal_length_mm = num(0.0);
    assert!(matches!(cam.validate(&minus).unwrap_err(), CameraValidationError::FocalLength));
}

#[test]
fn validate_rejects_position_equals_target() {
    let mut cam = sample_camera("cam_003");
    cam.target_mm = cam.position_mm;
    assert!(matches!(
        cam.validate(&minus).unwrap_err(),
        CameraValidationError::ZeroLengthForward
    ));
}

#[test]
fn validate_names_each_fault() {
    let broken = |change: fn(&mut CameraSnapshot)| {
        let mut cam = sample_camera("x");
        change(&mut cam);
        cam.validate(&minus).unwrap_err()
    };
    assert_eq!(broken(|c| c.aperture_f = num(f32::INFINITY)), CameraValidationError::Aperture);
    assert_eq!(broken(|c| c.sensor_width_mm = num(-1.0)), CameraValidationError::Sensor);
    assert_eq!(broken(|c| c.sensor_height_mm = num(0.0)), CameraValidationError::Sensor);
    assert_eq!(broken(|c| c.aspect_ratio = num(f32::NAN)), CameraValidationError::Aspect);
    assert_eq!(
        broken(|c| c.focus_distance_mm = num(-0.5)),
        CameraValidationError::FocusDistance
    );
    assert_eq!(
        CameraValidationError::ZeroLengthForward.message(),
        "position_mm and target_mm coincide"
    );
    let mut far = sample_camera("x");
    far.focus_distance_mm = num(0.0);
    far.validate(&minus).unwrap();
}

#[test]
fn cameras_of_one_name_come_in_the_order_of_ids() {
    let mut journal = CameraJournal::new();
    let mut store = CameraStore::new();
    for id in ["cam_c", "cam_a", "cam_b", "cam_a"] {
        let mut cam = sample_camera(id);
        cam.name = "Same".to_string();
        store.upsert(&mut journal, cam, &minus).unwrap();
    }
    let ids: Vec<String> = store.list().into_iter().map(|c| c.id.value).collect();
    assert_eq!(ids, ["ent_cam_a", "ent_cam_b", "ent_cam_c"]);
    assert_eq!(store.len(), 3);
}

#[test]
fn upsert_then_remove_through_journal() {
    let mut journal = CameraJournal::new();
    let mut store = CameraStore::new();
    let cam = sample_camera("cam_004");
    let previous = store.upsert(&mut journal, cam.clone(), &minus).unwrap();
    assert!(previous.is_none());
    assert_eq!(store.len(), 1);
    let mut updated = cam.clone();
    updated.focal_length_mm = num(50.0);
    let prev = store.upsert(&mut journal, updated.clone(), &minus).unwrap().unwrap();
    assert_eq!(val(prev.focal_length_mm), 35.0);
    let removed = store.remove(&mut journal, &cam.id).unwrap();
    assert_eq!(val(removed.focal_length_mm), 50.0);
    assert!(store.remove(&mut journal, &cam.id).is_none());
    assert_eq!(journal.len(), 3);
    assert!(matches!(
        journal.entries()[0],
        CameraJournalEntry::Upsert { previous: None, .. }
    ));
    assert!(matches!(
        &journal.entries()[1],
        CameraJournalEntry::Upsert { previous: Some(_), .. }
    ));
    assert!(matches!(journal.entries()[2], CameraJournalEntry::Remove { .. }));
}

#[test]
fn refused_camera_leaves_store_and_journal_alone() {
    let mut journal = CameraJournal::new();
    let mut store = CameraStore::new();
    let mut cam = sample_camera("cam_bad");
    cam.aperture_f = num(0.0);
    assert!(store.upsert(&mut journal, cam, &minus).is_err());
    assert!(store.is_empty() && journal.is_empty());
}

#[test]
fn list_is_sorted_by_name() {
    let mut journal = CameraJournal::new();
    let mut store = CameraStore::new();
    let mut a = sample_camera("cam_a");
    a.name = "Zoom".to_string();
    let mut b = sample_camera("cam_b");
    b.name = "Approach".to_string();
    store.upsert(&mut journal, a, &minus).unwrap();
    store.upsert(&mut journal, b, &minus).unwrap();
    let names: Vec<_> = store.list().iter().map(|c| c.name.clone()).collect();
    assert_eq!(names, vec!["Approach".to_string(), "Zoom".to_string()]);
}

#[test]
fn apply_preset_sets_focal_length_aperture_and_key() {
    let snap = sample_camera("cam_p");
    let interior = CameraStore::apply_preset(&snap, CameraPresetKind::InteriorCloseUp);
    assert_eq!(val(interior.focal_length_mm), 35.0);
    assert_eq!(val(interior.aperture_f), 4.0);
    assert_eq!(interior.preset_key, Some("interior_close_up".to_string()));
    let bird = CameraStore::apply_preset(&snap, CameraPresetKind::BirdsEye);
    assert_eq!(val(bird.focal_length_mm), 24.0);
    assert_eq!(val(bird.aperture_f), 11.0);
}

#[test]
fn to_render_camera_strips_to_worker_payload() {
    let cam = sample_camera("cam_x");
    let rc = cam.to_render_camera();
    assert_eq!(rc.id, "ent_cam_x");
    assert_eq!(val(rc.focal_length_mm), 35.0);
    assert_eq!(val(rc.exposure_ev), 0.5);
    assert_eq!(val(rc.aperture_f), 5.6);
}

#[test]
fn thumbnail_is_deterministic_for_same_camera() {
    let cam = sample_camera("cam_thumb");
    let a = render_thumbnail_rgba8(&cam, fingerprint);
    let b = render_thumbnail_rgba8(&cam, fingerprint);
    assert_eq!(a, b);
    assert_eq!(a.len(), 32 * 32 * 4);
    assert!(a.iter().skip(3).step_by(4).all(|alpha| *alpha == 255));
}

#[test]
fn thumbnail_differs_when_camera_moves() {
    let cam1 = sample_camera("cam_a");
    let mut cam2 = sample_camera("cam_a");
    cam2.position_mm = vec3(10000.0, 0.0, 1600.0);
    let a = render_thumbnail_rgba8(&cam1, fingerprint);
    let b = render_thumbnail_rgba8(&cam2, fingerprint);
    assert_ne!(a, b);
}

#[test]
fn thumbnail_does_not_show_the_name() {
    let cam1 = sample_camera("cam_a");
    let mut cam2 = sample_camera("cam_b");
    cam2.name = "Other".to_string();
    assert_eq!(
        render_thumbnail_rgba8(&cam1, fingerprint),
        render_thumbnail_rgba8(&cam2, fingerprint)
    );
}

fn kf(frame: u32, x: f32, tx: f32) -> CameraKeyframe {
    CameraKeyframe {
        frame,
        position_mm: vec3(x, 0.0, 1500.0),
        target_mm: vec3(tx, 0.0, 1500.0),
    }
}

#[test]
fn camera_path_sorts_by_frame_on_construction() {
    let path = CameraPath::from_keyframes(vec![
        kf(10, 100.0, 0.0),
        kf(1, 0.0, 0.0),
        kf(5, 50.0, 0.0),
    ])
    .unwrap();
    let frames: Vec<u32> = path.keyframes().iter().map(|k| k.frame).collect();
    assert_eq!(frames, vec![1, 5, 10]);
}

#[test]
fn camera_path_rejects_duplicate_frames() {
    let err = CameraPath::from_keyframes(vec![kf(5, 0.0, 0.0), kf(5, 1.0, 0.0)]).unwrap_err();
    assert_eq!(err, CameraPathError::DuplicateFrame(5));
}

#[test]
fn camera_path_interpolates_linearly() {
    let path = CameraPath::from_keyframes(vec![kf(0, 0.0, 0.0), kf(10, 100.0, 200.0)]).unwrap();
    let mid = path.sample(5, lerp).unwrap();
    assert!((val(mid.position_mm.x) - 50.0).abs() < 1e-3);
    assert!((val(mid.target_mm.x) - 100.0).abs() < 1e-3);
    assert_eq!(mid.frame, 5);
}

#[test]
fn camera_path_clamps_outside_range() {
    let path = CameraPath::from_keyframes(vec![kf(5, 0.0, 0.0), kf(10, 100.0, 0.0)]).unwrap();
    let pre = path.sample(1, lerp).unwrap();
    let post = path.sample(50, lerp).unwrap();
    assert_eq!(val(pre.position_mm.x), 0.0);
    assert_eq!(val(post.position_mm.x), 100.0);
}

#[test]
fn camera_path_frame_range_is_min_max() {
    let path = CameraPath::from_keyframes(vec![kf(3, 0.0, 0.0), kf(9, 0.0, 0.0)]).unwrap();
    assert_eq!(path.frame_range(), Some((3, 9)));
}

#[test]
fn camera_path_without_keyframes_has_nothing_to_show() {
    let path = CameraPath::new();
    assert!(path.is_empty());
    assert!(path.sample(3, lerp).is_none());
    assert_eq!(path.frame_range(), None);
}

#[test]
fn camera_path_places_a_frame_between_its_neighbours() {
    let path =
        CameraPath::from_keyframes(vec![kf(0, 0.0, 0.0), kf(4, 1.0, 0.0), kf(10, 2.0, 0.0)])
            .unwrap();
    match path.place(7) {
        Some(PathSample::Between { from, to, offset, span }) => {
            assert_eq!((from.frame, to.frame, offset, span), (4, 10, 3, 6));
        }
        other => panic!("{other:?}"),
    }
}
