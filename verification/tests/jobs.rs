//! Jobs, the queue, what is stored of it, and the history of finished renders.
use std::collections::HashSet;

use aec_render::cameras::CameraSnapshot;
use aec_render::clock::Timestamp;
use aec_render::geometry::Vec3;
use aec_render::history::{compare, HistoryError, RenderHistory, RenderHistoryEntry};
use aec_render::ids::EntityId;
use aec_render::job::{RenderJob, RenderJobStatus};
use aec_render::job_store::{
    has_valid_times, list_by_status_sql, load_queue, reincarnate, reincarnate_running_as_queued,
    status_from_str, status_to_str, JobRow, JobStatusCounts,
};
use aec_render::preset::RenderPreset;
use aec_render::queue::{QueueError, RenderQueue};
use aec_render::scene::RenderScene;
use aec_render::single::Single;
use chrono::TimeZone;

fn num(x: f32) -> Single {
    Single::from_bits(x.to_bits())
}

fn val(x: Single) -> f32 {
    f32::from_bits(x.to_bits())
}

fn vec3(x: f32, y: f32, z: f32) -> Vec3 {
    Vec3::new(num(x), num(y), num(z))
}

fn time(y: i32, mo: u32, d: u32, h: u32, mi: u32, s: u32) -> Timestamp {
    let t = chrono::Utc.with_ymd_and_hms(y, mo, d, h, mi, s).unwrap();
    Timestamp { secs: t.timestamp(), nanos: 0 }
}

fn now() -> Timestamp {
    let t = chrono::Utc::now();
    Timestamp { secs: t.timestamp(), nanos: t.timestamp_subsec_nanos() % 1_000_000_000 }
}

fn make_job(priority: i32) -> RenderJob {
    RenderJob::new(RenderPreset::standard(), RenderScene::new()).with_priority(priority)
}

fn make_camera(name: &str) -> CameraSnapshot {
    CameraSnapshot {
        id: EntityId::new(),
        name: name.to_string(),
        position_mm: vec3(0.0, 0.0, 1500.0),
        target_mm: vec3(0.0, 1000.0, 1500.0),
        up_mm: vec3(0.0, 0.0, 1.0),
        focal_length_mm: num(35.0),
        sensor_width_mm: num(36.0),
        sensor_height_mm: num(24.0),
        exposure_ev: num(0.0),
        white_balance_k: num(6500.0),
        aperture_f: num(5.6),
        focus_distance_mm: num(3000.0),
        aspect_ratio: num(16.0 / 9.0),
        preset_key: None,
    }
}

fn average(shares: &Vec<Single>, n: usize) -> Single {
    let sum: f32 = shares.iter().map(|s| val(*s)).sum();
    num(sum / n as f32)
}

fn row(job: &RenderJob) -> JobRow {
    JobRow::from_job(job, "{}".to_string())
}

// ---- the queue ---------------------------------------------------------

#[test]
fn queue_preserves_priority_order() {
    let mut q = RenderQueue::new();
    let low = q.submit(make_job(0));
    let high = q.submit(make_job(10));
    let mid = q.submit(make_job(5));
    let first = q.admit_next().unwrap();
    assert_eq!(first.id, high);
    let second = q.admit_next().unwrap();
    assert_eq!(second.id, mid);
    let third = q.admit_next().unwrap();
    assert_eq!(third.id, low);
    assert_eq!(q.queued_count(), 0);
    assert_eq!(q.running_count(), 3);
}

#[test]
fn complete_moves_to_completed() {
    let mut q = RenderQueue::new();
    let id = q.submit(make_job(0));
    let _ = q.admit_next().unwrap();
    q.update_progress(&id, num(0.5)).unwrap();
    q.complete(&id, "out.png".to_string()).unwrap();
    let job = q.get(&id).unwrap();
    assert_eq!(job.status, RenderJobStatus::Completed);
    assert!(job.output_path.is_some());
    assert!((val(job.progress) - 1.0).abs() < f32::EPSILON);
}

#[test]
fn cancel_from_queued_or_running() {
    let mut q = RenderQueue::new();
    let a = q.submit(make_job(0));
    let b = q.submit(make_job(0));
    let _ = q.admit_next().unwrap();
    q.cancel(&a).unwrap();
    q.cancel(&b).unwrap();
    assert_eq!(q.get(&a).unwrap().status, RenderJobStatus::Cancelled);
    assert_eq!(q.get(&b).unwrap().status, RenderJobStatus::Cancelled);
}

#[test]
fn resume_failed_job() {
    let mut q = RenderQueue::new();
    let id = q.submit(make_job(0));
    let _ = q.admit_next().unwrap();
    q.fail(&id, "oom".to_string()).unwrap();
    assert_eq!(q.get(&id).unwrap().status, RenderJobStatus::Failed);
    q.resume(&id).unwrap();
    assert_eq!(q.get(&id).unwrap().status, RenderJobStatus::Queued);
}

#[test]
fn resumed_job_goes_where_its_priority_says() {
    let mut q = RenderQueue::new();
    let urgent = q.submit(make_job(9));
    let _ = q.admit_next().unwrap();
    q.fail(&urgent, "oom".to_string()).unwrap();
    let _later = q.submit(make_job(1));
    q.resume(&urgent).unwrap();
    assert_eq!(q.admit_next().unwrap().id, urgent);
}

#[test]
fn batch_submission_holds_state() {
    let mut q = RenderQueue::new();
    for _ in 0..10 {
        q.submit(make_job(0));
    }
    assert_eq!(q.queued_count(), 10);
}

#[test]
fn submit_batch_creates_one_job_per_camera() {
    let mut q = RenderQueue::new();
    let cams = vec![make_camera("Living"), make_camera("Kitchen"), make_camera("Bath")];
    let scene = RenderScene::new();
    let sub = q.submit_batch(&cams, RenderPreset::standard(), &scene);

    assert_eq!(sub.job_ids.len(), 3);
    assert_eq!(q.queued_count(), 3);
    let batch_jobs = q.jobs_in_batch(&sub.batch_id);
    assert_eq!(batch_jobs.len(), 3);
    let cam_ids: HashSet<_> = batch_jobs.iter().filter_map(|j| j.camera_id.clone()).collect();
    assert_eq!(cam_ids.len(), 3);
    for j in &batch_jobs {
        assert_eq!(j.batch_id.as_deref(), Some(sub.batch_id.as_str()));
    }
}

#[test]
fn jobs_of_a_batch_have_ids_of_their_own() {
    let mut q = RenderQueue::new();
    let cams = vec![make_camera("Living"), make_camera("Kitchen"), make_camera("Bath")];
    let sub = q.submit_batch(&cams, RenderPreset::standard(), &RenderScene::new());
    let ids: HashSet<&String> = sub.job_ids.iter().collect();
    assert_eq!(ids.len(), cams.len());
    for id in &sub.job_ids {
        let digits = id.strip_prefix("job_").expect("prefix");
        assert_eq!(digits.len(), 32);
        assert!(digits.chars().all(|c| c.is_ascii_hexdigit()));
    }
    for job in q.list_jobs() {
        assert!(has_valid_times(job));
        assert!(job.created_at.secs > 0);
    }
}

#[test]
fn submit_matrix_creates_cameras_times_presets_jobs() {
    let mut q = RenderQueue::new();
    let cams = vec![make_camera("A"), make_camera("B")];
    let presets = vec![RenderPreset::quick(), RenderPreset::high()];
    let scene = RenderScene::new();
    let sub = q.submit_matrix(&cams, &presets, &scene);

    assert_eq!(sub.job_ids.len(), 4);
    assert_eq!(q.queued_count(), 4);

    let batch_jobs = q.jobs_in_batch(&sub.batch_id);
    let pairs: HashSet<_> = batch_jobs
        .iter()
        .map(|j| (j.camera_id.clone().unwrap_or_default(), j.preset.id.clone()))
        .collect();
    assert_eq!(pairs.len(), 4);
}

#[test]
fn batch_progress_aggregates_states() {
    let mut q = RenderQueue::new();
    let cams = vec![make_camera("A"), make_camera("B"), make_camera("C")];
    let scene = RenderScene::new();
    let sub = q.submit_batch(&cams, RenderPreset::standard(), &scene);

    let first = q.admit_next().unwrap();
    let second = q.admit_next().unwrap();
    q.complete(&first.id, "out_a.png".to_string()).unwrap();
    q.update_progress(&second.id, num(0.5)).unwrap();

    let p = q.batch_progress(&sub.batch_id, average).unwrap();
    assert_eq!(p.total, 3);
    assert_eq!(p.completed, 1);
    assert_eq!(p.running, 1);
    assert_eq!(p.queued, 1);
    assert!((val(p.average_progress) - 0.5).abs() < 1e-4);
}

#[test]
fn batch_progress_unknown_returns_none() {
    let q = RenderQueue::new();
    assert!(q.batch_progress("batch_nope", average).is_none());
}

#[test]
fn steps_on_unknown_jobs_are_refused() {
    let mut q = RenderQueue::new();
    assert_eq!(q.cancel("nope"), Err(QueueError::UnknownJob("nope".to_string())));
    assert_eq!(
        q.complete("nope", "out.png".to_string()),
        Err(QueueError::UnknownJob("nope".to_string()))
    );
    assert_eq!(q.resume("nope"), Err(QueueError::Terminal("nope".to_string())));
    assert!(q.admit_next().is_none());
}

#[test]
fn equal_priorities_keep_the_order_of_submission() {
    let mut q = RenderQueue::new();
    let first = q.submit(make_job(3));
    let second = q.submit(make_job(3));
    assert_eq!(q.admit_next().unwrap().id, first);
    assert_eq!(q.admit_next().unwrap().id, second);
}

#[test]
fn submitted_jobs_get_fresh_ids_and_times() {
    let before = now();
    let a = make_job(0);
    let b = make_job(0);
    assert_ne!(a.id, b.id);
    assert!(a.id.starts_with("job_"));
    assert_eq!(a.id.len(), "job_".len() + 32);
    assert!(a.created_at.secs >= before.secs);
    let entity = EntityId::new();
    assert!(entity.as_str().starts_with("ent_"));
    assert_ne!(entity.as_str(), EntityId::new().as_str());
}

#[test]
fn frames_of_a_walkthrough_stay_sorted() {
    let mut j = make_job(0);
    for frame in [4, 1, 3, 1] {
        j.mark_frame_completed(frame);
    }
    assert_eq!(j.completed_frames, vec![1, 3, 4]);
    assert_eq!(j.next_walkthrough_frame(), Some(5));
    assert_eq!(make_job(0).next_walkthrough_frame(), None);
}

// ---- the stored queue --------------------------------------------------

#[test]
fn list_by_status_filters_correctly() {
    let sql = list_by_status_sql(1);
    assert!(sql.contains("WHERE status IN (?)"), "{sql}");
    let sql = list_by_status_sql(2);
    assert!(sql.contains("WHERE status IN (?,?)"), "{sql}");
    assert!(sql.contains("ORDER BY priority DESC, created_at ASC"), "{sql}");
}

#[test]
fn count_by_status_groups_rows() {
    let mut c = JobStatusCounts::default();
    c.note("running", 2);
    c.note("failed", 1);
    c.note("queued", 1);
    c.note("paused", 7);
    assert_eq!(c.queued, 1);
    assert_eq!(c.running, 2);
    assert_eq!(c.failed, 1);
    assert_eq!(c.total(), 4);
}

#[test]
fn save_queue_then_load_queue_round_trips() {
    let mut q = RenderQueue::new();
    let a = q.submit(make_job(10));
    let b = q.submit(make_job(0));
    let _ = q.admit_next().unwrap();
    q.fail(&b, "boom".to_string()).unwrap();

    let saved: Vec<RenderJob> = q.list_jobs().into_iter().cloned().collect();
    let loaded = load_queue(saved);
    assert_eq!(loaded.list_jobs().len(), q.list_jobs().len());
    assert_eq!(loaded.get(&a).unwrap().status, RenderJobStatus::Running);
    assert_eq!(loaded.get(&b).unwrap().status, RenderJobStatus::Failed);
}

#[test]
fn save_queue_mirrors_every_indexed_column_from_payload() {
    let mut q_job = make_job(5);
    q_job.batch_id = Some("batch-queued".to_string());
    q_job.camera_id = Some("cam-Q".to_string());
    q_job.output_path = Some("/tmp/save-queued.png".to_string());
    q_job.progress = num(0.1);

    let mut r_job = make_job(7);
    r_job.status = RenderJobStatus::Running;
    r_job.batch_id = Some("batch-running".to_string());
    r_job.camera_id = Some("cam-R".to_string());
    r_job.output_path = Some("/tmp/save-running.png".to_string());
    r_job.progress = num(0.42);
    r_job.started_at = Some(now());
    r_job.mark_frame_completed(0);

    let mut f_job = make_job(0);
    f_job.status = RenderJobStatus::Failed;
    f_job.error = Some("disk full".to_string());
    f_job.completed_at = Some(now());

    let mut queue = RenderQueue::new();
    queue.restore_queued(q_job.clone());
    queue.restore_running(r_job.clone());
    queue.restore_completed(f_job.clone());

    let rows: Vec<JobRow> = queue.list_jobs().into_iter().map(row).collect();
    assert_eq!(rows.len(), 3, "every job is saved");
    for job in [&q_job, &r_job, &f_job] {
        let r = rows.iter().find(|r| r.id == job.id).unwrap();
        assert_eq!(r.status, status_to_str(job.status));
        assert_eq!(r.priority, job.priority);
        assert_eq!(r.progress, job.progress);
        assert_eq!(r.batch_id, job.batch_id);
        assert_eq!(r.camera_id, job.camera_id);
        assert_eq!(r.output_path, job.output_path);
        assert_eq!(r.error, job.error);
        assert_eq!(r.started_at.is_some(), job.started_at.is_some());
        assert_eq!(r.completed_at.is_some(), job.completed_at.is_some());
        let frames: Vec<u32> = serde_json::from_str(&r.completed_frames).unwrap();
        assert_eq!(frames, job.completed_frames);
        assert_eq!(r.payload, "{}");
    }
    let running = rows.iter().find(|r| r.id == r_job.id).unwrap();
    assert_eq!(running.status, "running");
    assert_eq!(running.priority, 7);
    assert_eq!(running.batch_id.as_deref(), Some("batch-running"));
    assert_eq!(running.camera_id.as_deref(), Some("cam-R"));
    assert_eq!(running.output_path.as_deref(), Some("/tmp/save-running.png"));
}

#[test]
fn save_queue_round_trips_through_load_queue_with_all_columns_preserved() {
    let mut j = make_job(9);
    j.batch_id = Some("batch-Z".to_string());
    j.camera_id = Some("cam-Z".to_string());
    j.output_path = Some("/tmp/save-roundtrip.png".to_string());
    j.progress = num(0.6);
    j.mark_frame_completed(0);
    j.mark_frame_completed(3);

    let mut queue = RenderQueue::new();
    queue.restore_queued(j.clone());
    let saved: Vec<RenderJob> = queue.list_jobs().into_iter().cloned().collect();

    let loaded = load_queue(saved);
    let got = loaded.get(&j.id).expect("job present after round-trip");
    assert_eq!(got.priority, 9);
    assert_eq!(got.batch_id.as_deref(), Some("batch-Z"));
    assert_eq!(got.camera_id.as_deref(), Some("cam-Z"));
    assert_eq!(got.output_path.as_deref(), Some("/tmp/save-roundtrip.png"));
    assert!((val(got.progress) - 0.6).abs() < 1e-5);
    assert_eq!(got.completed_frames, vec![0, 3]);
}

#[test]
fn reincarnate_flips_running_to_queued() {
    let mut running = make_job(0);
    running.status = RenderJobStatus::Running;
    running.started_at = Some(now());
    running.progress = num(0.5);

    let got = reincarnate(running);
    assert_eq!(got.status, RenderJobStatus::Queued);
    assert!(got.started_at.is_none(), "started_at should be cleared");
    assert!((val(got.progress) - 0.5).abs() < 1e-5);
}

#[test]
fn reincarnate_preserves_walkthrough_completed_frames() {
    let mut j = make_job(0);
    j.status = RenderJobStatus::Running;
    j.mark_frame_completed(0);
    j.mark_frame_completed(1);
    j.mark_frame_completed(2);
    let got = reincarnate(j);
    assert_eq!(got.completed_frames, vec![0, 1, 2]);
    assert_eq!(got.next_walkthrough_frame(), Some(3));
}

#[test]
fn a_second_restart_revives_no_job() {
    let statuses = [
        RenderJobStatus::Running,
        RenderJobStatus::Queued,
        RenderJobStatus::Failed,
        RenderJobStatus::Running,
        RenderJobStatus::Cancelled,
    ];
    let mut jobs: Vec<RenderJob> = statuses
        .iter()
        .map(|s| {
            let mut j = make_job(0);
            j.status = *s;
            j.started_at = Some(now());
            j
        })
        .collect();
    assert_eq!(reincarnate_running_as_queued(&mut jobs), 2);
    let after: Vec<RenderJobStatus> = jobs.iter().map(|j| j.status).collect();
    assert_eq!(after[0], RenderJobStatus::Queued);
    assert_eq!(after[2], RenderJobStatus::Failed);
    assert!(jobs[0].started_at.is_none());
    assert!(jobs[2].started_at.is_some());
    assert_eq!(reincarnate_running_as_queued(&mut jobs), 0);
    assert_eq!(jobs.iter().map(|j| j.status).collect::<Vec<_>>(), after);
}

#[test]
fn times_outside_of_the_calendar_are_told() {
    let mut j = make_job(0);
    assert!(has_valid_times(&j));
    j.completed_at = Some(Timestamp { secs: i64::MAX, nanos: 0 });
    assert!(!has_valid_times(&j));
    j.completed_at = None;
    j.started_at = Some(Timestamp { secs: 0, nanos: 1_000_000_000 });
    assert!(!has_valid_times(&j));
}

#[test]
fn crash_after_two_jobs_keeps_remaining_two_queued() {
    let mut jobs: Vec<RenderJob> = (0..4).map(|_| make_job(0)).collect();
    for j in jobs.iter_mut().take(2) {
        j.status = RenderJobStatus::Completed;
        j.progress = num(1.0);
        j.completed_at = Some(now());
    }
    jobs[2].status = RenderJobStatus::Running;
    jobs[2].progress = num(0.5);

    let revived = reincarnate_running_as_queued(&mut jobs);
    assert_eq!(revived, 1, "exactly one mid-render job was running");

    let q = load_queue(jobs);
    assert_eq!(q.completed_count(), 2, "two completed survived");
    assert_eq!(q.queued_count(), 2, "one originally-queued + one resurrected");
    assert_eq!(q.running_count(), 0);
    let queued: Vec<&RenderJob> = q
        .list_jobs()
        .into_iter()
        .filter(|j| j.status == RenderJobStatus::Queued)
        .collect();
    assert!(queued.iter().any(|j| (val(j.progress) - 0.5).abs() < 1e-5));
}

#[test]
fn reincarnate_refreshes_all_indexed_columns_from_payload() {
    let mut j = make_job(3);
    j.status = RenderJobStatus::Running;
    j.started_at = Some(now());
    j.progress = num(0.7);
    j.error = Some("stale prior failure".to_string());
    j.completed_at = Some(now());
    j.mark_frame_completed(0);
    j.mark_frame_completed(1);

    let got = reincarnate(j);
    let r = row(&got);
    assert_eq!(r.status, "queued", "status column must be flipped");
    assert!(r.started_at.is_none());
    assert!((val(r.progress) - 0.7).abs() < 1e-5);
    assert!(r.error.is_none());
    assert!(r.completed_at.is_none());
    let parsed_frames: Vec<u32> = serde_json::from_str(&r.completed_frames).unwrap();
    assert_eq!(parsed_frames, vec![0, 1]);

    assert_eq!(got.status, RenderJobStatus::Queued);
    assert!(got.error.is_none());
    assert!(got.completed_at.is_none());
    assert!((val(got.progress) - 0.7).abs() < 1e-5);
    assert_eq!(got.completed_frames, vec![0, 1]);
}

#[test]
fn reincarnate_mirrors_non_status_columns_from_payload() {
    let mut j = make_job(7);
    j.status = RenderJobStatus::Running;
    j.batch_id = Some("batch-X".to_string());
    j.camera_id = Some("cam-Y".to_string());
    j.output_path = Some("/tmp/reincarnate-mirror.png".to_string());
    j.started_at = Some(now());

    let got = reincarnate(j);
    let r = row(&got);
    assert_eq!(r.status, "queued");
    assert_eq!(r.priority, 7);
    assert_eq!(r.batch_id.as_deref(), Some("batch-X"));
    assert_eq!(r.camera_id.as_deref(), Some("cam-Y"));
    assert_eq!(r.output_path.as_deref(), Some("/tmp/reincarnate-mirror.png"));
    assert_eq!(got.priority, 7);
    assert_eq!(got.batch_id.as_deref(), Some("batch-X"));
    assert_eq!(got.camera_id.as_deref(), Some("cam-Y"));
    assert_eq!(got.output_path.as_deref(), Some("/tmp/reincarnate-mirror.png"));
}

#[test]
fn load_queue_uses_a_single_transaction_snapshot() {
    let a = make_job(10);
    let mut b = make_job(0);
    b.status = RenderJobStatus::Running;
    let mut c = make_job(0);
    c.status = RenderJobStatus::Completed;
    c.completed_at = Some(now());
    let stored = vec![a.clone(), b.clone(), c.clone()];

    let loaded = load_queue(stored.clone());
    assert_eq!(loaded.list_jobs().len(), 3);
    assert_eq!(loaded.get(&a.id).unwrap().status, RenderJobStatus::Queued);
    assert_eq!(loaded.get(&b.id).unwrap().status, RenderJobStatus::Running);
    assert_eq!(loaded.get(&c.id).unwrap().status, RenderJobStatus::Completed);

    let loaded2 = load_queue(stored);
    assert_eq!(loaded2.list_jobs().len(), 3);
}

#[test]
fn upsert_refreshes_all_indexed_columns_from_payload() {
    let mut j = make_job(2);
    j.status = RenderJobStatus::Completed;
    j.priority = 99;
    j.progress = num(1.0);
    j.batch_id = Some("batch-A".to_string());
    j.camera_id = Some("cam-B".to_string());
    j.output_path = Some("/tmp/out.png".to_string());
    j.error = Some("warning text".to_string());
    j.started_at = Some(now());
    j.completed_at = Some(now());
    j.mark_frame_completed(0);
    j.mark_frame_completed(2);

    let r = row(&j);
    assert_eq!(r.status, "completed");
    assert_eq!(r.priority, 99);
    assert!((val(r.progress) - 1.0).abs() < 1e-9);
    assert_eq!(r.batch_id.as_deref(), Some("batch-A"));
    assert_eq!(r.camera_id.as_deref(), Some("cam-B"));
    assert_eq!(r.output_path.as_deref(), Some("/tmp/out.png"));
    assert_eq!(r.error.as_deref(), Some("warning text"));
    assert!(r.started_at.is_some());
    assert!(r.completed_at.is_some());
    let parsed_frames: Vec<u32> = serde_json::from_str(&r.completed_frames).unwrap();
    assert_eq!(parsed_frames, vec![0, 2]);
    assert_eq!(r.completed_frames, "[0,2]");
}

#[test]
fn timestamp_columns_use_fixed_width_z_suffixed_rfc3339() {
    let mut j = make_job(0);
    let t = now();
    j.created_at = t;
    j.started_at = Some(t);
    j.completed_at = Some(t);
    let r = row(&j);

    let mut later_job = make_job(0);
    let instant = chrono::DateTime::from_timestamp(t.secs, t.nanos).unwrap()
        + chrono::Duration::nanoseconds(1);
    later_job.created_at =
        Timestamp { secs: instant.timestamp(), nanos: instant.timestamp_subsec_nanos() };
    let later = row(&later_job).created_at;
    assert_eq!(later, instant.to_rfc3339_opts(chrono::SecondsFormat::Nanos, true));

    for ts in [Some(r.created_at.as_str()), r.started_at.as_deref(), r.completed_at.as_deref()]
        .into_iter()
        .flatten()
    {
        assert!(ts.ends_with('Z'), "timestamp `{ts}` must end with `Z`");
        assert_eq!(ts.len(), 30, "timestamp `{ts}` must be fixed-width");
        assert!(later.as_str() > ts, "later timestamp `{later}` must sort after `{ts}`");
    }
}

#[test]
fn text_of_a_known_time() {
    let mut j = make_job(0);
    j.created_at = Timestamp { secs: time(2024, 2, 29, 23, 59, 58).secs, nanos: 7 };
    assert_eq!(row(&j).created_at, "2024-02-29T23:59:58.000000007Z");
    j.created_at = Timestamp { secs: -1, nanos: 999_999_999 };
    assert_eq!(row(&j).created_at, "1969-12-31T23:59:59.999999999Z");
}

#[test]
fn statuses_read_back_from_their_texts() {
    for s in [
        RenderJobStatus::Queued,
        RenderJobStatus::Running,
        RenderJobStatus::Completed,
        RenderJobStatus::Failed,
        RenderJobStatus::Cancelled,
    ] {
        assert_eq!(status_from_str(status_to_str(s)), Some(s));
    }
    assert_eq!(status_from_str("paused"), None);
}

// ---- the history -------------------------------------------------------

fn completed_job(preset_id: &str) -> RenderJob {
    let mut preset = RenderPreset::standard();
    preset.id = preset_id.to_string();
    let mut j = RenderJob::new(preset, RenderScene::new());
    j.status = RenderJobStatus::Completed;
    j.progress = num(1.0);
    j.created_at = time(2026, 5, 19, 0, 0, 0);
    j.completed_at = Some(time(2026, 5, 19, 0, 5, 0));
    j.output_path = Some(format!("renders/{}.png", j.id));
    j
}

#[test]
fn from_job_rejects_non_completed() {
    let mut j = completed_job("standard");
    j.status = RenderJobStatus::Failed;
    let err = RenderHistoryEntry::from_job(&j).unwrap_err();
    assert!(matches!(err, HistoryError::NotCompleted(_)));
    assert_eq!(
        err.message(),
        format!("job `{}` is not completed; only completed jobs may be recorded", j.id)
    );
}

#[test]
fn from_job_copies_metadata() {
    let job = completed_job("standard");
    let entry = RenderHistoryEntry::from_job(&job).unwrap();
    assert_eq!(entry.job_id, job.id);
    assert_eq!(entry.preset_id, "standard");
    assert_eq!(entry.render_duration(), 300 * 1_000_000_000);
}

#[test]
fn from_job_without_an_end_ends_now() {
    let mut job = completed_job("standard");
    job.completed_at = None;
    job.output_path = None;
    let before = now();
    let entry = RenderHistoryEntry::from_job(&job).unwrap();
    assert!(entry.completed_at.secs >= before.secs);
    assert_eq!(entry.output_path, format!("renders/{}.png", job.id));
}

#[test]
fn history_records_and_retrieves() {
    let mut h = RenderHistory::new();
    let job = completed_job("high");
    h.record_job(&job, None, Some("abc123".to_string())).unwrap();
    assert_eq!(h.len(), 1);
    let e = h.get(&job.id).unwrap();
    assert_eq!(e.image_hash.as_deref(), Some("abc123"));
}

#[test]
fn history_by_recency_sorts_newest_first() {
    let mut h = RenderHistory::new();
    let mut a = completed_job("quick");
    let mut b = completed_job("high");
    a.completed_at = Some(time(2026, 5, 1, 0, 0, 0));
    b.completed_at = Some(time(2026, 5, 19, 0, 0, 0));
    h.record_job(&a, None, None).unwrap();
    h.record_job(&b, None, None).unwrap();
    let recent = h.by_recency();
    assert_eq!(recent[0].job_id, b.id);
    assert_eq!(recent[1].job_id, a.id);
}

#[test]
fn compare_detects_preset_and_image_changes() {
    let mut h = RenderHistory::new();
    let a = completed_job("quick");
    let b = completed_job("high");
    h.record_job(&a, None, Some("aaa".to_string())).unwrap();
    h.record_job(&b, None, Some("bbb".to_string())).unwrap();
    let diff = compare(&h.entries[0], &h.entries[1]);
    assert!(diff.preset_changed);
    assert!(diff.image_hash_changed);
    assert!(!diff.camera_changed);
    assert_eq!(diff.field_diffs.len(), 2);
}

#[test]
fn compare_duration_delta_signed() {
    let mut a = completed_job("quick");
    let mut b = completed_job("quick");
    a.completed_at = Some(Timestamp { secs: a.created_at.secs + 60, nanos: 0 });
    b.completed_at = Some(Timestamp { secs: b.created_at.secs + 180, nanos: 0 });
    let ea = RenderHistoryEntry::from_job(&a).unwrap();
    let eb = RenderHistoryEntry::from_job(&b).unwrap();
    let diff = compare(&ea, &eb);
    assert_eq!(diff.duration_delta_ms, 120_000);
    assert_eq!(compare(&eb, &ea).duration_delta_ms, -120_000);
}

#[test]
fn comparing_a_render_with_itself_finds_nothing() {
    let e = RenderHistoryEntry::from_job(&completed_job("quick"))
        .unwrap()
        .with_camera(make_camera("A"))
        .with_image_hash("aa".to_string())
        .with_thumbnail_hash("bb".to_string());
    let diff = compare(&e, &e);
    assert!(!diff.preset_changed && !diff.camera_changed && !diff.image_hash_changed);
    assert_eq!(diff.duration_delta_ms, 0);
    assert!(diff.field_diffs.is_empty());
}

#[test]
fn moved_camera_counts_as_changed() {
    let job = completed_job("quick");
    let e = RenderHistoryEntry::from_job(&job).unwrap();
    let cam = make_camera("A");
    let mut moved = cam.clone();
    moved.position_mm = vec3(1.0, 0.0, 1500.0);
    let diff = compare(&e.clone().with_camera(cam), &e.with_camera(moved));
    assert!(diff.camera_changed);
}

#[test]
fn entries_under_a_former_preset_id_read_as_the_short_one() {
    let e = RenderHistoryEntry::from_job(&completed_job("cycles_high")).unwrap();
    assert_eq!(e.with_short_preset_id().preset_id, "high");
}

#[test]
fn history_errors_say_what_happened() {
    assert_eq!(
        HistoryError::Corrupt("bad".to_string()).message(),
        "history file is corrupt: bad"
    );
    assert_eq!(HistoryError::UnknownEntry("x".to_string()).message(), "unknown entry `x`");
    let mut h = RenderHistory::new();
    assert!(h.is_empty());
    let mut job = completed_job("quick");
    job.status = RenderJobStatus::Running;
    assert!(h.record_job(&job, None, None).is_err());
    assert!(h.get(&job.id).is_none());
}
