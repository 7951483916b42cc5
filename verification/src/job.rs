//! One render job: what it renders, how far it is, what became of it.
use vstd::prelude::*;

use crate::clock;
use crate::clock::Timestamp;
use crate::ids;
use crate::order;
use crate::preset::{RenderPreset, RenderPresetView};
use crate::scene::{RenderScene, SceneView};
use crate::single::Single;
use crate::text;

verus! {

#[derive(Clone, Copy, Debug, PartialEq, Eq, Hash, Structural)]
pub enum RenderJobStatus {
    Queued,
    Running,
    Completed,
    Failed,
    Cancelled,
}

#[derive(Debug, PartialEq)]
pub struct RenderJob {
    pub id: String,
    pub preset: RenderPreset,
    pub scene: RenderScene,
    pub status: RenderJobStatus,
    /// From 0 to 1.
    pub progress: Single,
    pub created_at: Timestamp,
    pub started_at: Option<Timestamp>,
    pub completed_at: Option<Timestamp>,
    pub output_path: Option<String>,
    pub error: Option<String>,
    /// Higher goes first.
    pub priority: i32,
    /// The camera that the job renders, when known.
    pub camera_id: Option<String>,
    /// The batch that the job belongs to, shared by all jobs of the batch.
    pub batch_id: Option<String>,
    /// Frames of a walkthrough that are written, ascending.
    pub completed_frames: Vec<u32>,
}

/// What a job holds.
pub struct JobView {
    pub id: Seq<char>,
    pub preset: RenderPresetView,
    pub scene: SceneView,
    pub status: RenderJobStatus,
    pub progress: Single,
    pub created_at: Timestamp,
    pub started_at: Option<Timestamp>,
    pub completed_at: Option<Timestamp>,
    pub output_path: Option<Seq<char>>,
    pub error: Option<Seq<char>>,
    pub priority: i32,
    pub camera_id: Option<Seq<char>>,
    pub batch_id: Option<Seq<char>>,
    pub completed_frames: Seq<u32>,
}

impl View for RenderJob {
    type V = JobView;

    open spec fn view(&self) -> JobView {
        JobView {
            id: self.id@,
            preset: self.preset@,
            scene: self.scene@,
            status: self.status,
            progress: self.progress,
            created_at: self.created_at,
            started_at: self.started_at,
            completed_at: self.completed_at,
            output_path: text::text_if_any(self.output_path),
            error: text::text_if_any(self.error),
            priority: self.priority,
            camera_id: text::text_if_any(self.camera_id),
            batch_id: text::text_if_any(self.batch_id),
            completed_frames: self.completed_frames@,
        }
    }
}

impl Clone for RenderJob {
    fn clone(&self) -> (r: RenderJob)
        ensures
            r@ == self@,
    {
        let completed_frames: Vec<u32> = self.completed_frames.clone();
        proof {
            assert(completed_frames@ =~= self.completed_frames@);
        }
        RenderJob {
            id: self.id.clone(),
            preset: self.preset.clone(),
            scene: self.scene.clone(),
            status: self.status,
            progress: self.progress,
            created_at: self.created_at,
            started_at: self.started_at,
            completed_at: self.completed_at,
            output_path: text::copy_if_any(&self.output_path),
            error: text::copy_if_any(&self.error),
            priority: self.priority,
            camera_id: text::copy_if_any(&self.camera_id),
            batch_id: text::copy_if_any(&self.batch_id),
            completed_frames,
        }
    }
}

/// A job as it is before anything has happened to it.
pub open spec fn unstarted(
    id: Seq<char>,
    created_at: Timestamp,
    preset: RenderPresetView,
    scene: SceneView,
) -> JobView {
    JobView {
        id,
        preset,
        scene,
        status: RenderJobStatus::Queued,
        progress: Single { bits: 0 },
        created_at,
        started_at: None,
        completed_at: None,
        output_path: None,
        error: None,
        priority: 0,
        camera_id: None,
        batch_id: None,
        completed_frames: Seq::empty(),
    }
}

/// Whether a status is one that a job does not leave by itself.
pub open spec fn terminal(status: RenderJobStatus) -> bool {
    status == RenderJobStatus::Completed || status == RenderJobStatus::Failed || status
        == RenderJobStatus::Cancelled
}

/// Whether a job has an id as fresh jobs have, `job_` and a random UUID, and was created
/// at a time of the calendar.
pub open spec fn fresh_identity(job: RenderJob) -> bool {
    &&& exists|u: Seq<char>| #[trigger] ids::simple_uuid(u) && job.id@ == "job_"@ + u
    &&& job.created_at.valid()
}

impl RenderJob {
    /// A job under a given id and creation time.
    pub fn with_identity(
        id: String,
        created_at: Timestamp,
        preset: RenderPreset,
        scene: RenderScene,
    ) -> (r: RenderJob)
        ensures
            r@ == unstarted(id@, created_at, preset@, scene@),
            r.id == id,
            r.preset == preset,
            r.scene == scene,
    {
        RenderJob {
            id,
            preset,
            scene,
            status: RenderJobStatus::Queued,
            progress: Single::zero(),
            created_at,
            started_at: None,
            completed_at: None,
            output_path: None,
            error: None,
            priority: 0,
            camera_id: None,
            batch_id: None,
            completed_frames: Vec::new(),
        }
    }

    /// A job under a fresh id, created now.
    pub fn new(preset: RenderPreset, scene: RenderScene) -> (r: RenderJob)
        ensures
            r@ == unstarted(r.id@, r.created_at, preset@, scene@),
            fresh_identity(r),
    {
        RenderJob::with_identity(ids::fresh_id("job_"), clock::utc_now(), preset, scene)
    }

    /// Notes that a frame of a walkthrough is written. The frames end up ascending,
    /// so the last is where to resume.
    pub fn mark_frame_completed(&mut self, frame: u32)
        ensures
            final(self)@ == (JobView {
                completed_frames: final(self).completed_frames@,
                ..old(self)@
            }),
            final(self).completed_frames@ == if old(self).completed_frames@.contains(frame) {
                old(self).completed_frames@
            } else {
                order::ordered(old(self).completed_frames@.push(frame))
            },
    {
        let mut i: usize = 0;
        let mut found: bool = false;
        while i < self.completed_frames.len()
            invariant
                i <= self.completed_frames.len(),
                self == old(self),
                found == self.completed_frames@.take(i as int).contains(frame),
            decreases self.completed_frames.len() - i,
        {
            let here: u32 = self.completed_frames[i];
            let ghost before = self.completed_frames@.take(i as int);
            i = i + 1;
            proof {
                let now = self.completed_frames@.take(i as int);
                assert(now =~= before.push(here));
                if before.contains(frame) {
                    let k = choose|k: int| 0 <= k < before.len() && before[k] == frame;
                    assert(now[k] == frame);
                }
                if here == frame {
                    assert(now[i - 1] == frame);
                }
                if now.contains(frame) && here != frame {
                    let k = choose|k: int| 0 <= k < now.len() && now[k] == frame;
                    assert(before[k] == frame);
                }
            }
            if here == frame {
                found = true;
            }
        }
        proof {
            assert(self.completed_frames@.take(i as int) =~= self.completed_frames@);
        }
        if !found {
            let mut frames: Vec<u32> = self.completed_frames.clone();
            proof {
                assert(frames@ =~= self.completed_frames@);
            }
            frames.push(frame);
            self.completed_frames = order::sort_stable(frames);
        }
    }

    /// The frame to go on with when a walkthrough is resumed; nothing where no
    /// frame is written.
    pub fn next_walkthrough_frame(&self) -> (r: Option<u32>)
        requires
            self.completed_frames@.len() > 0 ==> self.completed_frames@.last() < u32::MAX,
        ensures
            r == if self.completed_frames@.len() == 0 {
                None::<u32>
            } else {
                Some((self.completed_frames@.last() + 1) as u32)
            },
    {
        let n: usize = self.completed_frames.len();
        if n == 0 {
            None
        } else {
            Some(self.completed_frames[n - 1] + 1)
        }
    }

    pub fn with_priority(self, priority: i32) -> (r: RenderJob)
        ensures
            r == (RenderJob { priority, ..self }),
            r@ == (JobView { priority, ..self@ }),
    {
        let mut job = self;
        job.priority = priority;
        job
    }

    pub fn with_camera_id(self, camera_id: String) -> (r: RenderJob)
        ensures
            r == (RenderJob { camera_id: Some(camera_id), ..self }),
            r@ == (JobView { camera_id: Some(camera_id@), ..self@ }),
    {
        let mut job = self;
        job.camera_id = Some(camera_id);
        job
    }

    pub fn with_batch_id(self, batch_id: String) -> (r: RenderJob)
        ensures
            r == (RenderJob { batch_id: Some(batch_id), ..self }),
            r@ == (JobView { batch_id: Some(batch_id@), ..self@ }),
    {
        let mut job = self;
        job.batch_id = Some(batch_id);
        job
    }

    pub fn is_terminal(&self) -> (r: bool)
        ensures
            r == terminal(self.status),
    {
        match self.status {
            RenderJobStatus::Completed => true,
            RenderJobStatus::Failed => true,
            RenderJobStatus::Cancelled => true,
            RenderJobStatus::Queued => false,
            RenderJobStatus::Running => false,
        }
    }
}

/// Whether frames are in ascending order, each once.
pub open spec fn rising(frames: Seq<u32>) -> bool {
    forall|i: int, j: int| 0 <= i < j < frames.len() ==> #[trigger] frames[i] < #[trigger] frames[j]
}

/// Marking frames keeps the list of written frames ascending, each once; the
/// marked frame is in it.
pub proof fn marking_keeps_frames_rising(frames: Seq<u32>, frame: u32)
    requires
        rising(frames),
        !frames.contains(frame),
    ensures
        rising(order::ordered(frames.push(frame))),
        order::ordered(frames.push(frame)).contains(frame),
        forall|f: u32|
            #[trigger] frames.contains(f) ==> order::ordered(frames.push(frame)).contains(f),
{
    broadcast use vstd::seq_lib::group_to_multiset_ensures;

    let given = frames.push(frame);
    let sorted = order::ordered(given);
    order::ordering_orders(given);
    order::ordering_keeps_items(given);
    assert(given.no_duplicates()) by {
        assert forall|i: int, j: int|
            0 <= i < given.len() && 0 <= j < given.len() && i != j implies given[i] != given[j] by {
            if i == frames.len() {
                assert(frames.contains(frames[j]));
            } else if j == frames.len() {
                assert(frames.contains(frames[i]));
            } else if i < j {
                assert(frames[i] < frames[j]);
            } else {
                assert(frames[j] < frames[i]);
            }
        }
    }
    given.lemma_multiset_has_no_duplicates();
    sorted.lemma_multiset_has_no_duplicates_conv();
    assert(rising(sorted)) by {
        assert forall|i: int, j: int| 0 <= i < j < sorted.len() implies #[trigger] sorted[i]
            < #[trigger] sorted[j] by {
            assert(!order::Ranked::ahead(sorted[j], sorted[i]));
            assert(sorted[i] != sorted[j]);
        }
    }
    assert forall|f: u32| given.contains(f) implies sorted.contains(f) by {
        assert(given.to_multiset().count(f) > 0);
    }
    assert(given[frames.len() as int] == frame);
    assert forall|f: u32| #[trigger] frames.contains(f) implies sorted.contains(f) by {
        let k = choose|k: int| 0 <= k < frames.len() && frames[k] == f;
        assert(given[k] == f);
    }
}

/// A new job waits, has done nothing, and renders what it was made for.
pub proof fn new_jobs_have_done_nothing(
    id: Seq<char>,
    created_at: Timestamp,
    preset: RenderPresetView,
    scene: SceneView,
)
    ensures
        ({
            let j = unstarted(id, created_at, preset, scene);
            &&& j.id == id && j.created_at == created_at && j.preset == preset && j.scene == scene
            &&& j.status == RenderJobStatus::Queued && !terminal(j.status)
            &&& j.progress.bits == 0 && j.completed_frames.len() == 0
            &&& j.started_at is None && j.completed_at is None
            &&& j.output_path is None && j.error is None
            &&& j.camera_id is None && j.batch_id is None && j.priority == 0
        }),
{
}

/// A job is over exactly where it neither waits nor runs.
pub proof fn jobs_are_over_when_they_neither_wait_nor_run(status: RenderJobStatus)
    ensures
        terminal(status) <==> status != RenderJobStatus::Queued && status
            != RenderJobStatus::Running,
{
}

} // verus!
