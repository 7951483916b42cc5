//! The render queue: jobs waiting by priority, jobs running, jobs done.
//!
//! The queue runs nothing. Whoever decides how many jobs may run pulls the next
//! one with [`RenderQueue::admit_next`] and reports what becomes of it.
use vstd::prelude::*;

use crate::cameras::CameraSnapshot;
use crate::clock;
use crate::clock::Timestamp;
use crate::ids;
use crate::job;
use crate::job::{JobView, RenderJob, RenderJobStatus};
use crate::order;
use crate::order::Ranked;
use crate::preset::{RenderPreset, RenderPresetView};
use crate::scene::{RenderScene, SceneView};
use crate::single::Single;
use crate::text;

verus! {

#[derive(Debug, PartialEq)]
pub enum QueueError {
    /// No job with the id is where the step needs it.
    UnknownJob(String),
    /// No failed job has the id.
    Terminal(String),
}

/// What a submission of several jobs returns.
#[derive(Debug, PartialEq)]
pub struct BatchSubmission {
    pub batch_id: String,
    pub job_ids: Vec<String>,
}

/// How far the jobs of a batch are.
#[derive(Debug, PartialEq)]
pub struct BatchProgress {
    pub batch_id: String,
    pub total: usize,
    pub queued: usize,
    pub running: usize,
    pub completed: usize,
    pub failed: usize,
    pub cancelled: usize,
    /// Average over all jobs: a completed one counts 1, a running one its
    /// progress, any other 0.
    pub average_progress: Single,
}

/// Jobs by what is happening to them.
#[derive(Debug, PartialEq)]
pub struct RenderQueue {
    queued: Vec<RenderJob>,
    running: Vec<RenderJob>,
    completed: Vec<RenderJob>,
}

/// What a queue holds.
pub struct QueueView {
    pub queued: Seq<RenderJob>,
    pub running: Seq<RenderJob>,
    pub completed: Seq<RenderJob>,
}

impl View for RenderQueue {
    type V = QueueView;

    closed spec fn view(&self) -> QueueView {
        QueueView {
            queued: self.queued@,
            running: self.running@,
            completed: self.completed@,
        }
    }
}

impl Ranked for RenderJob {
    /// Jobs of higher priority go first.
    open spec fn ahead(self, other: RenderJob) -> bool {
        self.priority > other.priority
    }

    proof fn ahead_is_asymmetric(a: RenderJob, b: RenderJob) {
    }

    proof fn ties_are_transitive(a: RenderJob, b: RenderJob, c: RenderJob) {
    }

    fn is_ahead(&self, other: &RenderJob) -> (r: bool) {
        self.priority > other.priority
    }
}

impl QueueView {
    /// Waiting jobs stand by priority, and every job has the status of the list
    /// that it is in.
    pub open spec fn wf(self) -> bool {
        &&& order::in_order(self.queued)
        &&& forall|i: int|
            0 <= i < self.queued.len() ==> (#[trigger] self.queued[i]).status
                == RenderJobStatus::Queued
        &&& forall|i: int|
            0 <= i < self.running.len() ==> (#[trigger] self.running[i]).status
                == RenderJobStatus::Running
        &&& forall|i: int|
            0 <= i < self.completed.len() ==> job::terminal((#[trigger] self.completed[i]).status)
    }

    /// Every job: waiting, running, done.
    pub open spec fn all(self) -> Seq<RenderJob> {
        self.queued + self.running + self.completed
    }
}

// ---- what each step does -----------------------------------------------

/// Index of the first job with an id.
pub open spec fn find(jobs: Seq<RenderJob>, id: Seq<char>) -> Option<int>
    decreases jobs.len(),
{
    if jobs.len() == 0 {
        None
    } else if jobs[0].id@ == id {
        Some(0)
    } else {
        match find(jobs.drop_first(), id) {
            Some(k) => Some(k + 1),
            None => None,
        }
    }
}

/// Index of the first failed job with an id.
pub open spec fn find_failed(jobs: Seq<RenderJob>, id: Seq<char>) -> Option<int>
    decreases jobs.len(),
{
    if jobs.len() == 0 {
        None
    } else if jobs[0].id@ == id && jobs[0].status == RenderJobStatus::Failed {
        Some(0)
    } else {
        match find_failed(jobs.drop_first(), id) {
            Some(k) => Some(k + 1),
            None => None,
        }
    }
}

/// The queue with a job put among the waiting, behind those of its priority.
pub open spec fn enqueued(q: QueueView, job: RenderJob) -> QueueView {
    QueueView { queued: q.queued.insert(order::place_for(q.queued, job), job), ..q }
}

/// A job as it is handed in.
pub open spec fn handed_in(job: RenderJob) -> RenderJob {
    RenderJob { status: RenderJobStatus::Queued, ..job }
}

/// The queue with jobs handed in one after the other.
pub open spec fn all_handed_in(q: QueueView, jobs: Seq<RenderJob>) -> QueueView
    decreases jobs.len(),
{
    if jobs.len() == 0 {
        q
    } else {
        enqueued(all_handed_in(q, jobs.drop_last()), handed_in(jobs.last()))
    }
}

/// A job that has begun.
pub open spec fn begun(job: RenderJob, now: Timestamp) -> RenderJob {
    RenderJob { status: RenderJobStatus::Running, started_at: Some(now), ..job }
}

/// The queue with its first waiting job begun.
pub open spec fn admitted(q: QueueView, now: Timestamp) -> QueueView {
    QueueView {
        queued: q.queued.remove(0),
        running: q.running.push(begun(q.queued[0], now)),
        ..q
    }
}

/// A job that is done.
pub open spec fn done(job: RenderJob, output_path: String, now: Timestamp) -> RenderJob {
    RenderJob {
        status: RenderJobStatus::Completed,
        progress: Single { bits: 0x3f80_0000 },
        completed_at: Some(now),
        output_path: Some(output_path),
        ..job
    }
}

/// A job that has failed.
pub open spec fn failed(job: RenderJob, message: String, now: Timestamp) -> RenderJob {
    RenderJob {
        status: RenderJobStatus::Failed,
        completed_at: Some(now),
        error: Some(message),
        ..job
    }
}

/// A job that was called off.
pub open spec fn cancelled(job: RenderJob, now: Timestamp) -> RenderJob {
    RenderJob { status: RenderJobStatus::Cancelled, completed_at: Some(now), ..job }
}

/// A failed job made ready for another try.
pub open spec fn renewed(job: RenderJob) -> RenderJob {
    RenderJob {
        status: RenderJobStatus::Queued,
        error: None,
        progress: Single { bits: 0 },
        started_at: None,
        completed_at: None,
        ..job
    }
}

/// The queue with a running job replaced by what became of it, among the done.
pub open spec fn run_ended(q: QueueView, i: int, job: RenderJob) -> QueueView {
    QueueView { running: q.running.remove(i), completed: q.completed.push(job), ..q }
}

/// The queue with a waiting job replaced by what became of it, among the done.
pub open spec fn wait_ended(q: QueueView, i: int, job: RenderJob) -> QueueView {
    QueueView { queued: q.queued.remove(i), completed: q.completed.push(job), ..q }
}

/// The queue after a running job is reported done.
pub open spec fn after_complete(
    q: QueueView,
    id: Seq<char>,
    output_path: String,
    now: Timestamp,
) -> Option<QueueView> {
    match find(q.running, id) {
        Some(i) => Some(run_ended(q, i, done(q.running[i], output_path, now))),
        None => None,
    }
}

/// The queue after a job, running or else waiting, is reported failed.
pub open spec fn after_fail(
    q: QueueView,
    id: Seq<char>,
    message: String,
    now: Timestamp,
) -> Option<QueueView> {
    match find(q.running, id) {
        Some(i) => Some(run_ended(q, i, failed(q.running[i], message, now))),
        None => match find(q.queued, id) {
            Some(i) => Some(wait_ended(q, i, failed(q.queued[i], message, now))),
            None => None,
        },
    }
}

/// The queue after a job, waiting or else running, is called off.
pub open spec fn after_cancel(q: QueueView, id: Seq<char>, now: Timestamp) -> Option<QueueView> {
    match find(q.queued, id) {
        Some(i) => Some(wait_ended(q, i, cancelled(q.queued[i], now))),
        None => match find(q.running, id) {
            Some(i) => Some(run_ended(q, i, cancelled(q.running[i], now))),
            None => None,
        },
    }
}

/// The queue after a failed job is put back among the waiting.
pub open spec fn after_resume(q: QueueView, id: Seq<char>) -> Option<QueueView> {
    match find_failed(q.completed, id) {
        Some(i) => Some(
            enqueued(
                QueueView { completed: q.completed.remove(i), ..q },
                renewed(q.completed[i]),
            ),
        ),
        None => None,
    }
}

/// The queue after a running job reports its progress, held to 0 to 1.
pub open spec fn after_progress(q: QueueView, id: Seq<char>, progress: Single) -> Option<
    QueueView,
> {
    match find(q.running, id) {
        Some(i) => Some(
            QueueView {
                running: q.running.update(
                    i,
                    RenderJob {
                        progress: progress.clamped(
                            Single { bits: 0 },
                            Single { bits: 0x3f80_0000 },
                        ),
                        ..q.running[i]
                    },
                ),
                ..q
            },
        ),
        None => None,
    }
}

/// The jobs of a batch.
pub open spec fn in_batch(jobs: Seq<RenderJob>, batch_id: Seq<char>) -> Seq<RenderJob>
    decreases jobs.len(),
{
    if jobs.len() == 0 {
        Seq::empty()
    } else {
        let front = in_batch(jobs.drop_last(), batch_id);
        if text::text_if_any(jobs.last().batch_id) == Some(batch_id) {
            front.push(jobs.last())
        } else {
            front
        }
    }
}

/// How many of the jobs have a status.
pub open spec fn count_status(jobs: Seq<RenderJob>, status: RenderJobStatus) -> nat
    decreases jobs.len(),
{
    if jobs.len() == 0 {
        0
    } else {
        count_status(jobs.drop_last(), status) + if jobs.last().status == status {
            1nat
        } else {
            0nat
        }
    }
}

/// What the jobs add to a batch's progress: 1 for each that is completed, its
/// progress for each that runs.
pub open spec fn contributions(jobs: Seq<RenderJob>) -> Seq<Single>
    decreases jobs.len(),
{
    if jobs.len() == 0 {
        Seq::empty()
    } else {
        let front = contributions(jobs.drop_last());
        match jobs.last().status {
            RenderJobStatus::Completed => front.push(Single { bits: 0x3f80_0000 }),
            RenderJobStatus::Running => front.push(jobs.last().progress),
            _ => front,
        }
    }
}

/// Each camera with each preset, the presets changing fastest.
pub open spec fn pairs(
    cameras: Seq<CameraSnapshot>,
    presets: Seq<RenderPreset>,
) -> Seq<(Seq<char>, RenderPresetView)>
    decreases cameras.len(),
{
    if cameras.len() == 0 {
        Seq::empty()
    } else {
        pairs(cameras.drop_last(), presets) + presets.map_values(
            |p: RenderPreset| (cameras.last().id.value@, p@),
        )
    }
}

/// Whether jobs are fresh ones of one batch, one for each pair of camera and
/// preset, each under an id of its own making and created at a time of the calendar.
pub open spec fn batch_of(
    jobs: Seq<RenderJob>,
    targets: Seq<(Seq<char>, RenderPresetView)>,
    scene: SceneView,
    batch_id: Seq<char>,
) -> bool {
    &&& jobs.len() == targets.len()
    &&& forall|k: int|
        0 <= k < jobs.len() ==> (#[trigger] jobs[k])@ == (JobView {
            camera_id: Some(targets[k].0),
            batch_id: Some(batch_id),
            ..job::unstarted(jobs[k].id@, jobs[k].created_at, targets[k].1, scene)
        })
    &&& forall|k: int| 0 <= k < jobs.len() ==> job::fresh_identity(#[trigger] jobs[k])
}

/// Whether a queue took in fresh jobs of one batch, one for each pair of camera
/// and preset, under the given ids.
pub open spec fn batch_submitted(
    before: QueueView,
    after: QueueView,
    targets: Seq<(Seq<char>, RenderPresetView)>,
    scene: SceneView,
    batch_id: Seq<char>,
    job_ids: Seq<Seq<char>>,
) -> bool {
    exists|jobs: Seq<RenderJob>| #[trigger]
        batch_of(jobs, targets, scene, batch_id) && after == all_handed_in(before, jobs) && job_ids
            == ids_of(jobs)
}

/// Whether `r` is what `average` gave for the additions and their number.
pub open spec fn averaged<F: Fn(&Vec<Single>, usize) -> Single>(
    average: F,
    adds: Seq<Single>,
    total: usize,
    r: Single,
) -> bool {
    exists|v: Vec<Single>| v@ == adds && #[trigger] average.ensures((&v, total), r)
}

/// The ids of jobs, in order.
pub open spec fn ids_of(jobs: Seq<RenderJob>) -> Seq<Seq<char>> {
    jobs.map_values(|j: RenderJob| j.id@)
}

/// Whether a step was refused because no job with the id is where it needs one.
pub open spec fn unknown(r: Result<(), QueueError>, id: Seq<char>) -> bool {
    r matches Err(QueueError::UnknownJob(t)) && t@ == id
}

/// Whether a step was refused because no failed job has the id.
pub open spec fn not_failed(r: Result<(), QueueError>, id: Seq<char>) -> bool {
    r matches Err(QueueError::Terminal(t)) && t@ == id
}

// ---- lookups -----------------------------------------------------------

proof fn find_skips(jobs: Seq<RenderJob>, id: Seq<char>, k: int)
    requires
        0 <= k <= jobs.len(),
        forall|i: int| 0 <= i < k ==> (#[trigger] jobs[i]).id@ != id,
    ensures
        find(jobs, id) == match find(jobs.skip(k), id) {
            Some(i) => Some(i + k),
            None => None,
        },
    decreases k,
{
    if k == 0 {
        assert(jobs.skip(0) =~= jobs);
    } else {
        let rest = jobs.drop_first();
        assert forall|i: int| 0 <= i < k - 1 implies (#[trigger] rest[i]).id@ != id by {
            assert(rest[i] == jobs[i + 1]);
        }
        find_skips(rest, id, k - 1);
        assert(rest.skip(k - 1) =~= jobs.skip(k));
    }
}

/// Where a job is found it has the id.
pub proof fn found_job_has_the_id(jobs: Seq<RenderJob>, id: Seq<char>)
    ensures
        find(jobs, id) matches Some(i) ==> 0 <= i < jobs.len() && jobs[i].id@ == id,
        find(jobs, id) is None ==> forall|i: int|
            0 <= i < jobs.len() ==> (#[trigger] jobs[i]).id@ != id,
    decreases jobs.len(),
{
    if jobs.len() > 0 {
        found_job_has_the_id(jobs.drop_first(), id);
        if find(jobs, id) is None {
            assert forall|i: int| 0 <= i < jobs.len() implies (#[trigger] jobs[i]).id@ != id by {
                if i > 0 {
                    assert(jobs.drop_first()[i - 1] == jobs[i]);
                }
            }
        }
    }
}

fn find_job(jobs: &Vec<RenderJob>, id: &str) -> (r: Option<usize>)
    ensures
        match r {
            Some(i) => i < jobs@.len() && find(jobs@, id@) == Some(i as int),
            None => find(jobs@, id@) is None,
        },
{
    let mut i: usize = 0;
    while i < jobs.len()
        invariant
            i <= jobs.len(),
            forall|k: int| 0 <= k < i ==> (#[trigger] jobs@[k]).id@ != id@,
        decreases jobs.len() - i,
    {
        if text::same_text(jobs[i].id.as_str(), id) {
            proof {
                find_skips(jobs@, id@, i as int);
                assert(jobs@.skip(i as int)[0] == jobs@[i as int]);
            }
            return Some(i);
        }
        i = i + 1;
    }
    proof {
        find_skips(jobs@, id@, i as int);
        assert(jobs@.skip(i as int) =~= Seq::empty());
    }
    None
}

proof fn find_failed_skips(jobs: Seq<RenderJob>, id: Seq<char>, k: int)
    requires
        0 <= k <= jobs.len(),
        forall|i: int|
            0 <= i < k ==> (#[trigger] jobs[i]).id@ != id || jobs[i].status
                != RenderJobStatus::Failed,
    ensures
        find_failed(jobs, id) == match find_failed(jobs.skip(k), id) {
            Some(i) => Some(i + k),
            None => None,
        },
    decreases k,
{
    if k == 0 {
        assert(jobs.skip(0) =~= jobs);
    } else {
        let rest = jobs.drop_first();
        assert forall|i: int| 0 <= i < k - 1 implies (#[trigger] rest[i]).id@ != id
            || rest[i].status != RenderJobStatus::Failed by {
            assert(rest[i] == jobs[i + 1]);
        }
        find_failed_skips(rest, id, k - 1);
        assert(rest.skip(k - 1) =~= jobs.skip(k));
    }
}

fn find_failed_job(jobs: &Vec<RenderJob>, id: &str) -> (r: Option<usize>)
    ensures
        match r {
            Some(i) => i < jobs@.len() && find_failed(jobs@, id@) == Some(i as int),
            None => find_failed(jobs@, id@) is None,
        },
{
    let mut i: usize = 0;
    while i < jobs.len()
        invariant
            i <= jobs.len(),
            forall|k: int|
                0 <= k < i ==> (#[trigger] jobs@[k]).id@ != id@ || jobs@[k].status
                    != RenderJobStatus::Failed,
        decreases jobs.len() - i,
    {
        if text::same_text(jobs[i].id.as_str(), id) && jobs[i].status == RenderJobStatus::Failed {
            proof {
                find_failed_skips(jobs@, id@, i as int);
                assert(jobs@.skip(i as int)[0] == jobs@[i as int]);
            }
            return Some(i);
        }
        i = i + 1;
    }
    proof {
        find_failed_skips(jobs@, id@, i as int);
        assert(jobs@.skip(i as int) =~= Seq::empty());
    }
    None
}

// ---- the queue ---------------------------------------------------------

impl RenderQueue {
    pub fn new() -> (r: RenderQueue)
        ensures
            r@.wf(),
            r@.all() == Seq::<RenderJob>::empty(),
    {
        let r = RenderQueue { queued: Vec::new(), running: Vec::new(), completed: Vec::new() };
        proof {
            assert(r@.all() =~= Seq::empty());
        }
        r
    }

    /// Hands a job in: it waits behind the jobs of its priority and higher. Gives
    /// its id.
    pub fn submit(&mut self, job: RenderJob) -> (r: String)
        requires
            old(self)@.wf(),
        ensures
            final(self)@.wf(),
            final(self)@ == enqueued(old(self)@, handed_in(job)),
            r@ == job.id@,
    {
        let mut job = job;
        job.status = RenderJobStatus::Queued;
        let id: String = job.id.clone();
        proof {
            enqueueing_keeps_the_queue_sound(self@, job);
        }
        order::insert_stable(&mut self.queued, job);
        id
    }

    /// Hands in one job for each camera and preset of `targets`, all of one batch.
    fn submit_targets(
        &mut self,
        targets: Vec<(String, RenderPreset)>,
        scene: &RenderScene,
        batch_id: &String,
    ) -> (r: Vec<String>)
        requires
            old(self)@.wf(),
        ensures
            final(self)@.wf(),
            batch_submitted(
                old(self)@,
                final(self)@,
                target_views(targets@),
                scene@,
                batch_id@,
                text::texts(r@),
            ),
    {
        let ghost before = self@;
        let ghost views = target_views(targets@);
        let ghost mut jobs: Seq<RenderJob> = Seq::empty();
        let mut ids: Vec<String> = Vec::new();
        let mut i: usize = 0;
        proof {
            assert(text::texts(ids@) =~= ids_of(jobs));
        }
        while i < targets.len()
            invariant
                i <= targets.len(),
                self@.wf(),
                views == target_views(targets@),
                batch_of(jobs, views.take(i as int), scene@, batch_id@),
                self@ == all_handed_in(before, jobs),
                text::texts(ids@) == ids_of(jobs),
            decreases targets.len() - i,
        {
            let job: RenderJob = RenderJob::new(targets[i].1.clone(), scene.clone()).with_camera_id(
                targets[i].0.clone(),
            ).with_batch_id(batch_id.clone());
            let ghost earlier = jobs;
            let ghost given = ids@;
            proof {
                jobs = jobs.push(job);
                assert(jobs.drop_last() =~= earlier);
                assert(views[i as int] == (targets@[i as int].0@, targets@[i as int].1@));
                assert forall|k: int| 0 <= k < jobs.len() implies (#[trigger] jobs[k])@ == (
                JobView {
                    camera_id: Some(views.take(i + 1)[k].0),
                    batch_id: Some(batch_id@),
                    ..job::unstarted(
                        jobs[k].id@,
                        jobs[k].created_at,
                        views.take(i + 1)[k].1,
                        scene@,
                    )
                }) by {
                    if k < i {
                        assert(earlier[k]@ == (JobView {
                            camera_id: Some(views.take(i as int)[k].0),
                            batch_id: Some(batch_id@),
                            ..job::unstarted(
                                earlier[k].id@,
                                earlier[k].created_at,
                                views.take(i as int)[k].1,
                                scene@,
                            )
                        }));
                    }
                }
            }
            ids.push(self.submit(job));
            i = i + 1;
            proof {
                assert(text::texts(ids@) =~= text::texts(given).push(job.id@));
                assert(ids_of(jobs) =~= ids_of(earlier).push(job.id@));
            }
        }
        proof {
            assert(views.take(i as int) =~= views);
            assert(batch_of(jobs, views, scene@, batch_id@));
        }
        ids
    }

    /// Hands in one job for each camera, all with one preset, as one batch.
    pub fn submit_batch(
        &mut self,
        cameras: &Vec<CameraSnapshot>,
        preset: RenderPreset,
        scene: &RenderScene,
    ) -> (r: BatchSubmission)
        requires
            old(self)@.wf(),
        ensures
            final(self)@.wf(),
            exists|u: Seq<char>| #[trigger] ids::simple_uuid(u) && r.batch_id@ == "batch_"@ + u,
            batch_submitted(
                old(self)@,
                final(self)@,
                pairs(cameras@, seq![preset]),
                scene@,
                r.batch_id@,
                text::texts(r.job_ids@),
            ),
    {
        let presets: Vec<RenderPreset> = vec![preset];
        proof {
            assert(presets@ =~= seq![preset]);
        }
        self.submit_matrix(cameras, &presets, scene)
    }

    /// Hands in one job for each camera with each preset, as one batch.
    pub fn submit_matrix(
        &mut self,
        cameras: &Vec<CameraSnapshot>,
        presets: &Vec<RenderPreset>,
        scene: &RenderScene,
    ) -> (r: BatchSubmission)
        requires
            old(self)@.wf(),
        ensures
            final(self)@.wf(),
            exists|u: Seq<char>| #[trigger] ids::simple_uuid(u) && r.batch_id@ == "batch_"@ + u,
            batch_submitted(
                old(self)@,
                final(self)@,
                pairs(cameras@, presets@),
                scene@,
                r.batch_id@,
                text::texts(r.job_ids@),
            ),
    {
        let batch_id: String = ids::fresh_id("batch_");
        let mut targets: Vec<(String, RenderPreset)> = Vec::new();
        let mut c: usize = 0;
        proof {
            assert(cameras@.take(0) =~= Seq::empty());
            assert(target_views(targets@) =~= Seq::empty());
        }
        while c < cameras.len()
            invariant
                c <= cameras.len(),
                target_views(targets@) == pairs(cameras@.take(c as int), presets@),
            decreases cameras.len() - c,
        {
            let ghost done_before = pairs(cameras@.take(c as int), presets@);
            let ghost row = presets@.map_values(
                |p: RenderPreset| (cameras@[c as int].id.value@, p@),
            );
            let mut p: usize = 0;
            proof {
                assert(done_before + row.take(0) =~= done_before);
            }
            while p < presets.len()
                invariant
                    c < cameras.len(),
                    p <= presets.len(),
                    row == presets@.map_values(
                        |p: RenderPreset| (cameras@[c as int].id.value@, p@),
                    ),
                    target_views(targets@) == done_before + row.take(p as int),
                decreases presets.len() - p,
            {
                let ghost given = targets@;
                targets.push((cameras[c].id.as_str().to_owned(), presets[p].clone()));
                p = p + 1;
                proof {
                    assert(target_views(targets@) =~= target_views(given).push(row[p - 1]));
                    assert(row.take(p as int) =~= row.take(p - 1).push(row[p - 1]));
                    assert(done_before + row.take(p as int) =~= (done_before + row.take(
                        p - 1,
                    )).push(row[p - 1]));
                }
            }
            c = c + 1;
            proof {
                assert(row.take(p as int) =~= row);
                assert(cameras@.take(c as int).drop_last() =~= cameras@.take(c - 1));
                assert(cameras@.take(c as int).last() == cameras@[c - 1]);
            }
        }
        proof {
            assert(cameras@.take(c as int) =~= cameras@);
        }
        let job_ids: Vec<String> = self.submit_targets(targets, scene, &batch_id);
        BatchSubmission { batch_id, job_ids }
    }

    /// Every job: waiting, running, done.
    pub fn list_jobs(&self) -> (r: Vec<&RenderJob>)
        ensures
            r@.len() == self@.all().len(),
            forall|i: int| 0 <= i < r@.len() ==> *(#[trigger] r@[i]) == self@.all()[i],
    {
        let mut out: Vec<&RenderJob> = Vec::new();
        let ghost all = self@.all();
        let mut i: usize = 0;
        while i < self.queued.len()
            invariant
                i <= self.queued.len(),
                all == self@.all(),
                out@.len() == i,
                forall|k: int| 0 <= k < i ==> *(#[trigger] out@[k]) == all[k],
            decreases self.queued.len() - i,
        {
            out.push(&self.queued[i]);
            i = i + 1;
        }
        let mut j: usize = 0;
        while j < self.running.len()
            invariant
                j <= self.running.len(),
                all == self@.all(),
                out@.len() == self.queued.len() + j,
                forall|k: int| 0 <= k < out@.len() ==> *(#[trigger] out@[k]) == all[k],
            decreases self.running.len() - j,
        {
            out.push(&self.running[j]);
            j = j + 1;
        }
        let mut m: usize = 0;
        while m < self.completed.len()
            invariant
                m <= self.completed.len(),
                all == self@.all(),
                out@.len() == self.queued.len() + self.running.len() + m,
                forall|k: int| 0 <= k < out@.len() ==> *(#[trigger] out@[k]) == all[k],
            decreases self.completed.len() - m,
        {
            out.push(&self.completed[m]);
            m = m + 1;
        }
        out
    }

    /// The jobs of a batch, whatever is happening to them.
    pub fn jobs_in_batch(&self, batch_id: &str) -> (r: Vec<&RenderJob>)
        ensures
            r@.len() == in_batch(self@.all(), batch_id@).len(),
            forall|i: int|
                0 <= i < r@.len() ==> *(#[trigger] r@[i]) == in_batch(self@.all(), batch_id@)[i],
    {
        let all: Vec<&RenderJob> = self.list_jobs();
        let ghost jobs = self@.all();
        let mut out: Vec<&RenderJob> = Vec::new();
        let mut i: usize = 0;
        proof {
            assert(jobs.take(0) =~= Seq::empty());
        }
        while i < all.len()
            invariant
                i <= all.len(),
                all@.len() == jobs.len(),
                forall|k: int| 0 <= k < all@.len() ==> *(#[trigger] all@[k]) == jobs[k],
                out@.len() == in_batch(jobs.take(i as int), batch_id@).len(),
                forall|k: int|
                    0 <= k < out@.len() ==> *(#[trigger] out@[k]) == in_batch(
                        jobs.take(i as int),
                        batch_id@,
                    )[k],
            decreases all.len() - i,
        {
            let job: &RenderJob = all[i];
            let belongs: bool = match &job.batch_id {
                Some(b) => text::same_text(b.as_str(), batch_id),
                None => false,
            };
            proof {
                assert(jobs.take(i + 1).drop_last() =~= jobs.take(i as int));
                assert(jobs.take(i + 1).last() == *job);
            }
            if belongs {
                out.push(job);
            }
            i = i + 1;
        }
        proof {
            assert(jobs.take(i as int) =~= jobs);
        }
        out
    }

    /// How far the jobs of a batch are; nothing where it has none. `average` works
    /// the average out from what the jobs add and their number.
    pub fn batch_progress<F: Fn(&Vec<Single>, usize) -> Single>(
        &self,
        batch_id: &str,
        average: F,
    ) -> (r: Option<BatchProgress>)
        requires
            forall|v: &Vec<Single>, n: usize| #[trigger] average.requires((v, n)),
        ensures
            ({
                let jobs = in_batch(self@.all(), batch_id@);
                match r {
                    None => jobs.len() == 0,
                    Some(p) => {
                        &&& jobs.len() > 0
                        &&& p.batch_id@ == batch_id@
                        &&& p.total == jobs.len()
                        &&& p.queued == count_status(jobs, RenderJobStatus::Queued)
                        &&& p.running == count_status(jobs, RenderJobStatus::Running)
                        &&& p.completed == count_status(jobs, RenderJobStatus::Completed)
                        &&& p.failed == count_status(jobs, RenderJobStatus::Failed)
                        &&& p.cancelled == count_status(jobs, RenderJobStatus::Cancelled)
                        &&& averaged(average, contributions(jobs), p.total, p.average_progress)
                    },
                }
            }),
    {
        let list: Vec<&RenderJob> = self.jobs_in_batch(batch_id);
        if list.len() == 0 {
            return None;
        }
        let ghost jobs = in_batch(self@.all(), batch_id@);
        let total: usize = list.len();
        let mut queued: usize = 0;
        let mut running: usize = 0;
        let mut completed: usize = 0;
        let mut failed: usize = 0;
        let mut cancelled: usize = 0;
        let mut adds: Vec<Single> = Vec::new();
        let mut i: usize = 0;
        proof {
            assert(jobs.take(0) =~= Seq::empty());
        }
        while i < total
            invariant
                i <= total,
                total == list@.len(),
                total == jobs.len(),
                forall|k: int| 0 <= k < list@.len() ==> *(#[trigger] list@[k]) == jobs[k],
                queued == count_status(jobs.take(i as int), RenderJobStatus::Queued),
                running == count_status(jobs.take(i as int), RenderJobStatus::Running),
                completed == count_status(jobs.take(i as int), RenderJobStatus::Completed),
                failed == count_status(jobs.take(i as int), RenderJobStatus::Failed),
                cancelled == count_status(jobs.take(i as int), RenderJobStatus::Cancelled),
                queued <= i,
                running <= i,
                completed <= i,
                failed <= i,
                cancelled <= i,
                adds@ == contributions(jobs.take(i as int)),
            decreases total - i,
        {
            let job: &RenderJob = list[i];
            proof {
                assert(jobs.take(i + 1).drop_last() =~= jobs.take(i as int));
                assert(jobs.take(i + 1).last() == *job);
            }
            match job.status {
                RenderJobStatus::Completed => {
                    completed = completed + 1;
                    adds.push(Single::one());
                },
                RenderJobStatus::Failed => {
                    failed = failed + 1;
                },
                RenderJobStatus::Cancelled => {
                    cancelled = cancelled + 1;
                },
                RenderJobStatus::Running => {
                    running = running + 1;
                    adds.push(job.progress);
                },
                RenderJobStatus::Queued => {
                    queued = queued + 1;
                },
            }
            i = i + 1;
        }
        proof {
            assert(jobs.take(i as int) =~= jobs);
        }
        let average_progress: Single = average(&adds, total);
        assert(averaged(average, contributions(jobs), total, average_progress)) by {
            assert(adds@ == contributions(jobs));
            assert(average.ensures((&adds, total), average_progress));
        }
        Some(
            BatchProgress {
                batch_id: batch_id.to_owned(),
                total,
                queued,
                running,
                completed,
                failed,
                cancelled,
                average_progress,
            },
        )
    }

    pub fn queued_count(&self) -> (r: usize)
        ensures
            r == self@.queued.len(),
    {
        self.queued.len()
    }

    pub fn running_count(&self) -> (r: usize)
        ensures
            r == self@.running.len(),
    {
        self.running.len()
    }

    pub fn completed_count(&self) -> (r: usize)
        ensures
            r == self@.completed.len(),
    {
        self.completed.len()
    }

    /// Begins the waiting job of highest priority at a given time. Gives a copy.
    pub fn admit_next_at(&mut self, now: Timestamp) -> (r: Option<RenderJob>)
        requires
            old(self)@.wf(),
        ensures
            final(self)@.wf(),
            match r {
                None => old(self)@.queued.len() == 0 && final(self)@ == old(self)@,
                Some(job) => old(self)@.queued.len() > 0 && final(self)@ == admitted(
                    old(self)@,
                    now,
                ) && job@ == begun(old(self)@.queued[0], now)@,
            },
    {
        if self.queued.len() == 0 {
            return None;
        }
        proof {
            admission_keeps_the_queue_sound(self@, now);
        }
        let mut job: RenderJob = self.queued.remove(0);
        job.status = RenderJobStatus::Running;
        job.started_at = Some(now);
        let copy: RenderJob = job.clone();
        self.running.push(job);
        Some(copy)
    }

    /// Begins the waiting job of highest priority now. Gives a copy.
    pub fn admit_next(&mut self) -> (r: Option<RenderJob>)
        requires
            old(self)@.wf(),
        ensures
            final(self)@.wf(),
            match r {
                None => old(self)@.queued.len() == 0 && final(self)@ == old(self)@,
                Some(job) => old(self)@.queued.len() > 0 && exists|now: Timestamp| #[trigger]
                    now.valid() && final(self)@ == admitted(old(self)@, now) && job@ == begun(
                        old(self)@.queued[0],
                        now,
                    )@,
            },
    {
        let now: Timestamp = clock::utc_now();
        assert(now.valid());
        self.admit_next_at(now)
    }

    /// Notes the progress of a running job, held to 0 to 1.
    pub fn update_progress(&mut self, id: &str, progress: Single) -> (r: Result<(), QueueError>)
        requires
            old(self)@.wf(),
        ensures
            final(self)@.wf(),
            match after_progress(old(self)@, id@, progress) {
                Some(q) => r is Ok && final(self)@ == q,
                None => final(self)@ == old(self)@ && unknown(r, id@),
            },
    {
        match find_job(&self.running, id) {
            None => Err(QueueError::UnknownJob(id.to_owned())),
            Some(i) => {
                let ghost before = self@;
                let mut job: RenderJob = self.running.remove(i);
                job.progress = progress.clamp(Single::zero(), Single::one());
                self.running.insert(i, job);
                proof {
                    assert(self@.running =~= before.running.update(i as int, job));
                }
                Ok(())
            },
        }
    }

    /// Ends a running job with its output at a given time.
    pub fn complete_at(&mut self, id: &str, output_path: String, now: Timestamp) -> (r: Result<
        (),
        QueueError,
    >)
        requires
            old(self)@.wf(),
        ensures
            final(self)@.wf(),
            match after_complete(old(self)@, id@, output_path, now) {
                Some(q) => r is Ok && final(self)@ == q,
                None => final(self)@ == old(self)@ && unknown(r, id@),
            },
    {
        match find_job(&self.running, id) {
            None => Err(QueueError::UnknownJob(id.to_owned())),
            Some(i) => {
                let mut job: RenderJob = self.running.remove(i);
                job.status = RenderJobStatus::Completed;
                job.progress = Single::one();
                job.completed_at = Some(now);
                job.output_path = Some(output_path);
                self.completed.push(job);
                Ok(())
            },
        }
    }

    /// Ends a running job with its output now.
    pub fn complete(&mut self, id: &str, output_path: String) -> (r: Result<(), QueueError>)
        requires
            old(self)@.wf(),
        ensures
            final(self)@.wf(),
            r is Ok <==> find(old(self)@.running, id@) is Some,
            r is Ok ==> exists|now: Timestamp| #[trigger]
                now.valid() && after_complete(old(self)@, id@, output_path, now) == Some(
                    final(self)@,
                ),
            r is Err ==> final(self)@ == old(self)@ && unknown(r, id@),
    {
        let now: Timestamp = clock::utc_now();
        assert(now.valid());
        self.complete_at(id, output_path, now)
    }

    /// Ends a job, running or else waiting, with an error at a given time.
    pub fn fail_at(&mut self, id: &str, message: String, now: Timestamp) -> (r: Result<
        (),
        QueueError,
    >)
        requires
            old(self)@.wf(),
        ensures
            final(self)@.wf(),
            match after_fail(old(self)@, id@, message, now) {
                Some(q) => r is Ok && final(self)@ == q,
                None => final(self)@ == old(self)@ && unknown(r, id@),
            },
    {
        if let Some(i) = find_job(&self.running, id) {
            let mut job: RenderJob = self.running.remove(i);
            job.status = RenderJobStatus::Failed;
            job.completed_at = Some(now);
            job.error = Some(message);
            self.completed.push(job);
            return Ok(());
        }
        if let Some(i) = find_job(&self.queued, id) {
            proof {
                order::removal_keeps_order(self@.queued, i as int);
            }
            let mut job: RenderJob = self.queued.remove(i);
            job.status = RenderJobStatus::Failed;
            job.completed_at = Some(now);
            job.error = Some(message);
            self.completed.push(job);
            return Ok(());
        }
        Err(QueueError::UnknownJob(id.to_owned()))
    }

    /// Ends a job, running or else waiting, with an error now.
    pub fn fail(&mut self, id: &str, message: String) -> (r: Result<(), QueueError>)
        requires
            old(self)@.wf(),
        ensures
            final(self)@.wf(),
            r is Ok <==> find(old(self)@.running, id@) is Some || find(old(self)@.queued, id@)
                is Some,
            r is Ok ==> exists|now: Timestamp| #[trigger]
                now.valid() && after_fail(old(self)@, id@, message, now) == Some(final(self)@),
            r is Err ==> final(self)@ == old(self)@ && unknown(r, id@),
    {
        let now: Timestamp = clock::utc_now();
        assert(now.valid());
        self.fail_at(id, message, now)
    }

    /// Calls a job off, waiting or else running, at a given time.
    pub fn cancel_at(&mut self, id: &str, now: Timestamp) -> (r: Result<(), QueueError>)
        requires
            old(self)@.wf(),
        ensures
            final(self)@.wf(),
            match after_cancel(old(self)@, id@, now) {
                Some(q) => r is Ok && final(self)@ == q,
                None => final(self)@ == old(self)@ && unknown(r, id@),
            },
    {
        if let Some(i) = find_job(&self.queued, id) {
            proof {
                order::removal_keeps_order(self@.queued, i as int);
            }
            let mut job: RenderJob = self.queued.remove(i);
            job.status = RenderJobStatus::Cancelled;
            job.completed_at = Some(now);
            self.completed.push(job);
            return Ok(());
        }
        if let Some(i) = find_job(&self.running, id) {
            let mut job: RenderJob = self.running.remove(i);
            job.status = RenderJobStatus::Cancelled;
            job.completed_at = Some(now);
            self.completed.push(job);
            return Ok(());
        }
        Err(QueueError::UnknownJob(id.to_owned()))
    }

    /// Calls a job off, waiting or else running, now.
    pub fn cancel(&mut self, id: &str) -> (r: Result<(), QueueError>)
        requires
            old(self)@.wf(),
        ensures
            final(self)@.wf(),
            r is Ok <==> find(old(self)@.running, id@) is Some || find(old(self)@.queued, id@)
                is Some,
            r is Ok ==> exists|now: Timestamp| #[trigger]
                now.valid() && after_cancel(old(self)@, id@, now) == Some(final(self)@),
            r is Err ==> final(self)@ == old(self)@ && unknown(r, id@),
    {
        let now: Timestamp = clock::utc_now();
        assert(now.valid());
        self.cancel_at(id, now)
    }

    /// Puts a failed job back among the waiting, with what the failed try left
    /// behind cleared.
    pub fn resume(&mut self, id: &str) -> (r: Result<(), QueueError>)
        requires
            old(self)@.wf(),
        ensures
            final(self)@.wf(),
            match after_resume(old(self)@, id@) {
                Some(q) => r is Ok && final(self)@ == q,
                None => final(self)@ == old(self)@ && not_failed(r, id@),
            },
    {
        match find_failed_job(&self.completed, id) {
            None => Err(QueueError::Terminal(id.to_owned())),
            Some(i) => {
                let mut job: RenderJob = self.completed.remove(i);
                job.status = RenderJobStatus::Queued;
                job.error = None;
                job.progress = Single::zero();
                job.started_at = None;
                job.completed_at = None;
                proof {
                    enqueueing_keeps_the_queue_sound(self@, job);
                }
                order::insert_stable(&mut self.queued, job);
                Ok(())
            },
        }
    }

    /// The first job with an id, among the waiting, the running, the done.
    pub fn get(&self, id: &str) -> (r: Option<&RenderJob>)
        ensures
            match r {
                Some(job) => find(self@.all(), id@) is Some && *job == self@.all()[find(
                    self@.all(),
                    id@,
                )->0],
                None => find(self@.all(), id@) is None,
            },
    {
        let all: Vec<&RenderJob> = self.list_jobs();
        let ghost jobs = self@.all();
        let mut i: usize = 0;
        while i < all.len()
            invariant
                i <= all.len(),
                jobs == self@.all(),
                all@.len() == jobs.len(),
                forall|k: int| 0 <= k < all@.len() ==> *(#[trigger] all@[k]) == jobs[k],
                forall|k: int| 0 <= k < i ==> (#[trigger] jobs[k]).id@ != id@,
            decreases all.len() - i,
        {
            if text::same_text(all[i].id.as_str(), id) {
                proof {
                    find_skips(jobs, id@, i as int);
                    assert(jobs.skip(i as int)[0] == jobs[i as int]);
                }
                return Some(all[i]);
            }
            i = i + 1;
        }
        proof {
            find_skips(jobs, id@, i as int);
            assert(jobs.skip(i as int) =~= Seq::empty());
        }
        None
    }

    /// Puts a stored job back among the waiting, by its priority.
    pub fn restore_queued(&mut self, job: RenderJob)
        requires
            old(self)@.wf(),
            job.status == RenderJobStatus::Queued,
        ensures
            final(self)@.wf(),
            final(self)@ == enqueued(old(self)@, job),
    {
        proof {
            enqueueing_keeps_the_queue_sound(self@, job);
        }
        order::insert_stable(&mut self.queued, job);
    }

    /// Puts a stored job back among the running.
    pub fn restore_running(&mut self, job: RenderJob)
        requires
            old(self)@.wf(),
            job.status == RenderJobStatus::Running,
        ensures
            final(self)@.wf(),
            final(self)@ == (QueueView { running: old(self)@.running.push(job), ..old(self)@ }),
    {
        self.running.push(job);
    }

    /// Puts a stored job back among the done.
    pub fn restore_completed(&mut self, job: RenderJob)
        requires
            old(self)@.wf(),
            job::terminal(job.status),
        ensures
            final(self)@.wf(),
            final(self)@ == (QueueView { completed: old(self)@.completed.push(job), ..old(self)@ }),
    {
        self.completed.push(job);
    }
}

impl Default for RenderQueue {
    fn default() -> (r: RenderQueue)
        ensures
            r@.wf(),
            r@.all() == Seq::<RenderJob>::empty(),
    {
        RenderQueue::new()
    }
}

/// What each target of a submission holds.
pub open spec fn target_views(targets: Seq<(String, RenderPreset)>) -> Seq<
    (Seq<char>, RenderPresetView),
> {
    targets.map_values(|t: (String, RenderPreset)| (t.0@, t.1@))
}

/// A waiting job put in its place leaves the queue sound.
pub proof fn enqueueing_keeps_the_queue_sound(q: QueueView, job: RenderJob)
    requires
        q.wf(),
        job.status == RenderJobStatus::Queued,
    ensures
        enqueued(q, job).wf(),
        enqueued(q, job).queued.len() == q.queued.len() + 1,
{
    order::insertion_keeps_order(q.queued, job);
    let at = order::place_for(q.queued, job);
    assert forall|i: int| 0 <= i < enqueued(q, job).queued.len() implies (#[trigger] enqueued(
        q,
        job,
    ).queued[i]).status == RenderJobStatus::Queued by {
        if i < at {
            assert(q.queued[i].status == RenderJobStatus::Queued);
        } else if i > at {
            assert(q.queued[i - 1].status == RenderJobStatus::Queued);
        }
    }
}

/// Beginning the first waiting job leaves the queue sound.
proof fn admission_keeps_the_queue_sound(q: QueueView, now: Timestamp)
    requires
        q.wf(),
        q.queued.len() > 0,
    ensures
        admitted(q, now).wf(),
{
    order::removal_keeps_order(q.queued, 0);
    assert forall|i: int| 0 <= i < q.queued.remove(0).len() implies (#[trigger] q.queued.remove(
        0,
    )[i]).status == RenderJobStatus::Queued by {
        assert(q.queued[i + 1].status == RenderJobStatus::Queued);
    }
}

// ---- laws --------------------------------------------------------------

/// The ids of all jobs in a queue, as often as they occur.
pub open spec fn id_bag(q: QueueView) -> vstd::multiset::Multiset<Seq<char>> {
    ids_of(q.queued).to_multiset().add(ids_of(q.running).to_multiset()).add(
        ids_of(q.completed).to_multiset(),
    )
}

proof fn bag_after_removal(jobs: Seq<RenderJob>, i: int)
    requires
        0 <= i < jobs.len(),
    ensures
        ids_of(jobs).to_multiset() == ids_of(jobs.remove(i)).to_multiset().insert(jobs[i].id@),
{
    broadcast use vstd::seq_lib::group_to_multiset_ensures;

    let all = ids_of(jobs);
    assert(ids_of(jobs.remove(i)) =~= all.remove(i));
    assert(all.contains(all[i]));
    assert(all.to_multiset() =~= all.remove(i).to_multiset().insert(all[i]));
}

proof fn bag_after_push(jobs: Seq<RenderJob>, job: RenderJob)
    ensures
        ids_of(jobs.push(job)).to_multiset() == ids_of(jobs).to_multiset().insert(job.id@),
{
    broadcast use vstd::seq_lib::group_to_multiset_ensures;

    assert(ids_of(jobs.push(job)) =~= ids_of(jobs).push(job.id@));
}

proof fn bag_after_enqueue(jobs: Seq<RenderJob>, job: RenderJob)
    requires
        order::in_order(jobs),
    ensures
        ids_of(jobs.insert(order::place_for(jobs, job), job)).to_multiset() == ids_of(
            jobs,
        ).to_multiset().insert(job.id@),
{
    order::insertion_keeps_order(jobs, job);
    let at = order::place_for(jobs, job);
    let longer = jobs.insert(at, job);
    bag_after_removal(longer, at);
    assert(longer.remove(at) =~= jobs);
}

/// The job that is begun has the highest priority of all that wait, and of those
/// of its priority it has waited longest: it stands before them.
pub proof fn highest_priority_is_admitted(q: QueueView, i: int)
    requires
        q.wf(),
        0 <= i < q.queued.len(),
    ensures
        q.queued[0].priority >= q.queued[i].priority,
{
    if i > 0 {
        assert(!q.queued[i].ahead(q.queued[0]));
    }
}

/// A job that is handed in stands behind every job of its priority or higher and
/// before every job of lower priority; the others keep their order.
pub proof fn equal_priorities_are_first_in_first_out(q: QueueView, job: RenderJob)
    requires
        q.wf(),
    ensures
        ({
            let at = order::place_for(q.queued, job);
            let after = enqueued(q, job).queued;
            &&& 0 <= at <= q.queued.len()
            &&& after[at] == job
            &&& forall|i: int| 0 <= i < at ==> #[trigger] after[i] == q.queued[i]
            &&& forall|i: int| at < i < after.len() ==> #[trigger] after[i] == q.queued[i - 1]
            &&& forall|i: int| 0 <= i < at ==> (#[trigger] after[i]).priority >= job.priority
            &&& forall|i: int|
                at < i < after.len() ==> (#[trigger] after[i]).priority < job.priority
        }),
{
    order::insertion_keeps_order(q.queued, job);
    order::place_is_first(q.queued, job);
    let at = order::place_for(q.queued, job);
    let after = enqueued(q, job).queued;
    assert forall|i: int| at < i < after.len() implies (#[trigger] after[i]).priority
        < job.priority by {
        if i - 1 > at {
            assert(!q.queued[i - 1].ahead(q.queued[at]));
        }
    }
}

/// Handing a job in adds its id and loses none.
pub proof fn handing_in_adds_one_job(q: QueueView, job: RenderJob)
    requires
        q.wf(),
    ensures
        id_bag(enqueued(q, handed_in(job))) == id_bag(q).insert(job.id@),
{
    bag_after_enqueue(q.queued, handed_in(job));
    assert(id_bag(enqueued(q, handed_in(job))) =~= id_bag(q).insert(job.id@));
}

/// Beginning a job loses none and adds none.
pub proof fn admission_keeps_every_job(q: QueueView, now: Timestamp)
    requires
        q.wf(),
        q.queued.len() > 0,
    ensures
        admitted(q, now).wf(),
        id_bag(admitted(q, now)) == id_bag(q),
{
    admission_keeps_the_queue_sound(q, now);
    bag_after_removal(q.queued, 0);
    bag_after_push(q.running, begun(q.queued[0], now));
    assert(id_bag(admitted(q, now)) =~= id_bag(q));
}

proof fn run_end_keeps_every_job(q: QueueView, i: int, job: RenderJob)
    requires
        0 <= i < q.running.len(),
        job.id@ == q.running[i].id@,
    ensures
        id_bag(run_ended(q, i, job)) == id_bag(q),
{
    bag_after_removal(q.running, i);
    bag_after_push(q.completed, job);
    assert(id_bag(run_ended(q, i, job)) =~= id_bag(q));
}

proof fn wait_end_keeps_every_job(q: QueueView, i: int, job: RenderJob)
    requires
        0 <= i < q.queued.len(),
        job.id@ == q.queued[i].id@,
    ensures
        id_bag(wait_ended(q, i, job)) == id_bag(q),
{
    bag_after_removal(q.queued, i);
    bag_after_push(q.completed, job);
    assert(id_bag(wait_ended(q, i, job)) =~= id_bag(q));
}

/// Ending a job, by success, failure or calling it off, loses none and adds none.
pub proof fn endings_keep_every_job(q: QueueView, id: Seq<char>, note: String, now: Timestamp)
    ensures
        after_complete(q, id, note, now) matches Some(after) ==> id_bag(after) == id_bag(q),
        after_fail(q, id, note, now) matches Some(after) ==> id_bag(after) == id_bag(q),
        after_cancel(q, id, now) matches Some(after) ==> id_bag(after) == id_bag(q),
{
    found_job_has_the_id(q.running, id);
    found_job_has_the_id(q.queued, id);
    if let Some(i) = find(q.running, id) {
        run_end_keeps_every_job(q, i, done(q.running[i], note, now));
        run_end_keeps_every_job(q, i, failed(q.running[i], note, now));
        run_end_keeps_every_job(q, i, cancelled(q.running[i], now));
    }
    if let Some(i) = find(q.queued, id) {
        wait_end_keeps_every_job(q, i, failed(q.queued[i], note, now));
        wait_end_keeps_every_job(q, i, cancelled(q.queued[i], now));
    }
}

/// Where a failed job is found it has the id and has failed.
pub proof fn found_failed_job_has_failed(jobs: Seq<RenderJob>, id: Seq<char>)
    ensures
        find_failed(jobs, id) matches Some(i) ==> 0 <= i < jobs.len() && jobs[i].id@ == id
            && jobs[i].status == RenderJobStatus::Failed,
        find_failed(jobs, id) is None ==> forall|i: int|
            0 <= i < jobs.len() ==> (#[trigger] jobs[i]).id@ != id || jobs[i].status
                != RenderJobStatus::Failed,
    decreases jobs.len(),
{
    if jobs.len() > 0 {
        found_failed_job_has_failed(jobs.drop_first(), id);
        if find_failed(jobs, id) is None {
            assert forall|i: int| 0 <= i < jobs.len() implies (#[trigger] jobs[i]).id@ != id
                || jobs[i].status != RenderJobStatus::Failed by {
                if i > 0 {
                    assert(jobs.drop_first()[i - 1] == jobs[i]);
                }
            }
        }
    }
}

/// Resuming loses no job and adds none; the job waits again with nothing left of
/// the failed try.
pub proof fn resuming_renews_the_job(q: QueueView, id: Seq<char>)
    requires
        q.wf(),
        after_resume(q, id) is Some,
    ensures
        ({
            let after = after_resume(q, id)->0;
            &&& id_bag(after) == id_bag(q)
            &&& find(after.queued, id) is Some
            &&& exists|i: int|
                0 <= i < after.queued.len() && (#[trigger] after.queued[i]).id@ == id
                    && after.queued[i].status == RenderJobStatus::Queued && after.queued[i].error
                    is None && after.queued[i].started_at is None && after.queued[i].completed_at
                    is None && after.queued[i].progress.bits == 0
        }),
{
    found_failed_job_has_failed(q.completed, id);
    let i = find_failed(q.completed, id)->0;
    let job = renewed(q.completed[i]);
    let rest = QueueView { completed: q.completed.remove(i), ..q };
    let after = after_resume(q, id)->0;
    bag_after_removal(q.completed, i);
    bag_after_enqueue(q.queued, job);
    assert(id_bag(after) =~= id_bag(q));
    order::insertion_keeps_order(q.queued, job);
    let at = order::place_for(q.queued, job);
    assert(after.queued[at] == job);
    found_job_has_the_id(after.queued, id);
}

/// The counts of a batch add up to its number of jobs.
pub proof fn counts_add_up(jobs: Seq<RenderJob>)
    ensures
        count_status(jobs, RenderJobStatus::Queued) + count_status(jobs, RenderJobStatus::Running)
            + count_status(jobs, RenderJobStatus::Completed) + count_status(
            jobs,
            RenderJobStatus::Failed,
        ) + count_status(jobs, RenderJobStatus::Cancelled) == jobs.len(),
    decreases jobs.len(),
{
    if jobs.len() > 0 {
        counts_add_up(jobs.drop_last());
    }
}

/// A batch has one job for each camera with each preset.
pub proof fn every_pair_gets_a_job(
    cameras: Seq<CameraSnapshot>,
    presets: Seq<RenderPreset>,
    c: int,
    p: int,
)
    requires
        0 <= c < cameras.len(),
        0 <= p < presets.len(),
    ensures
        pairs(cameras, presets).len() == cameras.len() * presets.len(),
        0 <= c * presets.len() + p < pairs(cameras, presets).len(),
        pairs(cameras, presets)[c * presets.len() + p] == (cameras[c].id.value@, presets[p]@),
    decreases cameras.len(),
{
    let front = cameras.drop_last();
    let n = presets.len() as int;
    pairs_have_length(front, presets);
    pairs_have_length(cameras, presets);
    assert(front.len() * n + n == cameras.len() * n) by (nonlinear_arith)
        requires
            front.len() + 1 == cameras.len(),
    ;
    if c < front.len() {
        every_pair_gets_a_job(front, presets, c, p);
    } else {
        assert(c == front.len());
    }
}

proof fn pairs_have_length(cameras: Seq<CameraSnapshot>, presets: Seq<RenderPreset>)
    ensures
        pairs(cameras, presets).len() == cameras.len() * presets.len(),
    decreases cameras.len(),
{
    if cameras.len() > 0 {
        pairs_have_length(cameras.drop_last(), presets);
        assert((cameras.len() - 1) * presets.len() + presets.len() == cameras.len()
            * presets.len()) by (nonlinear_arith);
    } else {
        assert(cameras.len() * presets.len() == 0) by (nonlinear_arith)
            requires
                cameras.len() == 0,
        ;
    }
}

/// Whether two jobs are the same one: all that was settled when the job was made.
pub open spec fn same_job(a: RenderJob, b: RenderJob) -> bool {
    &&& a.id == b.id
    &&& a.preset == b.preset
    &&& a.scene == b.scene
    &&& a.created_at == b.created_at
    &&& a.priority == b.priority
    &&& a.camera_id == b.camera_id
    &&& a.batch_id == b.batch_id
    &&& a.completed_frames == b.completed_frames
}

/// The job that is begun is the first that waited, now running since the time given, last
/// among the running; it is no other job, and nothing else of it changes.
pub proof fn begun_jobs_run_since_then(q: QueueView, now: Timestamp)
    requires
        q.queued.len() > 0,
    ensures
        ({
            let after = admitted(q, now);
            let job = after.running.last();
            &&& after.queued == q.queued.drop_first()
            &&& after.running.drop_last() == q.running
            &&& after.completed == q.completed
            &&& same_job(job, q.queued[0])
            &&& job.status == RenderJobStatus::Running
            &&& job.started_at == Some(now)
            &&& job.progress == q.queued[0].progress
            &&& job.completed_at == q.queued[0].completed_at
            &&& job.error == q.queued[0].error
            &&& job.output_path == q.queued[0].output_path
        }),
{
    assert(admitted(q, now).queued =~= q.queued.drop_first());
    assert(admitted(q, now).running.drop_last() =~= q.running);
}

/// A running job, and no other, can be reported done. It then stands last among the done:
/// completed, all of it, at the time given, with its picture. The other jobs stay.
pub proof fn done_jobs_are_all_done(q: QueueView, id: Seq<char>, path: String, now: Timestamp)
    ensures
        after_complete(q, id, path, now) is Some <==> exists|i: int|
            0 <= i < q.running.len() && (#[trigger] q.running[i]).id@ == id,
        after_complete(q, id, path, now) matches Some(after) ==> {
            let i = find(q.running, id)->0;
            let job = after.completed.last();
            &&& after.queued == q.queued
            &&& after.running == q.running.remove(i)
            &&& after.completed.drop_last() == q.completed
            &&& same_job(job, q.running[i])
            &&& job.id@ == id
            &&& job.status == RenderJobStatus::Completed
            &&& job.progress.bits == 0x3f80_0000
            &&& job.completed_at == Some(now)
            &&& job.output_path == Some(path)
            &&& job.started_at == q.running[i].started_at
            &&& job.error == q.running[i].error
        },
{
    found_job_has_the_id(q.running, id);
    if let Some(after) = after_complete(q, id, path, now) {
        assert(after.completed.drop_last() =~= q.completed);
        assert(q.running[find(q.running, id)->0].id@ == id);
    }
}

/// A running job, or else a waiting one, can be reported failed. It then stands last among
/// the done: failed at the time given, with what went wrong, as far as it had come. The
/// other jobs stay.
pub proof fn failed_jobs_say_why(q: QueueView, id: Seq<char>, message: String, now: Timestamp)
    ensures
        after_fail(q, id, message, now) is Some <==> (exists|i: int|
            0 <= i < q.running.len() && (#[trigger] q.running[i]).id@ == id) || (exists|i: int|
            0 <= i < q.queued.len() && (#[trigger] q.queued[i]).id@ == id),
        after_fail(q, id, message, now) matches Some(after) ==> {
            let running = find(q.running, id) is Some;
            let before = if running {
                q.running[find(q.running, id)->0]
            } else {
                q.queued[find(q.queued, id)->0]
            };
            let job = after.completed.last();
            &&& running ==> after.running == q.running.remove(find(q.running, id)->0)
                && after.queued == q.queued
            &&& !running ==> after.queued == q.queued.remove(find(q.queued, id)->0)
                && after.running == q.running
            &&& after.completed.drop_last() == q.completed
            &&& same_job(job, before)
            &&& job.id@ == id
            &&& job.status == RenderJobStatus::Failed
            &&& job.error == Some(message)
            &&& job.completed_at == Some(now)
            &&& job.progress == before.progress
            &&& job.started_at == before.started_at
            &&& job.output_path == before.output_path
        },
{
    found_job_has_the_id(q.running, id);
    found_job_has_the_id(q.queued, id);
    if let Some(after) = after_fail(q, id, message, now) {
        assert(after.completed.drop_last() =~= q.completed);
    }
}

/// A waiting job, or else a running one, can be called off. It then stands last among the
/// done: cancelled at the time given, as far as it had come. The other jobs stay.
pub proof fn jobs_are_called_off_once(q: QueueView, id: Seq<char>, now: Timestamp)
    ensures
        after_cancel(q, id, now) is Some <==> (exists|i: int|
            0 <= i < q.running.len() && (#[trigger] q.running[i]).id@ == id) || (exists|i: int|
            0 <= i < q.queued.len() && (#[trigger] q.queued[i]).id@ == id),
        after_cancel(q, id, now) matches Some(after) ==> {
            let waiting = find(q.queued, id) is Some;
            let before = if waiting {
                q.queued[find(q.queued, id)->0]
            } else {
                q.running[find(q.running, id)->0]
            };
            let job = after.completed.last();
            &&& !waiting ==> after.running == q.running.remove(find(q.running, id)->0)
                && after.queued == q.queued
            &&& waiting ==> after.queued == q.queued.remove(find(q.queued, id)->0)
                && after.running == q.running
            &&& after.completed.drop_last() == q.completed
            &&& same_job(job, before)
            &&& job.id@ == id
            &&& job.status == RenderJobStatus::Cancelled
            &&& job.completed_at == Some(now)
            &&& job.progress == before.progress
            &&& job.started_at == before.started_at
            &&& job.error == before.error
            &&& job.output_path == before.output_path
        },
{
    found_job_has_the_id(q.running, id);
    found_job_has_the_id(q.queued, id);
    if let Some(after) = after_cancel(q, id, now) {
        assert(after.completed.drop_last() =~= q.completed);
    }
}

/// A failed job, and no other, can be resumed. It leaves the done and waits again as the
/// same job, with its written frames and its picture's place; the running and the other
/// done stay.
pub proof fn failed_jobs_can_be_resumed(q: QueueView, id: Seq<char>)
    requires
        q.wf(),
    ensures
        after_resume(q, id) is Some <==> exists|i: int|
            0 <= i < q.completed.len() && (#[trigger] q.completed[i]).id@ == id
                && q.completed[i].status == RenderJobStatus::Failed,
        after_resume(q, id) matches Some(after) ==> {
            let i = find_failed(q.completed, id)->0;
            let at = order::place_for(q.queued, renewed(q.completed[i]));
            let job = after.queued[at];
            &&& after.completed == q.completed.remove(i)
            &&& after.running == q.running
            &&& after.queued.remove(at) == q.queued
            &&& same_job(job, q.completed[i])
            &&& job.output_path == q.completed[i].output_path
            &&& job.status == RenderJobStatus::Queued
        },
{
    found_failed_job_has_failed(q.completed, id);
    if let Some(after) = after_resume(q, id) {
        let i = find_failed(q.completed, id)->0;
        let job = renewed(q.completed[i]);
        order::insertion_keeps_order(q.queued, job);
        let at = order::place_for(q.queued, job);
        assert(after.queued.remove(at) =~= q.queued);
    }
}

/// A running job reports its progress, held to 0 to 1, and nothing else changes.
pub proof fn progress_changes_nothing_else(q: QueueView, id: Seq<char>, progress: Single)
    ensures
        after_progress(q, id, progress) is Some <==> exists|i: int|
            0 <= i < q.running.len() && (#[trigger] q.running[i]).id@ == id,
        after_progress(q, id, progress) matches Some(after) ==> {
            let i = find(q.running, id)->0;
            let zero = Single { bits: 0 };
            let one = Single { bits: 0x3f80_0000 };
            &&& after.queued == q.queued
            &&& after.completed == q.completed
            &&& after.running.len() == q.running.len()
            &&& forall|k: int|
                0 <= k < q.running.len() && k != i ==> #[trigger] after.running[k] == q.running[k]
            &&& same_job(after.running[i], q.running[i])
            &&& after.running[i].status == q.running[i].status
            &&& after.running[i].started_at == q.running[i].started_at
            &&& zero.at_most(progress) && progress.at_most(one) ==> after.running[i].progress
                == progress
            &&& progress.below(zero) ==> after.running[i].progress == zero
            &&& one.below(progress) ==> after.running[i].progress == one
        },
{
    found_job_has_the_id(q.running, id);
}

/// The jobs of a batch are those that carry its id, in their order, and none else.
pub proof fn batches_hold_what_carries_their_id(jobs: Seq<RenderJob>, batch_id: Seq<char>)
    ensures
        in_batch(jobs, batch_id) == jobs.filter(
            |j: RenderJob| j.batch_id is Some && j.batch_id->0@ == batch_id,
        ),
    decreases jobs.len(),
{
    reveal(Seq::filter);
    if jobs.len() > 0 {
        batches_hold_what_carries_their_id(jobs.drop_last(), batch_id);
    }
}

/// A status is counted once for each job that has it.
pub proof fn statuses_are_counted_once(jobs: Seq<RenderJob>, status: RenderJobStatus)
    ensures
        count_status(jobs, status) == jobs.filter(|j: RenderJob| j.status == status).len(),
    decreases jobs.len(),
{
    reveal(Seq::filter);
    if jobs.len() > 0 {
        statuses_are_counted_once(jobs.drop_last(), status);
    }
}

/// A batch's progress takes in 1 for each job that is completed and the progress of each
/// that runs; waiting, failed and cancelled jobs add nothing.
pub proof fn completed_jobs_count_in_full(jobs: Seq<RenderJob>)
    ensures
        contributions(jobs) == jobs.filter(
            |j: RenderJob|
                j.status == RenderJobStatus::Completed || j.status == RenderJobStatus::Running,
        ).map_values(
            |j: RenderJob|
                if j.status == RenderJobStatus::Completed {
                    Single { bits: 0x3f80_0000 }
                } else {
                    j.progress
                },
        ),
        contributions(jobs).len() == count_status(jobs, RenderJobStatus::Completed) + count_status(
            jobs,
            RenderJobStatus::Running,
        ),
    decreases jobs.len(),
{
    reveal(Seq::filter);
    let counts = |j: RenderJob|
        j.status == RenderJobStatus::Completed || j.status == RenderJobStatus::Running;
    let part = |j: RenderJob|
        if j.status == RenderJobStatus::Completed {
            Single { bits: 0x3f80_0000 }
        } else {
            j.progress
        };
    if jobs.len() > 0 {
        completed_jobs_count_in_full(jobs.drop_last());
        let front = jobs.drop_last().filter(counts);
        if counts(jobs.last()) {
            assert(jobs.filter(counts) == front.push(jobs.last()));
            assert(front.push(jobs.last()).map_values(part) =~= front.map_values(part).push(
                part(jobs.last()),
            ));
        }
    }
}

/// Jobs that are handed in one after the other all wait, and no job is lost.
pub proof fn handing_in_many_adds_each(q: QueueView, jobs: Seq<RenderJob>)
    requires
        q.wf(),
    ensures
        all_handed_in(q, jobs).wf(),
        all_handed_in(q, jobs).queued.len() == q.queued.len() + jobs.len(),
        all_handed_in(q, jobs).running == q.running,
        all_handed_in(q, jobs).completed == q.completed,
        id_bag(all_handed_in(q, jobs)) == id_bag(q).add(ids_of(jobs).to_multiset()),
    decreases jobs.len(),
{
    broadcast use vstd::seq_lib::group_to_multiset_ensures;

    if jobs.len() == 0 {
        assert(ids_of(jobs) =~= Seq::empty());
        assert(id_bag(all_handed_in(q, jobs)) =~= id_bag(q).add(ids_of(jobs).to_multiset()));
    } else {
        let front = jobs.drop_last();
        handing_in_many_adds_each(q, front);
        let before = all_handed_in(q, front);
        enqueueing_keeps_the_queue_sound(before, handed_in(jobs.last()));
        handing_in_adds_one_job(before, jobs.last());
        assert(ids_of(jobs) =~= ids_of(front).push(jobs.last().id@));
        assert(id_bag(all_handed_in(q, jobs)) =~= id_bag(q).add(ids_of(jobs).to_multiset()));
    }
}

/// A job that is handed in waits, and is otherwise as it was.
pub proof fn handed_in_jobs_wait(job: RenderJob)
    ensures
        handed_in(job).status == RenderJobStatus::Queued,
        same_job(handed_in(job), job),
        handed_in(job).progress == job.progress,
        handed_in(job).started_at == job.started_at,
        handed_in(job).completed_at == job.completed_at,
        handed_in(job).error == job.error,
        handed_in(job).output_path == job.output_path,
{
}

/// The jobs of a batch are made for its pairs, one each and in their order: each renders its
/// own camera with its own preset, in the batch, and has done nothing yet.
pub proof fn batch_jobs_stand_for_their_pairs(
    jobs: Seq<RenderJob>,
    targets: Seq<(Seq<char>, RenderPresetView)>,
    scene: SceneView,
    batch_id: Seq<char>,
    k: int,
)
    requires
        batch_of(jobs, targets, scene, batch_id),
        0 <= k < targets.len(),
    ensures
        jobs.len() == targets.len(),
        jobs[k]@.camera_id == Some(targets[k].0),
        jobs[k]@.preset == targets[k].1,
        jobs[k]@.scene == scene,
        jobs[k]@.batch_id == Some(batch_id),
        jobs[k]@.status == RenderJobStatus::Queued,
        jobs[k]@.progress.bits == 0,
        jobs[k]@.completed_frames.len() == 0,
        jobs[k]@.started_at is None,
        jobs[k]@.completed_at is None,
        jobs[k]@.error is None,
        jobs[k]@.output_path is None,
        jobs[k]@.priority == 0,
{
    assert(jobs[k]@ == jobs[k]@);
}

} // verus!
