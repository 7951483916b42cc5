//! What a job becomes in the job database, and what comes back out of it.
//!
//! The database keeps each job whole, as JSON, and beside it the columns that
//! queries filter and sort by. The columns always mirror the job.
use vstd::prelude::*;

use crate::clock;
use crate::clock::Timestamp;
use crate::job;
use crate::job::{RenderJob, RenderJobStatus};
use crate::queue;
use crate::queue::{QueueView, RenderQueue};
use crate::single::Single;
use crate::text;

verus! {

/// The columns of one job.
#[derive(Debug, PartialEq)]
pub struct JobRow {
    pub id: String,
    pub status: String,
    pub priority: i32,
    pub progress: Single,
    pub batch_id: Option<String>,
    pub camera_id: Option<String>,
    pub output_path: Option<String>,
    pub error: Option<String>,
    pub created_at: String,
    pub started_at: Option<String>,
    pub completed_at: Option<String>,
    pub completed_frames: String,
    /// The whole job as JSON.
    pub payload: String,
}

/// What the columns of a job hold.
pub struct JobRowView {
    pub id: Seq<char>,
    pub status: Seq<char>,
    pub priority: i32,
    pub progress: Single,
    pub batch_id: Option<Seq<char>>,
    pub camera_id: Option<Seq<char>>,
    pub output_path: Option<Seq<char>>,
    pub error: Option<Seq<char>>,
    pub created_at: Seq<char>,
    pub started_at: Option<Seq<char>>,
    pub completed_at: Option<Seq<char>>,
    pub completed_frames: Seq<char>,
    pub payload: Seq<char>,
}

impl View for JobRow {
    type V = JobRowView;

    open spec fn view(&self) -> JobRowView {
        JobRowView {
            id: self.id@,
            status: self.status@,
            priority: self.priority,
            progress: self.progress,
            batch_id: text::text_if_any(self.batch_id),
            camera_id: text::text_if_any(self.camera_id),
            output_path: text::text_if_any(self.output_path),
            error: text::text_if_any(self.error),
            created_at: self.created_at@,
            started_at: text::text_if_any(self.started_at),
            completed_at: text::text_if_any(self.completed_at),
            completed_frames: self.completed_frames@,
            payload: self.payload@,
        }
    }
}

/// The text that stands for a status in the database.
pub open spec fn status_text(s: RenderJobStatus) -> Seq<char> {
    match s {
        RenderJobStatus::Queued => "queued"@,
        RenderJobStatus::Running => "running"@,
        RenderJobStatus::Completed => "completed"@,
        RenderJobStatus::Failed => "failed"@,
        RenderJobStatus::Cancelled => "cancelled"@,
    }
}

/// The text that stands for a status in the database.
pub fn status_to_str(s: RenderJobStatus) -> (r: &'static str)
    ensures
        r@ == status_text(s),
{
    match s {
        RenderJobStatus::Queued => "queued",
        RenderJobStatus::Running => "running",
        RenderJobStatus::Completed => "completed",
        RenderJobStatus::Failed => "failed",
        RenderJobStatus::Cancelled => "cancelled",
    }
}

/// The status that a text stands for.
pub open spec fn status_named(t: Seq<char>) -> Option<RenderJobStatus> {
    if t == "queued"@ {
        Some(RenderJobStatus::Queued)
    } else if t == "running"@ {
        Some(RenderJobStatus::Running)
    } else if t == "completed"@ {
        Some(RenderJobStatus::Completed)
    } else if t == "failed"@ {
        Some(RenderJobStatus::Failed)
    } else if t == "cancelled"@ {
        Some(RenderJobStatus::Cancelled)
    } else {
        None
    }
}

/// The status that a text stands for.
pub fn status_from_str(t: &str) -> (r: Option<RenderJobStatus>)
    ensures
        r == status_named(t@),
{
    if text::same_text(t, "queued") {
        Some(RenderJobStatus::Queued)
    } else if text::same_text(t, "running") {
        Some(RenderJobStatus::Running)
    } else if text::same_text(t, "completed") {
        Some(RenderJobStatus::Completed)
    } else if text::same_text(t, "failed") {
        Some(RenderJobStatus::Failed)
    } else if text::same_text(t, "cancelled") {
        Some(RenderJobStatus::Cancelled)
    } else {
        None
    }
}

/// Numbers parted by commas.
pub open spec fn comma_list(numbers: Seq<u32>) -> Seq<char>
    decreases numbers.len(),
{
    if numbers.len() == 0 {
        Seq::empty()
    } else if numbers.len() == 1 {
        text::decimal(numbers[0] as nat)
    } else {
        comma_list(numbers.drop_last()) + seq![','] + text::decimal(numbers.last() as nat)
    }
}

/// A list of numbers as JSON.
pub open spec fn json_list(numbers: Seq<u32>) -> Seq<char> {
    seq!['['] + comma_list(numbers) + seq![']']
}

/// A list of numbers as JSON, from `serde_json::to_string`: the numbers in decimal,
/// parted by commas without blanks, in square brackets. Writing numbers to a
/// `String` does not fail.
#[verifier::external_body]
fn json_of_numbers(numbers: &Vec<u32>) -> (r: String)
    ensures
        r@ == json_list(numbers@),
{
    serde_json::to_string(numbers).unwrap()
}

/// The times of a job lie in the years that the calendar covers.
pub open spec fn times_valid(job: RenderJob) -> bool {
    &&& job.created_at.valid()
    &&& job.started_at matches Some(t) ==> t.valid()
    &&& job.completed_at matches Some(t) ==> t.valid()
}

/// The text form of a time that may be absent.
pub open spec fn time_column(t: Option<Timestamp>) -> Option<Seq<char>> {
    match t {
        Some(at) => Some(clock::rfc3339_text(at)),
        None => None,
    }
}

/// The columns of a job.
pub open spec fn row_of(job: RenderJob, payload: Seq<char>) -> JobRowView {
    JobRowView {
        id: job.id@,
        status: status_text(job.status),
        priority: job.priority,
        progress: job.progress,
        batch_id: text::text_if_any(job.batch_id),
        camera_id: text::text_if_any(job.camera_id),
        output_path: text::text_if_any(job.output_path),
        error: text::text_if_any(job.error),
        created_at: clock::rfc3339_text(job.created_at),
        started_at: time_column(job.started_at),
        completed_at: time_column(job.completed_at),
        completed_frames: json_list(job.completed_frames@),
        payload,
    }
}

fn time_text(t: Option<Timestamp>) -> (r: Option<String>)
    requires
        t matches Some(at) ==> at.valid(),
    ensures
        text::text_if_any(r) == time_column(t),
{
    match t {
        Some(at) => Some(clock::rfc3339(at)),
        None => None,
    }
}

/// Whether the times of a job lie in the years that the calendar covers.
pub fn has_valid_times(job: &RenderJob) -> (r: bool)
    ensures
        r == times_valid(*job),
{
    let started: bool = match job.started_at {
        Some(t) => t.is_valid(),
        None => true,
    };
    let completed: bool = match job.completed_at {
        Some(t) => t.is_valid(),
        None => true,
    };
    job.created_at.is_valid() && started && completed
}

impl JobRow {
    /// The columns of a job, beside the job as JSON.
    pub fn from_job(job: &RenderJob, payload: String) -> (r: JobRow)
        requires
            times_valid(*job),
        ensures
            r@ == row_of(*job, payload@),
    {
        JobRow {
            id: job.id.clone(),
            status: status_to_str(job.status).to_owned(),
            priority: job.priority,
            progress: job.progress,
            batch_id: text::copy_if_any(&job.batch_id),
            camera_id: text::copy_if_any(&job.camera_id),
            output_path: text::copy_if_any(&job.output_path),
            error: text::copy_if_any(&job.error),
            created_at: clock::rfc3339(job.created_at),
            started_at: time_text(job.started_at),
            completed_at: time_text(job.completed_at),
            completed_frames: json_of_numbers(&job.completed_frames),
            payload,
        }
    }
}

/// `n` question marks parted by commas.
pub open spec fn question_marks(n: nat) -> Seq<char>
    decreases n,
{
    if n == 0 {
        Seq::empty()
    } else if n == 1 {
        seq!['?']
    } else {
        question_marks((n - 1) as nat) + seq![',', '?']
    }
}

/// The query for the jobs in any of `n` statuses, those of high priority first and
/// of one priority the oldest first.
pub open spec fn status_query(n: nat) -> Seq<char> {
    "SELECT payload FROM render_jobs WHERE status IN ("@ + question_marks(n)
        + ") ORDER BY priority DESC, created_at ASC"@
}

/// The query for the jobs in any of `count` statuses.
pub fn list_by_status_sql(count: usize) -> (r: String)
    ensures
        r@ == status_query(count as nat),
{
    let mut marks: String = String::new();
    let mut i: usize = 0;
    while i < count
        invariant
            i <= count,
            marks@ == question_marks(i as nat),
        decreases count - i,
    {
        let ghost before = marks@;
        if i > 0 {
            marks.push(',');
        }
        marks.push('?');
        i = i + 1;
        proof {
            if i == 1 {
                assert(marks@ =~= seq!['?']);
            } else {
                assert(marks@ =~= before + seq![',', '?']);
            }
        }
    }
    let mut out: String = "SELECT payload FROM render_jobs WHERE status IN (".to_owned();
    out.append(marks.as_str());
    out.append(") ORDER BY priority DESC, created_at ASC");
    out
}

/// A job that was running when the process ended, made ready to run again. Its
/// progress and written frames serve the next run; what told of the broken run is
/// cleared.
pub open spec fn reincarnated(job: RenderJob) -> RenderJob {
    RenderJob {
        status: RenderJobStatus::Queued,
        started_at: None,
        error: None,
        completed_at: None,
        ..job
    }
}

/// A job that was running when the process ended, made ready to run again.
pub fn reincarnate(job: RenderJob) -> (r: RenderJob)
    ensures
        r == reincarnated(job),
{
    let mut job = job;
    job.status = RenderJobStatus::Queued;
    job.started_at = None;
    job.error = None;
    job.completed_at = None;
    job
}

/// A job as the start of a process finds it fit: one that was running is made ready to
/// run again, and others stay as they are.
pub open spec fn after_restart(job: RenderJob) -> RenderJob {
    if job.status == RenderJobStatus::Running {
        reincarnated(job)
    } else {
        job
    }
}

/// Every job as the start of a process finds it fit.
pub open spec fn all_after_restart(jobs: Seq<RenderJob>) -> Seq<RenderJob> {
    jobs.map_values(|j: RenderJob| after_restart(j))
}

/// How many jobs are running.
pub open spec fn running_count(jobs: Seq<RenderJob>) -> nat {
    jobs.filter(|j: RenderJob| j.status == RenderJobStatus::Running).len()
}

/// Makes every job that was running ready to run again, and tells how many there were.
pub fn reincarnate_running_as_queued(jobs: &mut Vec<RenderJob>) -> (r: usize)
    ensures
        final(jobs)@ == all_after_restart(old(jobs)@),
        r == running_count(old(jobs)@),
{
    let ghost given = jobs@;
    let ghost is_running = |j: RenderJob| j.status == RenderJobStatus::Running;
    let mut count: usize = 0;
    let mut i: usize = 0;
    proof {
        reveal(Seq::filter);
        assert(given.take(0) =~= Seq::empty());
    }
    while i < jobs.len()
        invariant
            i <= jobs@.len(),
            jobs@.len() == given.len(),
            forall|k: int| 0 <= k < i ==> #[trigger] jobs@[k] == after_restart(given[k]),
            forall|k: int| i <= k < given.len() ==> #[trigger] jobs@[k] == given[k],
            is_running == (|j: RenderJob| j.status == RenderJobStatus::Running),
            count == given.take(i as int).filter(is_running).len(),
            count <= i,
        decreases jobs@.len() - i,
    {
        proof {
            assert(jobs@[i as int] == given[i as int]);
            assert(given.take(i + 1).drop_last() =~= given.take(i as int));
            reveal(Seq::filter);
        }
        if let RenderJobStatus::Running = jobs[i].status {
            count = count + 1;
            let job: &mut RenderJob = &mut jobs[i];
            job.status = RenderJobStatus::Queued;
            job.started_at = None;
            job.error = None;
            job.completed_at = None;
        }
        i = i + 1;
    }
    proof {
        assert(given.take(i as int) =~= given);
        assert(jobs@ =~= all_after_restart(given));
    }
    count
}

/// After a restart no job is running, a second one changes nothing, and a job that was
/// not running is as it was.
pub proof fn restarting_settles_after_once(jobs: Seq<RenderJob>)
    ensures
        running_count(all_after_restart(jobs)) == 0,
        all_after_restart(all_after_restart(jobs)) == all_after_restart(jobs),
        forall|i: int|
            0 <= i < jobs.len() && jobs[i].status != RenderJobStatus::Running
                ==> #[trigger] all_after_restart(jobs)[i] == jobs[i],
        running_count(jobs) == 0 ==> all_after_restart(jobs) == jobs,
{
    let once = all_after_restart(jobs);
    let is_running = |j: RenderJob| j.status == RenderJobStatus::Running;
    assert(all_after_restart(once) =~= once);
    assert forall|i: int| 0 <= i < once.len() implies !is_running(#[trigger] once[i]) by {
        assert(once[i] == after_restart(jobs[i]));
    }
    assert(once.all(|j: RenderJob| !is_running(j)));
    once.lemma_all_neg_filter_empty(is_running);
    if running_count(jobs) == 0 {
        assert forall|i: int| 0 <= i < jobs.len() implies #[trigger] once[i] == jobs[i] by {
            if jobs[i].status == RenderJobStatus::Running {
                jobs.lemma_filter_contains(is_running, i);
                assert(jobs.filter(is_running).contains(jobs[i]));
            }
        }
        assert(once =~= jobs);
    }
}

/// Jobs in each status.
#[derive(Clone, Copy, Debug, PartialEq, Eq, Structural)]
pub struct JobStatusCounts {
    pub queued: usize,
    pub running: usize,
    pub completed: usize,
    pub failed: usize,
    pub cancelled: usize,
}

impl Default for JobStatusCounts {
    fn default() -> (r: JobStatusCounts)
        ensures
            r == no_counts(),
    {
        JobStatusCounts { queued: 0, running: 0, completed: 0, failed: 0, cancelled: 0 }
    }
}

pub open spec fn no_counts() -> JobStatusCounts {
    JobStatusCounts { queued: 0, running: 0, completed: 0, failed: 0, cancelled: 0 }
}

impl JobStatusCounts {
    /// The counts with one of them set.
    pub open spec fn with(self, status: RenderJobStatus, n: usize) -> JobStatusCounts {
        match status {
            RenderJobStatus::Queued => JobStatusCounts { queued: n, ..self },
            RenderJobStatus::Running => JobStatusCounts { running: n, ..self },
            RenderJobStatus::Completed => JobStatusCounts { completed: n, ..self },
            RenderJobStatus::Failed => JobStatusCounts { failed: n, ..self },
            RenderJobStatus::Cancelled => JobStatusCounts { cancelled: n, ..self },
        }
    }

    pub fn total(&self) -> (r: usize)
        requires
            self.queued + self.running + self.completed + self.failed + self.cancelled
                <= usize::MAX,
        ensures
            r == self.queued + self.running + self.completed + self.failed + self.cancelled,
    {
        self.queued + self.running + self.completed + self.failed + self.cancelled
    }

    /// Takes in one line of a count by status; an unknown status is passed over.
    pub fn note(&mut self, status: &str, n: usize)
        ensures
            *final(self) == match status_named(status@) {
                Some(s) => old(self).with(s, n),
                None => *old(self),
            },
    {
        match status_from_str(status) {
            Some(RenderJobStatus::Queued) => {
                self.queued = n;
            },
            Some(RenderJobStatus::Running) => {
                self.running = n;
            },
            Some(RenderJobStatus::Completed) => {
                self.completed = n;
            },
            Some(RenderJobStatus::Failed) => {
                self.failed = n;
            },
            Some(RenderJobStatus::Cancelled) => {
                self.cancelled = n;
            },
            None => {},
        }
    }
}

/// The queue with a stored job put back where its status says.
pub open spec fn put_back(q: QueueView, job: RenderJob) -> QueueView {
    match job.status {
        RenderJobStatus::Queued => queue::enqueued(q, job),
        RenderJobStatus::Running => QueueView { running: q.running.push(job), ..q },
        _ => QueueView { completed: q.completed.push(job), ..q },
    }
}

/// The queue that stored jobs make, put back one after the other.
pub open spec fn rebuilt(jobs: Seq<RenderJob>) -> QueueView
    decreases jobs.len(),
{
    if jobs.len() == 0 {
        QueueView { queued: Seq::empty(), running: Seq::empty(), completed: Seq::empty() }
    } else {
        put_back(rebuilt(jobs.drop_last()), jobs.last())
    }
}

/// The queue that stored jobs make.
pub fn load_queue(jobs: Vec<RenderJob>) -> (r: RenderQueue)
    ensures
        r@.wf(),
        r@ == rebuilt(jobs@),
{
    let ghost given = jobs@;
    let mut rest: Vec<RenderJob> = jobs;
    let n: usize = rest.len();
    let mut q: RenderQueue = RenderQueue::new();
    let mut i: usize = 0;
    proof {
        assert(q@.all().len() == q@.queued.len() + q@.running.len() + q@.completed.len());
        assert(q@.queued =~= Seq::empty());
        assert(q@.running =~= Seq::empty());
        assert(q@.completed =~= Seq::empty());
        assert(given.take(0) =~= Seq::empty());
        assert(given.skip(0) =~= given);
    }
    while i < n
        invariant
            i <= n,
            n == given.len(),
            rest@ == given.skip(i as int),
            q@.wf(),
            q@ == rebuilt(given.take(i as int)),
        decreases n - i,
    {
        let job: RenderJob = rest.remove(0);
        proof {
            assert(given.take(i + 1).drop_last() =~= given.take(i as int));
            assert(given.take(i + 1).last() == job);
            assert(rest@ =~= given.skip(i + 1));
        }
        match job.status {
            RenderJobStatus::Queued => q.restore_queued(job),
            RenderJobStatus::Running => q.restore_running(job),
            RenderJobStatus::Completed => q.restore_completed(job),
            RenderJobStatus::Failed => q.restore_completed(job),
            RenderJobStatus::Cancelled => q.restore_completed(job),
        }
        i = i + 1;
    }
    proof {
        assert(given.take(n as int) =~= given);
    }
    q
}

/// A status is told back from its text.
pub proof fn status_text_reads_back(s: RenderJobStatus)
    ensures
        status_named(status_text(s)) == Some(s),
{
    reveal_strlit("queued");
    reveal_strlit("running");
    reveal_strlit("completed");
    reveal_strlit("failed");
    reveal_strlit("cancelled");
    assert("completed"@[1] != "cancelled"@[1]);
    assert("queued"@[0] != "failed"@[0]);
}

/// A job made ready to run again is what a waiting job is: nothing tells of the
/// broken run, and it goes on at the frame the broken run would have gone on at.
pub proof fn reincarnation_keeps_what_serves_the_next_run(job: RenderJob)
    ensures
        reincarnated(job).status == RenderJobStatus::Queued,
        reincarnated(job).error is None,
        reincarnated(job).completed_at is None,
        reincarnated(job).started_at is None,
        reincarnated(job).id == job.id,
        reincarnated(job).created_at == job.created_at,
        reincarnated(job).priority == job.priority,
        reincarnated(job).progress == job.progress,
        reincarnated(job).completed_frames == job.completed_frames,
{
}

proof fn rebuilt_from_parts(
    queued: Seq<RenderJob>,
    running: Seq<RenderJob>,
    completed: Seq<RenderJob>,
)
    requires
        (QueueView { queued, running, completed }).wf(),
    ensures
        rebuilt(queued + running + completed) == (QueueView { queued, running, completed }),
    decreases queued.len() + running.len() + completed.len(),
{
    let all = queued + running + completed;
    let q = QueueView { queued, running, completed };
    if completed.len() > 0 {
        let job = completed.last();
        assert(job == completed[completed.len() - 1]);
        assert(all.drop_last() =~= queued + running + completed.drop_last());
        let less = QueueView { queued, running, completed: completed.drop_last() };
        assert(less.wf()) by {
            assert forall|i: int| 0 <= i < less.completed.len() implies job::terminal(
                (#[trigger] less.completed[i]).status,
            ) by {
                assert(less.completed[i] == completed[i]);
            }
        }
        rebuilt_from_parts(queued, running, completed.drop_last());
        assert(completed.drop_last().push(job) =~= completed);
    } else if running.len() > 0 {
        let job = running.last();
        assert(job == running[running.len() - 1]);
        assert(all.drop_last() =~= queued + running.drop_last() + completed);
        let less = QueueView { queued, running: running.drop_last(), completed };
        assert(less.wf()) by {
            assert forall|i: int| 0 <= i < less.running.len() implies (
            #[trigger] less.running[i]).status == RenderJobStatus::Running by {
                assert(less.running[i] == running[i]);
            }
        }
        rebuilt_from_parts(queued, running.drop_last(), completed);
        assert(running.drop_last().push(job) =~= running);
        assert(all.last() == job);
    } else if queued.len() > 0 {
        let job = queued.last();
        let front = queued.drop_last();
        assert(job == queued[queued.len() - 1]);
        assert(all.drop_last() =~= front + running + completed);
        assert(all.last() == job);
        let less = QueueView { queued: front, running, completed };
        assert(less.wf()) by {
            assert forall|i: int, j: int| 0 <= i < j < front.len() implies !(
            #[trigger] crate::order::Ranked::ahead(front[j], front[i])) by {
                assert(!crate::order::Ranked::ahead(queued[j], queued[i]));
            }
            assert forall|i: int| 0 <= i < front.len() implies (#[trigger] front[i]).status
                == RenderJobStatus::Queued by {
                assert(front[i] == queued[i]);
            }
        }
        rebuilt_from_parts(front, running, completed);
        crate::order::place_is_first(front, job);
        let at = crate::order::place_for(front, job);
        if at < front.len() {
            assert(!crate::order::Ranked::ahead(queued[queued.len() - 1], queued[at]));
        }
        assert(front.insert(at, job) =~= queued);
    } else {
        assert(all =~= Seq::empty());
        assert(queued =~= Seq::empty());
        assert(running =~= Seq::empty());
        assert(completed =~= Seq::empty());
    }
}

/// A queue that is stored job by job, as it lists them, comes back as it was.
pub proof fn stored_queue_comes_back(q: QueueView)
    requires
        q.wf(),
    ensures
        rebuilt(q.all()) == q,
{
    rebuilt_from_parts(q.queued, q.running, q.completed);
}

/// The columns of a job tell of the job: its status by the word that reads back to it, its
/// times in text, and all else as the job has it.
pub proof fn columns_tell_of_the_job(job: RenderJob, payload: Seq<char>)
    ensures
        ({
            let r = row_of(job, payload);
            &&& r.id == job.id@
            &&& status_named(r.status) == Some(job.status)
            &&& r.priority == job.priority
            &&& r.progress == job.progress
            &&& r.batch_id == text::text_if_any(job.batch_id)
            &&& r.camera_id == text::text_if_any(job.camera_id)
            &&& r.output_path == text::text_if_any(job.output_path)
            &&& r.error == text::text_if_any(job.error)
            &&& r.created_at == clock::rfc3339_text(job.created_at)
            &&& job.started_at matches Some(t) ==> r.started_at == Some(clock::rfc3339_text(t))
            &&& job.started_at is None ==> r.started_at is None
            &&& job.completed_at matches Some(t) ==> r.completed_at == Some(
                clock::rfc3339_text(t),
            )
            &&& job.completed_at is None ==> r.completed_at is None
            &&& r.completed_frames == json_list(job.completed_frames@)
            &&& r.payload == payload
        }),
{
    status_text_reads_back(job.status);
}

/// A query for some statuses has a question mark for each, with a comma between two.
pub proof fn each_status_has_a_question_mark(n: nat, i: int)
    requires
        0 < n,
        0 <= i < 2 * n - 1,
    ensures
        question_marks(n).len() == 2 * n - 1,
        question_marks(n)[i] == if i % 2 == 0 {
            '?'
        } else {
            ','
        },
        question_marks(0).len() == 0,
    decreases n,
{
    if n > 1 {
        each_status_has_a_question_mark((n - 1) as nat, 0);
        if i < 2 * n - 3 {
            each_status_has_a_question_mark((n - 1) as nat, i);
        }
    }
}

/// A count by status sets its own number and leaves the others.
pub proof fn counts_are_kept_apart(c: JobStatusCounts, n: usize)
    ensures
        ({
            let q = c.with(RenderJobStatus::Queued, n);
            let r = c.with(RenderJobStatus::Running, n);
            let d = c.with(RenderJobStatus::Completed, n);
            let f = c.with(RenderJobStatus::Failed, n);
            let x = c.with(RenderJobStatus::Cancelled, n);
            &&& q.queued == n && q.running == c.running && q.completed == c.completed && q.failed
                == c.failed && q.cancelled == c.cancelled
            &&& r.running == n && r.queued == c.queued && r.completed == c.completed && r.failed
                == c.failed && r.cancelled == c.cancelled
            &&& d.completed == n && d.queued == c.queued && d.running == c.running && d.failed
                == c.failed && d.cancelled == c.cancelled
            &&& f.failed == n && f.queued == c.queued && f.running == c.running && f.completed
                == c.completed && f.cancelled == c.cancelled
            &&& x.cancelled == n && x.queued == c.queued && x.running == c.running && x.completed
                == c.completed && x.failed == c.failed
        }),
{
}

/// A list of numbers is written number by number: the list of none is a pair of brackets,
/// and one more number comes behind a comma.
pub proof fn lists_are_written_number_by_number(numbers: Seq<u32>, n: u32)
    ensures
        json_list(Seq::<u32>::empty()) == seq!['[', ']'],
        json_list(seq![n]) == seq!['['] + text::decimal(n as nat) + seq![']'],
        numbers.len() > 0 ==> json_list(numbers.push(n)) == json_list(numbers).drop_last()
            + seq![','] + text::decimal(n as nat) + seq![']'],
{
    assert(json_list(Seq::<u32>::empty()) =~= seq!['[', ']']);
    assert(comma_list(seq![n]) == text::decimal(n as nat));
    if numbers.len() > 0 {
        assert(numbers.push(n).drop_last() =~= numbers);
        assert(json_list(numbers).drop_last() =~= seq!['['] + comma_list(numbers));
        assert(json_list(numbers.push(n)) =~= json_list(numbers).drop_last() + seq![',']
            + text::decimal(n as nat) + seq![']']);
    }
}

} // verus!
