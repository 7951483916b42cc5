//! The render history: one entry for every completed render of a project.
use vstd::prelude::*;

use crate::cameras::CameraSnapshot;
use crate::clock;
use crate::clock::Timestamp;
use crate::geometry::Vec3;
use crate::job::{RenderJob, RenderJobStatus};
use crate::order;
use crate::order::Ranked;
use crate::preset;
use crate::text;

verus! {

#[derive(Debug, PartialEq)]
pub enum HistoryError {
    /// The stored history cannot be read.
    Corrupt(String),
    /// Only completed jobs are recorded.
    NotCompleted(String),
    UnknownEntry(String),
}

impl HistoryError {
    /// What the error says.
    pub open spec fn wording(self) -> Seq<char> {
        match self {
            HistoryError::Corrupt(why) => "history file is corrupt: "@ + why@,
            HistoryError::NotCompleted(id) => "job `"@ + id@
                + "` is not completed; only completed jobs may be recorded"@,
            HistoryError::UnknownEntry(id) => "unknown entry `"@ + id@ + "`"@,
        }
    }

    /// What the error says.
    pub fn message(&self) -> (r: String)
        ensures
            r@ == self.wording(),
    {
        match self {
            HistoryError::Corrupt(why) => text::prefixed(
                "history file is corrupt: ",
                why.as_str(),
            ),
            HistoryError::NotCompleted(id) => {
                let mut out: String = text::prefixed("job `", id.as_str());
                out.append("` is not completed; only completed jobs may be recorded");
                out
            },
            HistoryError::UnknownEntry(id) => {
                let mut out: String = text::prefixed("unknown entry `", id.as_str());
                out.append("`");
                out
            },
        }
    }
}

/// One completed render: what shows it again, and what compares it to another.
#[derive(Debug, PartialEq)]
pub struct RenderHistoryEntry {
    pub job_id: String,
    pub preset_id: String,
    pub camera: Option<CameraSnapshot>,
    pub created_at: Timestamp,
    pub completed_at: Timestamp,
    pub output_path: String,
    /// Hash of the image file, when computed.
    pub image_hash: Option<String>,
    /// Hash of a thumbnail, when one was made.
    pub thumbnail_hash: Option<String>,
    /// The batch of the job.
    pub batch_id: Option<String>,
}

fn copy_camera(camera: &Option<CameraSnapshot>) -> (r: Option<CameraSnapshot>)
    ensures
        r == *camera,
{
    match camera {
        Some(c) => Some(c.clone()),
        None => None,
    }
}

impl Clone for RenderHistoryEntry {
    fn clone(&self) -> (r: RenderHistoryEntry)
        ensures
            r == *self,
    {
        RenderHistoryEntry {
            job_id: self.job_id.clone(),
            preset_id: self.preset_id.clone(),
            camera: copy_camera(&self.camera),
            created_at: self.created_at,
            completed_at: self.completed_at,
            output_path: self.output_path.clone(),
            image_hash: text::copy_if_any(&self.image_hash),
            thumbnail_hash: text::copy_if_any(&self.thumbnail_hash),
            batch_id: text::copy_if_any(&self.batch_id),
        }
    }
}

/// Where the image of a job goes when the job does not say.
pub open spec fn default_output(id: Seq<char>) -> Seq<char> {
    "renders/"@ + id + ".png"@
}

/// Whether an entry records a job that ended at `now` at the latest.
pub open spec fn records(e: RenderHistoryEntry, job: RenderJob, now: Timestamp) -> bool {
    &&& e.job_id == job.id
    &&& e.preset_id == job.preset.id
    &&& e.camera is None
    &&& e.created_at == job.created_at
    &&& e.completed_at == match job.completed_at {
        Some(at) => at,
        None => now,
    }
    &&& e.output_path@ == match job.output_path {
        Some(path) => path@,
        None => default_output(job.id@),
    }
    &&& e.image_hash is None
    &&& e.thumbnail_hash is None
    &&& e.batch_id == job.batch_id
}

/// Nanoseconds from one time to another, none where the clock went backwards or
/// the span does not fit.
pub open spec fn span(from: Timestamp, to: Timestamp) -> int {
    let n = to.instant() - from.instant();
    if 0 < n <= i64::MAX {
        n
    } else {
        0
    }
}

impl RenderHistoryEntry {
    /// The entry for a completed job; a job without an end ended now.
    pub fn from_job(job: &RenderJob) -> (r: Result<RenderHistoryEntry, HistoryError>)
        ensures
            r is Ok <==> job.status == RenderJobStatus::Completed,
            r is Ok ==> job.completed_at is Some ==> records(r->Ok_0, *job, job.completed_at->0),
            r is Ok ==> records(r->Ok_0, *job, r->Ok_0.completed_at),
            r is Ok && job.completed_at is None ==> r->Ok_0.completed_at.valid(),
            r is Err ==> r->Err_0 == HistoryError::NotCompleted(job.id),
    {
        RenderHistoryEntry::from_job_at(job, clock::utc_now())
    }

    /// The entry for a completed job; a job without an end ended at `now`.
    pub fn from_job_at(job: &RenderJob, now: Timestamp) -> (r: Result<
        RenderHistoryEntry,
        HistoryError,
    >)
        ensures
            r is Ok <==> job.status == RenderJobStatus::Completed,
            r is Ok ==> records(r->Ok_0, *job, now),
            r is Err ==> r->Err_0 == HistoryError::NotCompleted(job.id),
    {
        if job.status != RenderJobStatus::Completed {
            return Err(HistoryError::NotCompleted(job.id.clone()));
        }
        let output_path: String = match &job.output_path {
            Some(path) => path.clone(),
            None => {
                let mut path: String = text::prefixed("renders/", job.id.as_str());
                path.append(".png");
                path
            },
        };
        let completed_at: Timestamp = match job.completed_at {
            Some(at) => at,
            None => now,
        };
        Ok(
            RenderHistoryEntry {
                job_id: job.id.clone(),
                preset_id: job.preset.id.clone(),
                camera: None,
                created_at: job.created_at,
                completed_at,
                output_path,
                image_hash: None,
                thumbnail_hash: None,
                batch_id: text::copy_if_any(&job.batch_id),
            },
        )
    }

    pub fn with_camera(self, camera: CameraSnapshot) -> (r: RenderHistoryEntry)
        ensures
            r == (RenderHistoryEntry { camera: Some(camera), ..self }),
    {
        let mut entry = self;
        entry.camera = Some(camera);
        entry
    }

    pub fn with_image_hash(self, hash: String) -> (r: RenderHistoryEntry)
        ensures
            r == (RenderHistoryEntry { image_hash: Some(hash), ..self }),
    {
        let mut entry = self;
        entry.image_hash = Some(hash);
        entry
    }

    pub fn with_thumbnail_hash(self, hash: String) -> (r: RenderHistoryEntry)
        ensures
            r == (RenderHistoryEntry { thumbnail_hash: Some(hash), ..self }),
    {
        let mut entry = self;
        entry.thumbnail_hash = Some(hash);
        entry
    }

    /// A stored entry under the short preset id, which stored entries may not have.
    pub fn with_short_preset_id(self) -> (r: RenderHistoryEntry)
        ensures
            r.preset_id@ == preset::migrated(self.preset_id@),
            r == (RenderHistoryEntry { preset_id: r.preset_id, ..self }),
    {
        let mut entry = self;
        let short: String = preset::migrate_legacy_preset_id(entry.preset_id.as_str()).to_owned();
        entry.preset_id = short;
        entry
    }

    /// How long the render took, in nanoseconds.
    pub fn render_duration(&self) -> (r: u64)
        ensures
            r == span(self.created_at, self.completed_at),
    {
        match self.completed_at.nanos_since(self.created_at) {
            Some(n) => if n > 0 {
                n as u64
            } else {
                0
            },
            None => 0,
        }
    }
}

/// Whether one time is after another.
pub open spec fn later(a: Timestamp, b: Timestamp) -> bool {
    a.secs > b.secs || (a.secs == b.secs && a.nanos > b.nanos)
}

/// The entry that was completed later goes first.
impl Ranked for RenderHistoryEntry {
    open spec fn ahead(self, other: RenderHistoryEntry) -> bool {
        later(self.completed_at, other.completed_at)
    }

    proof fn ahead_is_asymmetric(a: RenderHistoryEntry, b: RenderHistoryEntry) {
    }

    proof fn ties_are_transitive(
        a: RenderHistoryEntry,
        b: RenderHistoryEntry,
        c: RenderHistoryEntry,
    ) {
    }

    fn is_ahead(&self, other: &RenderHistoryEntry) -> (r: bool) {
        let a: Timestamp = self.completed_at;
        let b: Timestamp = other.completed_at;
        a.secs > b.secs || (a.secs == b.secs && a.nanos > b.nanos)
    }
}

/// The entries of a project, in the order in which they were recorded.
#[derive(Debug, PartialEq)]
pub struct RenderHistory {
    pub entries: Vec<RenderHistoryEntry>,
}

/// Place of the first entry for a job, or the number of entries.
pub open spec fn place_of(entries: Seq<RenderHistoryEntry>, id: Seq<char>) -> int
    decreases entries.len(),
{
    if entries.len() == 0 {
        0
    } else if entries[0].job_id@ == id {
        0
    } else {
        1 + place_of(entries.drop_first(), id)
    }
}

proof fn place_is_first(entries: Seq<RenderHistoryEntry>, id: Seq<char>, at: int)
    requires
        0 <= at <= entries.len(),
        forall|i: int| 0 <= i < at ==> (#[trigger] entries[i]).job_id@ != id,
        at < entries.len() ==> entries[at].job_id@ == id,
    ensures
        place_of(entries, id) == at,
    decreases entries.len(),
{
    if entries.len() > 0 && entries[0].job_id@ != id {
        let rest = entries.drop_first();
        assert forall|i: int| 0 <= i < at - 1 implies (#[trigger] rest[i]).job_id@ != id by {
            assert(rest[i] == entries[i + 1]);
        }
        place_is_first(rest, id, at - 1);
    }
}

impl Default for RenderHistory {
    fn default() -> (r: RenderHistory)
        ensures
            r.entries@ == Seq::<RenderHistoryEntry>::empty(),
    {
        RenderHistory { entries: Vec::new() }
    }
}

/// What a job, a camera and a hash leave in the history.
pub open spec fn completed_entry(
    e: RenderHistoryEntry,
    job: RenderJob,
    camera: Option<CameraSnapshot>,
    image_hash: Option<String>,
    now: Timestamp,
) -> bool {
    &&& records(
        RenderHistoryEntry { camera: None, image_hash: None, ..e },
        job,
        now,
    )
    &&& e.camera == camera
    &&& e.image_hash == image_hash
}

impl RenderHistory {
    pub fn new() -> (r: RenderHistory)
        ensures
            r.entries@ == Seq::<RenderHistoryEntry>::empty(),
    {
        RenderHistory::default()
    }

    /// Appends an entry.
    pub fn record(&mut self, entry: RenderHistoryEntry)
        ensures
            final(self).entries@ == old(self).entries@.push(entry),
    {
        self.entries.push(entry);
    }

    /// Appends the entry for a completed job; a job without an end ended now.
    pub fn record_job(
        &mut self,
        job: &RenderJob,
        camera: Option<CameraSnapshot>,
        image_hash: Option<String>,
    ) -> (r: Result<&RenderHistoryEntry, HistoryError>)
        ensures
            r is Ok <==> job.status == RenderJobStatus::Completed,
            r is Ok ==> completed_entry(*r->Ok_0, *job, camera, image_hash, r->Ok_0.completed_at),
            r is Ok && job.completed_at is Some ==> r->Ok_0.completed_at == job.completed_at->0,
            r is Ok && job.completed_at is None ==> r->Ok_0.completed_at.valid(),
            r is Ok ==> final(self).entries@ == old(self).entries@.push(*r->Ok_0),
            r is Err ==> r->Err_0 == HistoryError::NotCompleted(job.id),
            r is Err ==> *final(self) == *old(self),
    {
        self.record_job_at(job, camera, image_hash, clock::utc_now())
    }

    /// Appends the entry for a completed job; a job without an end ended at `now`.
    pub fn record_job_at(
        &mut self,
        job: &RenderJob,
        camera: Option<CameraSnapshot>,
        image_hash: Option<String>,
        now: Timestamp,
    ) -> (r: Result<&RenderHistoryEntry, HistoryError>)
        ensures
            r is Ok <==> job.status == RenderJobStatus::Completed,
            r is Ok ==> completed_entry(*r->Ok_0, *job, camera, image_hash, now),
            r is Ok ==> final(self).entries@ == old(self).entries@.push(*r->Ok_0),
            r is Err ==> r->Err_0 == HistoryError::NotCompleted(job.id),
            r is Err ==> *final(self) == *old(self),
    {
        match RenderHistoryEntry::from_job_at(job, now) {
            Ok(bare) => {
                let shown: RenderHistoryEntry = match camera {
                    Some(c) => bare.with_camera(c),
                    None => bare,
                };
                let entry: RenderHistoryEntry = match image_hash {
                    Some(h) => shown.with_image_hash(h),
                    None => shown,
                };
                proof {
                    assert((RenderHistoryEntry { camera: None, image_hash: None, ..entry })
                        == bare);
                }
                self.entries.push(entry);
                Ok(&self.entries[self.entries.len() - 1])
            },
            Err(e) => Err(e),
        }
    }

    pub fn len(&self) -> (r: usize)
        ensures
            r == self.entries@.len(),
    {
        self.entries.len()
    }

    pub fn is_empty(&self) -> (r: bool)
        ensures
            r == (self.entries@.len() == 0),
    {
        self.entries.len() == 0
    }

    /// The first entry for a job.
    pub fn get(&self, job_id: &str) -> (r: Option<&RenderHistoryEntry>)
        ensures
            r is Some <==> place_of(self.entries@, job_id@) < self.entries@.len(),
            r matches Some(e) ==> *e == self.entries@[place_of(self.entries@, job_id@)],
    {
        let mut i: usize = 0;
        while i < self.entries.len()
            invariant
                i <= self.entries@.len(),
                forall|j: int| 0 <= j < i ==> (#[trigger] self.entries@[j]).job_id@ != job_id@,
            decreases self.entries@.len() - i,
        {
            if text::same_text(self.entries[i].job_id.as_str(), job_id) {
                proof {
                    place_is_first(self.entries@, job_id@, i as int);
                }
                return Some(&self.entries[i]);
            }
            i = i + 1;
        }
        proof {
            place_is_first(self.entries@, job_id@, i as int);
        }
        None
    }

    /// The entries by completion, newest first.
    pub fn by_recency(&self) -> (r: Vec<RenderHistoryEntry>)
        ensures
            r@ == order::ordered(self.entries@),
    {
        let copies: Vec<RenderHistoryEntry> = self.entries.clone();
        proof {
            assert(copies@ =~= self.entries@);
        }
        order::sort_stable(copies)
    }
}

/// One difference between two renders, in words.
#[derive(Debug, PartialEq)]
pub struct FieldDiff {
    pub field: String,
    pub from: String,
    pub to: String,
}

/// What a difference says.
pub struct DiffView {
    pub field: Seq<char>,
    pub from: Seq<char>,
    pub to: Seq<char>,
}

impl View for FieldDiff {
    type V = DiffView;

    open spec fn view(&self) -> DiffView {
        DiffView { field: self.field@, from: self.from@, to: self.to@ }
    }
}

/// How two renders differ.
#[derive(Debug, PartialEq)]
pub struct CompareResult {
    pub a_job_id: String,
    pub b_job_id: String,
    pub preset_changed: bool,
    pub camera_changed: bool,
    pub image_hash_changed: bool,
    /// How many milliseconds longer the second render took.
    pub duration_delta_ms: i64,
    pub field_diffs: Vec<FieldDiff>,
}

/// Whether the coordinates of two points are equal numbers.
pub open spec fn same_vector(a: Vec3, b: Vec3) -> bool {
    a.x.same(b.x) && a.y.same(b.y) && a.z.same(b.z)
}

/// Whether two cameras are equal: their texts are, and their numbers are equal as
/// numbers, so that one with a field that is not a number differs from itself.
pub open spec fn same_camera(a: CameraSnapshot, b: CameraSnapshot) -> bool {
    &&& a.id.value@ == b.id.value@
    &&& a.name@ == b.name@
    &&& same_vector(a.position_mm, b.position_mm)
    &&& same_vector(a.target_mm, b.target_mm)
    &&& same_vector(a.up_mm, b.up_mm)
    &&& a.focal_length_mm.same(b.focal_length_mm)
    &&& a.sensor_width_mm.same(b.sensor_width_mm)
    &&& a.sensor_height_mm.same(b.sensor_height_mm)
    &&& a.exposure_ev.same(b.exposure_ev)
    &&& a.white_balance_k.same(b.white_balance_k)
    &&& a.aperture_f.same(b.aperture_f)
    &&& a.focus_distance_mm.same(b.focus_distance_mm)
    &&& a.aspect_ratio.same(b.aspect_ratio)
    &&& text::text_if_any(a.preset_key) == text::text_if_any(b.preset_key)
}

fn vectors_equal(a: Vec3, b: Vec3) -> (r: bool)
    ensures
        r == same_vector(a, b),
{
    a.x.equals(b.x) && a.y.equals(b.y) && a.z.equals(b.z)
}

fn texts_equal(a: &Option<String>, b: &Option<String>) -> (r: bool)
    ensures
        r == (text::text_if_any(*a) == text::text_if_any(*b)),
{
    match (a, b) {
        (Some(x), Some(y)) => text::same_text(x.as_str(), y.as_str()),
        (None, None) => true,
        _ => false,
    }
}

fn cameras_equal(a: &CameraSnapshot, b: &CameraSnapshot) -> (r: bool)
    ensures
        r == same_camera(*a, *b),
{
    text::same_text(a.id.as_str(), b.id.as_str()) && text::same_text(
        a.name.as_str(),
        b.name.as_str(),
    ) && vectors_equal(a.position_mm, b.position_mm) && vectors_equal(a.target_mm, b.target_mm)
        && vectors_equal(a.up_mm, b.up_mm) && a.focal_length_mm.equals(b.focal_length_mm)
        && a.sensor_width_mm.equals(b.sensor_width_mm) && a.sensor_height_mm.equals(
        b.sensor_height_mm,
    ) && a.exposure_ev.equals(b.exposure_ev) && a.white_balance_k.equals(b.white_balance_k)
        && a.aperture_f.equals(b.aperture_f) && a.focus_distance_mm.equals(b.focus_distance_mm)
        && a.aspect_ratio.equals(b.aspect_ratio) && texts_equal(&a.preset_key, &b.preset_key)
}

/// Whether the cameras of two entries differ.
pub open spec fn camera_differs(a: Option<CameraSnapshot>, b: Option<CameraSnapshot>) -> bool {
    match (a, b) {
        (Some(x), Some(y)) => !same_camera(x, y),
        (None, None) => false,
        _ => true,
    }
}

/// Name of a camera that may be absent.
pub open spec fn camera_name(c: Option<CameraSnapshot>) -> Seq<char> {
    match c {
        Some(camera) => camera.name@,
        None => "(none)"@,
    }
}

/// Text that may be absent.
pub open spec fn text_or_none(t: Option<String>) -> Seq<char> {
    match t {
        Some(s) => s@,
        None => "(none)"@,
    }
}

fn name_of(c: &Option<CameraSnapshot>) -> (r: String)
    ensures
        r@ == camera_name(*c),
{
    match c {
        Some(camera) => camera.name.clone(),
        None => "(none)".to_owned(),
    }
}

fn text_of(t: &Option<String>) -> (r: String)
    ensures
        r@ == text_or_none(*t),
{
    match t {
        Some(s) => s.clone(),
        None => "(none)".to_owned(),
    }
}

/// A difference, where there is one.
pub open spec fn diff_if(
    changed: bool,
    field: Seq<char>,
    from: Seq<char>,
    to: Seq<char>,
) -> Seq<DiffView> {
    if changed {
        seq![DiffView { field, from, to }]
    } else {
        Seq::empty()
    }
}

/// The differences between two entries, in words.
pub open spec fn differences(a: RenderHistoryEntry, b: RenderHistoryEntry) -> Seq<DiffView> {
    diff_if(a.preset_id@ != b.preset_id@, "preset"@, a.preset_id@, b.preset_id@) + diff_if(
        camera_differs(a.camera, b.camera),
        "camera"@,
        camera_name(a.camera),
        camera_name(b.camera),
    ) + diff_if(
        text::text_if_any(a.image_hash) != text::text_if_any(b.image_hash),
        "image_hash"@,
        text_or_none(a.image_hash),
        text_or_none(b.image_hash),
    )
}

/// Whole milliseconds that a render took.
pub open spec fn millis(e: RenderHistoryEntry) -> int {
    span(e.created_at, e.completed_at) / 1_000_000
}

/// What a comparison of two entries says.
pub open spec fn compares(a: RenderHistoryEntry, b: RenderHistoryEntry, r: CompareResult) -> bool {
    &&& r.a_job_id == a.job_id
    &&& r.b_job_id == b.job_id
    &&& r.preset_changed == (a.preset_id@ != b.preset_id@)
    &&& r.camera_changed == camera_differs(a.camera, b.camera)
    &&& r.image_hash_changed == (text::text_if_any(a.image_hash) != text::text_if_any(b.image_hash))
    &&& r.duration_delta_ms == millis(b) - millis(a)
    &&& r.field_diffs@.map_values(|d: FieldDiff| d@) == differences(a, b)
}

/// Compares two completed renders.
pub fn compare(a: &RenderHistoryEntry, b: &RenderHistoryEntry) -> (r: CompareResult)
    ensures
        compares(*a, *b, r),
{
    let mut diffs: Vec<FieldDiff> = Vec::new();
    let preset_changed: bool = !text::same_text(a.preset_id.as_str(), b.preset_id.as_str());
    if preset_changed {
        diffs.push(
            FieldDiff {
                field: "preset".to_owned(),
                from: a.preset_id.clone(),
                to: b.preset_id.clone(),
            },
        );
    }
    let camera_changed: bool = match (&a.camera, &b.camera) {
        (Some(x), Some(y)) => !cameras_equal(x, y),
        (None, None) => false,
        _ => true,
    };
    if camera_changed {
        diffs.push(
            FieldDiff {
                field: "camera".to_owned(),
                from: name_of(&a.camera),
                to: name_of(&b.camera),
            },
        );
    }
    let image_hash_changed: bool = !texts_equal(&a.image_hash, &b.image_hash);
    if image_hash_changed {
        diffs.push(
            FieldDiff {
                field: "image_hash".to_owned(),
                from: text_of(&a.image_hash),
                to: text_of(&b.image_hash),
            },
        );
    }
    proof {
        assert(diffs@.map_values(|d: FieldDiff| d@) =~= differences(*a, *b));
    }
    let after: i64 = (b.render_duration() / 1_000_000) as i64;
    let before: i64 = (a.render_duration() / 1_000_000) as i64;
    CompareResult {
        a_job_id: a.job_id.clone(),
        b_job_id: b.job_id.clone(),
        preset_changed,
        camera_changed,
        image_hash_changed,
        duration_delta_ms: after - before,
        field_diffs: diffs,
    }
}

/// The entries by recency are those recorded, and none is followed by a newer one.
pub proof fn recency_lists_every_entry_newest_first(entries: Seq<RenderHistoryEntry>)
    ensures
        order::ordered(entries).to_multiset() == entries.to_multiset(),
        forall|i: int, j: int|
            0 <= i < j < order::ordered(entries).len() ==> !later(
                (#[trigger] order::ordered(entries)[j]).completed_at,
                (#[trigger] order::ordered(entries)[i]).completed_at,
            ),
{
    order::ordering_keeps_items(entries);
    order::ordering_orders(entries);
    let s = order::ordered(entries);
    assert forall|i: int, j: int| 0 <= i < j < s.len() implies !later(
        (#[trigger] s[j]).completed_at,
        (#[trigger] s[i]).completed_at,
    ) by {
        assert(!s[j].ahead(s[i]));
    }
}

/// What is recorded stays: a later entry leaves the first entry for a job alone.
pub proof fn recording_keeps_earlier_entries(
    entries: Seq<RenderHistoryEntry>,
    entry: RenderHistoryEntry,
    id: Seq<char>,
)
    requires
        place_of(entries, id) < entries.len(),
    ensures
        place_of(entries.push(entry), id) == place_of(entries, id),
    decreases entries.len(),
{
    let longer = entries.push(entry);
    if entries.len() > 0 && entries[0].job_id@ != id {
        recording_keeps_earlier_entries(entries.drop_first(), entry, id);
        assert(longer.drop_first() =~= entries.drop_first().push(entry));
    }
}

/// Comparing the other way round finds the same changes and the opposite
/// difference in duration.
pub proof fn comparison_mirrors(
    a: RenderHistoryEntry,
    b: RenderHistoryEntry,
    there: CompareResult,
    back: CompareResult,
)
    requires
        compares(a, b, there),
        compares(b, a, back),
    ensures
        there.preset_changed == back.preset_changed,
        there.camera_changed == back.camera_changed,
        there.image_hash_changed == back.image_hash_changed,
        there.duration_delta_ms == -back.duration_delta_ms,
        there.field_diffs@.len() == back.field_diffs@.len(),
{
    if let (Some(x), Some(y)) = (a.camera, b.camera) {
        assert(same_camera(x, y) == same_camera(y, x));
    }
    assert(there.field_diffs@.len() == there.field_diffs@.map_values(|d: FieldDiff| d@).len());
    assert(back.field_diffs@.len() == back.field_diffs@.map_values(|d: FieldDiff| d@).len());
}

/// A render compared to itself shows no change, unless its camera differs from
/// itself.
pub proof fn comparison_with_itself_finds_nothing(a: RenderHistoryEntry, r: CompareResult)
    requires
        compares(a, a, r),
        a.camera matches Some(c) ==> same_camera(c, c),
    ensures
        !r.preset_changed,
        !r.camera_changed,
        !r.image_hash_changed,
        r.duration_delta_ms == 0,
        r.field_diffs@.len() == 0,
{
    assert(r.field_diffs@.len() == r.field_diffs@.map_values(|d: FieldDiff| d@).len());
}

/// A job that was reported done is recorded under its own id, preset and batch, from when it
/// was made to when it was done, with the picture that it was reported with.
pub proof fn done_jobs_are_recorded_as_they_ended(
    e: RenderHistoryEntry,
    job: RenderJob,
    path: String,
    end: Timestamp,
    now: Timestamp,
)
    requires
        records(e, crate::queue::done(job, path, end), now),
    ensures
        e.job_id@ == job.id@,
        e.preset_id@ == job.preset.id@,
        e.batch_id == job.batch_id,
        e.created_at == job.created_at,
        e.completed_at == end,
        e.output_path@ == path@,
        e.camera is None,
        e.image_hash is None,
        e.thumbnail_hash is None,
{
}

/// A job without an end ended when it was recorded, and one without a picture has its
/// picture under its own id.
pub proof fn open_ends_are_filled_in(e: RenderHistoryEntry, job: RenderJob, now: Timestamp)
    requires
        records(e, job, now),
        job.completed_at is None,
        job.output_path is None,
    ensures
        e.completed_at == now,
        e.output_path@ == "renders/"@ + job.id@ + ".png"@,
{
}

/// A render took as long as lies between its two times; where the clock went back, no time.
pub proof fn spans_lie_between_two_times(from: Timestamp, to: Timestamp)
    ensures
        span(from, to) >= 0,
        span(from, from) == 0,
        0 <= to.instant() - from.instant() <= i64::MAX ==> span(from, to) == to.instant()
            - from.instant(),
        to.instant() < from.instant() ==> span(from, to) == 0,
{
}

/// An entry is found by its job's id: the first there is, where there is one.
pub proof fn entries_are_found_by_their_job(entries: Seq<RenderHistoryEntry>, id: Seq<char>)
    ensures
        0 <= place_of(entries, id) <= entries.len(),
        place_of(entries, id) < entries.len() ==> entries[place_of(entries, id)].job_id@ == id,
        forall|i: int| 0 <= i < place_of(entries, id) ==> (#[trigger] entries[i]).job_id@ != id,
    decreases entries.len(),
{
    if entries.len() > 0 && entries[0].job_id@ != id {
        let rest = entries.drop_first();
        entries_are_found_by_their_job(rest, id);
        assert forall|i: int| 0 <= i < place_of(entries, id) implies (
        #[trigger] entries[i]).job_id@ != id by {
            if i > 0 {
                assert(rest[i - 1] == entries[i]);
            }
        }
    }
}

/// Every difference is named once, with what it was and what it became, in the order preset,
/// camera, picture; what did not change is not named.
pub proof fn differences_name_what_changed(a: RenderHistoryEntry, b: RenderHistoryEntry)
    ensures
        ({
            let preset = a.preset_id@ != b.preset_id@;
            let camera = camera_differs(a.camera, b.camera);
            let picture = text::text_if_any(a.image_hash) != text::text_if_any(b.image_hash);
            let count = |changed: bool|
                if changed {
                    1int
                } else {
                    0int
                };
            let d = differences(a, b);
            &&& d.len() == count(preset) + count(camera) + count(picture)
            &&& preset ==> d[0].field == "preset"@ && d[0].from == a.preset_id@ && d[0].to
                == b.preset_id@
            &&& camera ==> d[count(preset)].field == "camera"@ && d[count(preset)].from
                == camera_name(a.camera) && d[count(preset)].to == camera_name(b.camera)
            &&& picture ==> d.last().field == "image_hash"@ && d.last().from == text_or_none(
                a.image_hash,
            ) && d.last().to == text_or_none(b.image_hash)
        }),
{
}

/// A camera differs from one that has another number anywhere: in where it stands, looks or
/// has its up, or in any of its settings; and from one with another id, name or template.
pub proof fn cameras_differ_in_every_field(
    c: CameraSnapshot,
    v: crate::single::Single,
    p: Vec3,
    t: String,
    id: crate::ids::EntityId,
)
    ensures
        !v.same(c.focal_length_mm) ==> !same_camera(c, CameraSnapshot { focal_length_mm: v, ..c }),
        !v.same(c.sensor_width_mm) ==> !same_camera(c, CameraSnapshot { sensor_width_mm: v, ..c }),
        !v.same(c.sensor_height_mm) ==> !same_camera(
            c,
            CameraSnapshot { sensor_height_mm: v, ..c },
        ),
        !v.same(c.exposure_ev) ==> !same_camera(c, CameraSnapshot { exposure_ev: v, ..c }),
        !v.same(c.white_balance_k) ==> !same_camera(c, CameraSnapshot { white_balance_k: v, ..c }),
        !v.same(c.aperture_f) ==> !same_camera(c, CameraSnapshot { aperture_f: v, ..c }),
        !v.same(c.focus_distance_mm) ==> !same_camera(
            c,
            CameraSnapshot { focus_distance_mm: v, ..c },
        ),
        !v.same(c.aspect_ratio) ==> !same_camera(c, CameraSnapshot { aspect_ratio: v, ..c }),
        !p.x.same(c.position_mm.x) || !p.y.same(c.position_mm.y) || !p.z.same(c.position_mm.z)
            ==> !same_camera(c, CameraSnapshot { position_mm: p, ..c }),
        !p.x.same(c.target_mm.x) || !p.y.same(c.target_mm.y) || !p.z.same(c.target_mm.z)
            ==> !same_camera(c, CameraSnapshot { target_mm: p, ..c }),
        !p.x.same(c.up_mm.x) || !p.y.same(c.up_mm.y) || !p.z.same(c.up_mm.z) ==> !same_camera(
            c,
            CameraSnapshot { up_mm: p, ..c },
        ),
        t@ != c.name@ ==> !same_camera(c, CameraSnapshot { name: t, ..c }),
        text::text_if_any(c.preset_key) != Some(t@) ==> !same_camera(
            c,
            CameraSnapshot { preset_key: Some(t), ..c },
        ),
        id.value@ != c.id.value@ ==> !same_camera(c, CameraSnapshot { id, ..c }),
        camera_differs(Some(c), None) && camera_differs(None, Some(c)),
        !camera_differs(None, None),
{
}

/// An error on a job or an entry quotes its id, and one on a file says what is wrong.
pub proof fn errors_quote_what_they_are_about(id: String)
    ensures
        text::contains(HistoryError::NotCompleted(id).wording(), "job `"@ + id@ + "` is not"@),
        text::contains(HistoryError::UnknownEntry(id).wording(), "entry `"@ + id@ + "`"@),
        text::contains(HistoryError::Corrupt(id).wording(), id@),
{
    parts_of_errors(id@);
    text::texts_contain_what_they_are_made_of(
        HistoryError::NotCompleted(id).wording(),
        Seq::empty(),
        "job `"@ + id@ + "` is not"@,
        " completed; only completed jobs may be recorded"@,
    );
    text::texts_contain_what_they_are_made_of(
        HistoryError::UnknownEntry(id).wording(),
        "unknown "@,
        "entry `"@ + id@ + "`"@,
        Seq::empty(),
    );
    text::texts_contain_what_they_are_made_of(
        HistoryError::Corrupt(id).wording(),
        "history file is corrupt: "@,
        id@,
        Seq::empty(),
    );
}

proof fn parts_of_errors(id: Seq<char>)
    ensures
        "job `"@ + id + "` is not completed; only completed jobs may be recorded"@ == Seq::<
            char,
        >::empty() + ("job `"@ + id + "` is not"@)
            + " completed; only completed jobs may be recorded"@,
        "unknown entry `"@ + id + "`"@ == "unknown "@ + ("entry `"@ + id + "`"@) + Seq::<
            char,
        >::empty(),
        "history file is corrupt: "@ + id == "history file is corrupt: "@ + id + Seq::<
            char,
        >::empty(),
{
    reveal_strlit("` is not completed; only completed jobs may be recorded");
    reveal_strlit("` is not");
    reveal_strlit(" completed; only completed jobs may be recorded");
    reveal_strlit("unknown entry `");
    reveal_strlit("unknown ");
    reveal_strlit("entry `");
    assert("` is not completed; only completed jobs may be recorded"@ =~= "` is not"@
        + " completed; only completed jobs may be recorded"@);
    assert("unknown entry `"@ =~= "unknown "@ + "entry `"@);
}

} // verus!
