//! Saved cameras: snapshots, their store and its journal, and camera paths.
use vstd::prelude::*;

use crate::arithmetic;
use crate::catalog;
use crate::catalog::Catalog;
use crate::geometry::Vec3;
use crate::ids::EntityId;
use crate::order;
use crate::order::Ranked;
use crate::scene::RenderCamera;
use crate::single::Single;
use crate::text;

verus! {

/// One saved camera.
#[derive(Debug, PartialEq)]
pub struct CameraSnapshot {
    pub id: EntityId,
    pub name: String,
    pub position_mm: Vec3,
    pub target_mm: Vec3,
    pub up_mm: Vec3,
    pub focal_length_mm: Single,
    pub sensor_width_mm: Single,
    pub sensor_height_mm: Single,
    pub exposure_ev: Single,
    pub white_balance_k: Single,
    pub aperture_f: Single,
    pub focus_distance_mm: Single,
    pub aspect_ratio: Single,
    /// The key of the template the camera was made from.
    pub preset_key: Option<String>,
}

impl Clone for CameraSnapshot {
    fn clone(&self) -> (r: CameraSnapshot)
        ensures
            r == *self,
    {
        CameraSnapshot {
            id: self.id.clone(),
            name: self.name.clone(),
            position_mm: self.position_mm,
            target_mm: self.target_mm,
            up_mm: self.up_mm,
            focal_length_mm: self.focal_length_mm,
            sensor_width_mm: self.sensor_width_mm,
            sensor_height_mm: self.sensor_height_mm,
            exposure_ev: self.exposure_ev,
            white_balance_k: self.white_balance_k,
            aperture_f: self.aperture_f,
            focus_distance_mm: self.focus_distance_mm,
            aspect_ratio: self.aspect_ratio,
            preset_key: text::copy_if_any(&self.preset_key),
        }
    }
}

#[derive(Clone, Copy, Debug, PartialEq, Eq, Structural)]
pub enum CameraValidationError {
    FocalLength,
    Aperture,
    Sensor,
    Aspect,
    FocusDistance,
    /// Position and target coincide, so there is no direction to look in.
    ZeroLengthForward,
}

impl CameraValidationError {
    /// What the error says.
    pub open spec fn wording(self) -> Seq<char> {
        match self {
            CameraValidationError::FocalLength => "focal_length_mm must be positive and finite"@,
            CameraValidationError::Aperture => "aperture_f must be positive and finite"@,
            CameraValidationError::Sensor => "sensor dimensions must be positive and finite"@,
            CameraValidationError::Aspect => "aspect_ratio must be positive and finite"@,
            CameraValidationError::FocusDistance =>
                "focus_distance_mm must be non-negative and finite"@,
            CameraValidationError::ZeroLengthForward => "position_mm and target_mm coincide"@,
        }
    }

    /// What the error says.
    pub fn message(self) -> (r: &'static str)
        ensures
            r@ == self.wording(),
    {
        match self {
            CameraValidationError::FocalLength => "focal_length_mm must be positive and finite",
            CameraValidationError::Aperture => "aperture_f must be positive and finite",
            CameraValidationError::Sensor => "sensor dimensions must be positive and finite",
            CameraValidationError::Aspect => "aspect_ratio must be positive and finite",
            CameraValidationError::FocusDistance =>
                "focus_distance_mm must be non-negative and finite",
            CameraValidationError::ZeroLengthForward => "position_mm and target_mm coincide",
        }
    }
}

/// Whether a number is finite and above zero.
pub open spec fn positive(v: Single) -> bool {
    v.finite() && !v.at_most(Single { bits: 0 })
}

fn is_positive(v: Single) -> (r: bool)
    ensures
        r == positive(v),
{
    v.is_finite() && !v.le(Single::zero())
}

/// Whether a difference of coordinates counts as none: less than the machine
/// epsilon, 2 to the power -23.
pub open spec fn negligible(d: Single) -> bool {
    (Single { bits: d.magnitude() as u32 }).below(Single { bits: 0x3400_0000 })  // 1.1920929e-07
}

/// Whether two points coincide, from the difference of their coordinates.
pub open spec fn coincide(gap: Vec3) -> bool {
    negligible(gap.x) && negligible(gap.y) && negligible(gap.z)
}

/// Whether two points coincide, from the difference of their coordinates.
pub fn same_point(gap: Vec3) -> (r: bool)
    ensures
        r == coincide(gap),
{
    let epsilon: Single = Single::from_bits(0x3400_0000);  // 1.1920929e-07
    gap.x.abs().lt(epsilon) && gap.y.abs().lt(epsilon) && gap.z.abs().lt(epsilon)
}

/// What is wrong with a camera whose position lies `gap` from its target.
pub open spec fn verdict(c: CameraSnapshot, gap: Vec3) -> Result<(), CameraValidationError> {
    if !positive(c.focal_length_mm) {
        Err(CameraValidationError::FocalLength)
    } else if !positive(c.aperture_f) {
        Err(CameraValidationError::Aperture)
    } else if !positive(c.sensor_width_mm) || !positive(c.sensor_height_mm) {
        Err(CameraValidationError::Sensor)
    } else if !positive(c.aspect_ratio) {
        Err(CameraValidationError::Aspect)
    } else if !c.focus_distance_mm.finite() || c.focus_distance_mm.below(Single { bits: 0 }) {
        Err(CameraValidationError::FocusDistance)
    } else if coincide(gap) {
        Err(CameraValidationError::ZeroLengthForward)
    } else {
        Ok(())
    }
}

impl CameraSnapshot {
    /// Refuses cameras that the renderer could do nothing with. `minus` is the
    /// difference of two points.
    pub fn validate<M: Fn(Vec3, Vec3) -> Vec3>(&self, minus: &M) -> (r: Result<
        (),
        CameraValidationError,
    >)
        requires
            arithmetic::steady2(*minus),
        ensures
            r == verdict(*self, arithmetic::applied2(*minus, self.position_mm, self.target_mm)),
    {
        if !is_positive(self.focal_length_mm) {
            return Err(CameraValidationError::FocalLength);
        }
        if !is_positive(self.aperture_f) {
            return Err(CameraValidationError::Aperture);
        }
        if !is_positive(self.sensor_width_mm) {
            return Err(CameraValidationError::Sensor);
        }
        if !is_positive(self.sensor_height_mm) {
            return Err(CameraValidationError::Sensor);
        }
        if !is_positive(self.aspect_ratio) {
            return Err(CameraValidationError::Aspect);
        }
        if !self.focus_distance_mm.is_finite() || self.focus_distance_mm.lt(Single::zero()) {
            return Err(CameraValidationError::FocusDistance);
        }
        if same_point(minus(self.position_mm, self.target_mm)) {
            return Err(CameraValidationError::ZeroLengthForward);
        }
        Ok(())
    }

    /// The part of the camera that goes into a scene.
    pub fn to_render_camera(&self) -> (r: RenderCamera)
        ensures
            r == (RenderCamera {
                id: self.id.value,
                position_mm: self.position_mm,
                target_mm: self.target_mm,
                focal_length_mm: self.focal_length_mm,
                exposure_ev: self.exposure_ev,
                white_balance_k: self.white_balance_k,
                aperture_f: self.aperture_f,
            }),
    {
        RenderCamera {
            id: self.id.value.clone(),
            position_mm: self.position_mm,
            target_mm: self.target_mm,
            focal_length_mm: self.focal_length_mm,
            exposure_ev: self.exposure_ev,
            white_balance_k: self.white_balance_k,
            aperture_f: self.aperture_f,
        }
    }
}

/// Common interior and exterior cameras.
#[derive(Clone, Copy, Debug, PartialEq, Eq, Hash, Structural)]
pub enum CameraPresetKind {
    InteriorCloseUp,
    WideAngle,
    EyeLevel,
    BirdsEye,
}

impl CameraPresetKind {
    pub open spec fn key_text(self) -> Seq<char> {
        match self {
            CameraPresetKind::InteriorCloseUp => "interior_close_up"@,
            CameraPresetKind::WideAngle => "wide_angle"@,
            CameraPresetKind::EyeLevel => "eye_level"@,
            CameraPresetKind::BirdsEye => "birds_eye"@,
        }
    }

    pub fn key(self) -> (r: &'static str)
        ensures
            r@ == self.key_text(),
    {
        match self {
            CameraPresetKind::InteriorCloseUp => "interior_close_up",
            CameraPresetKind::WideAngle => "wide_angle",
            CameraPresetKind::EyeLevel => "eye_level",
            CameraPresetKind::BirdsEye => "birds_eye",
        }
    }

    /// Focal length in mm: 35, 18, 50 and 24.
    pub fn focal_length_mm(self) -> (r: Single)
        ensures
            r.bits == match self {
                CameraPresetKind::InteriorCloseUp => 0x420c_0000u32,  // 35
                CameraPresetKind::WideAngle => 0x4190_0000u32,  // 18
                CameraPresetKind::EyeLevel => 0x4248_0000u32,  // 50
                CameraPresetKind::BirdsEye => 0x41c0_0000u32,  // 24
            },
    {
        match self {
            CameraPresetKind::InteriorCloseUp => Single::from_bits(0x420c_0000),  // 35
            CameraPresetKind::WideAngle => Single::from_bits(0x4190_0000),  // 18
            CameraPresetKind::EyeLevel => Single::from_bits(0x4248_0000),  // 50
            CameraPresetKind::BirdsEye => Single::from_bits(0x41c0_0000),  // 24
        }
    }

    /// Aperture f-number: 4, 5.6, 4 and 11.
    pub fn aperture_f(self) -> (r: Single)
        ensures
            r.bits == match self {
                CameraPresetKind::InteriorCloseUp => 0x4080_0000u32,  // 4
                CameraPresetKind::WideAngle => 0x40b3_3333u32,  // 5.6
                CameraPresetKind::EyeLevel => 0x4080_0000u32,  // 4
                CameraPresetKind::BirdsEye => 0x4130_0000u32,  // 11
            },
    {
        match self {
            CameraPresetKind::InteriorCloseUp => Single::from_bits(0x4080_0000),  // 4
            CameraPresetKind::WideAngle => Single::from_bits(0x40b3_3333),  // 5.6
            CameraPresetKind::EyeLevel => Single::from_bits(0x4080_0000),  // 4
            CameraPresetKind::BirdsEye => Single::from_bits(0x4130_0000),  // 11
        }
    }
}

// ---- the store and its journal -----------------------------------------

/// One step in the camera journal.
#[derive(Debug, PartialEq)]
pub enum CameraJournalEntry {
    Upsert { snapshot: CameraSnapshot, previous: Option<CameraSnapshot> },
    Remove { snapshot: CameraSnapshot },
}

/// Steps taken on a camera store, in order. Steps are only ever added.
#[derive(Debug)]
pub struct CameraJournal {
    entries: Vec<CameraJournalEntry>,
}

impl View for CameraJournal {
    type V = Seq<CameraJournalEntry>;

    closed spec fn view(&self) -> Seq<CameraJournalEntry> {
        self.entries@
    }
}

impl CameraJournal {
    pub fn new() -> (r: CameraJournal)
        ensures
            r@ == Seq::<CameraJournalEntry>::empty(),
    {
        CameraJournal { entries: Vec::new() }
    }

    pub fn push(&mut self, entry: CameraJournalEntry)
        ensures
            final(self)@ == old(self)@.push(entry),
    {
        self.entries.push(entry);
    }

    pub fn entries(&self) -> (r: &Vec<CameraJournalEntry>)
        ensures
            r@ == self@,
    {
        &self.entries
    }

    pub fn len(&self) -> (r: usize)
        ensures
            r == self@.len(),
    {
        self.entries.len()
    }

    pub fn is_empty(&self) -> (r: bool)
        ensures
            r == (self@.len() == 0),
    {
        self.entries.len() == 0
    }
}

/// Saved cameras by id.
pub struct CameraStore {
    by_id: Catalog<CameraSnapshot>,
}

impl View for CameraStore {
    type V = Map<Seq<char>, CameraSnapshot>;

    closed spec fn view(&self) -> Map<Seq<char>, CameraSnapshot> {
        self.by_id@
    }
}

impl Ranked for CameraSnapshot {
    /// Cameras stand in the order of their names.
    open spec fn ahead(self, other: CameraSnapshot) -> bool {
        text::precedes(self.name@, other.name@)
    }

    proof fn ahead_is_asymmetric(a: CameraSnapshot, b: CameraSnapshot) {
        text::precedes_asymmetric(a.name@, b.name@);
    }

    proof fn ties_are_transitive(a: CameraSnapshot, b: CameraSnapshot, c: CameraSnapshot) {
        if text::precedes(c.name@, a.name@) {
            text::precedes_total(a.name@, b.name@);
            if text::precedes(a.name@, b.name@) {
                text::precedes_transitive(c.name@, a.name@, b.name@);
            }
        }
    }

    fn is_ahead(&self, other: &CameraSnapshot) -> (r: bool) {
        match text::placing(self.name.as_str(), other.name.as_str()) {
            text::Placing::Before => true,
            _ => false,
        }
    }
}

impl CameraStore {
    pub closed spec fn wf(&self) -> bool {
        &&& self.by_id.wf()
        &&& filed_by_id(self.by_id@)
    }

    /// The cameras in the order of their ids.
    pub closed spec fn snapshots(&self) -> Seq<CameraSnapshot> {
        self.by_id.value_seq()
    }

    pub fn new() -> (r: CameraStore)
        ensures
            r.wf(),
            r@ == Map::<Seq<char>, CameraSnapshot>::empty(),
            r.snapshots() == Seq::<CameraSnapshot>::empty(),
    {
        CameraStore { by_id: Catalog::new() }
    }

    pub fn len(&self) -> (r: usize)
        requires
            self.wf(),
        ensures
            r == self.snapshots().len(),
    {
        self.by_id.len()
    }

    pub fn is_empty(&self) -> (r: bool)
        requires
            self.wf(),
        ensures
            r == (self.snapshots().len() == 0),
    {
        self.by_id.is_empty()
    }

    pub fn get(&self, id: &EntityId) -> (r: Option<&CameraSnapshot>)
        requires
            self.wf(),
        ensures
            r is Some <==> self@.dom().contains(id.value@),
            r matches Some(c) ==> *c == self@[id.value@],
    {
        self.by_id.get(id.as_str())
    }

    /// Every saved camera in the order of names; of one name, in that of ids.
    pub fn list(&self) -> (r: Vec<CameraSnapshot>)
        requires
            self.wf(),
        ensures
            r@ == order::ordered(self.snapshots()),
    {
        let mut all: Vec<CameraSnapshot> = Vec::new();
        let mut i: usize = 0;
        while i < self.by_id.len()
            invariant
                self.wf(),
                i <= self.snapshots().len(),
                all@ == self.snapshots().take(i as int),
            decreases self.snapshots().len() - i,
        {
            all.push(self.by_id.value_at(i).clone());
            i = i + 1;
            proof {
                assert(all@ =~= self.snapshots().take(i as int));
            }
        }
        proof {
            assert(self.snapshots().take(i as int) =~= self.snapshots());
        }
        order::sort_stable(all)
    }

    /// Saves a camera under its id and notes the step. Hands back what the id
    /// stood for before. A camera that does not validate is refused and changes
    /// nothing; `minus` is the difference of two points.
    pub fn upsert<M: Fn(Vec3, Vec3) -> Vec3>(
        &mut self,
        journal: &mut CameraJournal,
        snapshot: CameraSnapshot,
        minus: &M,
    ) -> (r: Result<Option<CameraSnapshot>, CameraValidationError>)
        requires
            old(self).wf(),
            arithmetic::steady2(*minus),
        ensures
            final(self).wf(),
            match r {
                Err(e) => {
                    &&& verdict(
                        snapshot,
                        arithmetic::applied2(*minus, snapshot.position_mm, snapshot.target_mm),
                    ) == Err::<(), CameraValidationError>(e)
                    &&& *final(self) == *old(self)
                    &&& final(journal)@ == old(journal)@
                },
                Ok(previous) => {
                    &&& verdict(
                        snapshot,
                        arithmetic::applied2(*minus, snapshot.position_mm, snapshot.target_mm),
                    ) is Ok
                    &&& previous == before_of(old(self)@, snapshot.id.value@)
                    &&& final(self)@ == old(self)@.insert(snapshot.id.value@, snapshot)
                    &&& final(journal)@ == old(journal)@.push(
                        CameraJournalEntry::Upsert { snapshot, previous },
                    )
                },
            },
    {
        match snapshot.validate(minus) {
            Err(e) => {
                return Err(e);
            },
            Ok(_) => {},
        }
        let key: String = snapshot.id.value.clone();
        let previous: Option<CameraSnapshot> = self.by_id.insert(key, snapshot.clone());
        let kept: Option<CameraSnapshot> = match &previous {
            Some(p) => Some(p.clone()),
            None => None,
        };
        journal.push(CameraJournalEntry::Upsert { snapshot, previous: kept });
        Ok(previous)
    }

    /// Takes a camera out and notes the step, if there was one.
    pub fn remove(&mut self, journal: &mut CameraJournal, id: &EntityId) -> (r: Option<
        CameraSnapshot,
    >)
        requires
            old(self).wf(),
        ensures
            final(self).wf(),
            r == before_of(old(self)@, id.value@),
            final(self)@ == old(self)@.remove(id.value@),
            final(journal)@ == match r {
                Some(snapshot) => old(journal)@.push(CameraJournalEntry::Remove { snapshot }),
                None => old(journal)@,
            },
    {
        let removed: Option<CameraSnapshot> = self.by_id.remove(id.as_str());
        if let Some(snapshot) = &removed {
            journal.push(CameraJournalEntry::Remove { snapshot: snapshot.clone() });
        }
        removed
    }

    /// A camera with a template's lens and aperture. The store is not touched.
    pub fn apply_preset(snapshot: &CameraSnapshot, preset: CameraPresetKind) -> (r: CameraSnapshot)
        ensures
            r == (CameraSnapshot {
                focal_length_mm: r.focal_length_mm,
                aperture_f: r.aperture_f,
                preset_key: r.preset_key,
                ..*snapshot
            }),
            r.focal_length_mm.bits == match preset {
                CameraPresetKind::InteriorCloseUp => 0x420c_0000u32,  // 35
                CameraPresetKind::WideAngle => 0x4190_0000u32,  // 18
                CameraPresetKind::EyeLevel => 0x4248_0000u32,  // 50
                CameraPresetKind::BirdsEye => 0x41c0_0000u32,  // 24
            },
            r.aperture_f.bits == match preset {
                CameraPresetKind::InteriorCloseUp => 0x4080_0000u32,  // 4
                CameraPresetKind::WideAngle => 0x40b3_3333u32,  // 5.6
                CameraPresetKind::EyeLevel => 0x4080_0000u32,  // 4
                CameraPresetKind::BirdsEye => 0x4130_0000u32,  // 11
            },
            text::text_if_any(r.preset_key) == Some(preset.key_text()),
    {
        let mut out: CameraSnapshot = snapshot.clone();
        out.focal_length_mm = preset.focal_length_mm();
        out.aperture_f = preset.aperture_f();
        out.preset_key = Some(preset.key().to_owned());
        out
    }
}

/// What a store holds under an id.
pub open spec fn before_of(
    cameras: Map<Seq<char>, CameraSnapshot>,
    id: Seq<char>,
) -> Option<CameraSnapshot> {
    if cameras.dom().contains(id) {
        Some(cameras[id])
    } else {
        None
    }
}

/// The cameras after a step.
pub open spec fn stepped(
    cameras: Map<Seq<char>, CameraSnapshot>,
    entry: CameraJournalEntry,
) -> Map<Seq<char>, CameraSnapshot> {
    match entry {
        CameraJournalEntry::Upsert { snapshot, .. } => cameras.insert(
            snapshot.id.value@,
            snapshot,
        ),
        CameraJournalEntry::Remove { snapshot } => cameras.remove(snapshot.id.value@),
    }
}

/// The cameras with a step taken back.
pub open spec fn unstepped(
    cameras: Map<Seq<char>, CameraSnapshot>,
    entry: CameraJournalEntry,
) -> Map<Seq<char>, CameraSnapshot> {
    match entry {
        CameraJournalEntry::Upsert { snapshot, previous: None } => cameras.remove(
            snapshot.id.value@,
        ),
        CameraJournalEntry::Upsert { snapshot, previous: Some(p) } => cameras.insert(
            snapshot.id.value@,
            p,
        ),
        CameraJournalEntry::Remove { snapshot } => cameras.insert(snapshot.id.value@, snapshot),
    }
}

/// The cameras that a journal's steps lead to, from none.
pub open spec fn replayed(entries: Seq<CameraJournalEntry>) -> Map<Seq<char>, CameraSnapshot>
    decreases entries.len(),
{
    if entries.len() == 0 {
        Map::empty()
    } else {
        stepped(replayed(entries.drop_last()), entries.last())
    }
}

/// Every camera is filed under its own id.
pub open spec fn filed_by_id(cameras: Map<Seq<char>, CameraSnapshot>) -> bool {
    forall|id: Seq<char>| #[trigger]
        cameras.dom().contains(id) ==> cameras[id].id.value@ == id
}

/// The snapshots of a store are its cameras, each once, in the order of their ids.
pub proof fn snapshots_are_the_cameras_in_id_order(store: CameraStore)
    requires
        store.wf(),
    ensures
        filed_by_id(store@),
        store.snapshots().len() == store@.dom().len(),
        forall|i: int|
            0 <= i < store.snapshots().len() ==> store@.dom().contains(
                (#[trigger] store.snapshots()[i]).id.value@,
            ) && store@[store.snapshots()[i].id.value@] == store.snapshots()[i],
        forall|id: Seq<char>| #[trigger]
            store@.dom().contains(id) ==> store.snapshots().contains(store@[id]),
        forall|i: int, j: int|
            0 <= i < j < store.snapshots().len() ==> text::precedes(
                (#[trigger] store.snapshots()[i]).id.value@,
                (#[trigger] store.snapshots()[j]).id.value@,
            ),
{
    let keys = store.by_id.key_seq();
    let cameras = store.snapshots();
    assert forall|i: int| 0 <= i < cameras.len() implies store@.dom().contains(
        (#[trigger] cameras[i]).id.value@,
    ) && store@[cameras[i].id.value@] == cameras[i] && cameras[i].id.value@ == keys[i] by {
        catalog::key_found(keys, i, keys[i]);
        assert(store@.dom().contains(keys[i]));
        assert(store@[keys[i]] == cameras[i]);
    }
    assert forall|id: Seq<char>| #[trigger] store@.dom().contains(id) implies cameras.contains(
        store@[id],
    ) by {
        assert(keys.contains(id));
        let i = choose|i: int| 0 <= i < keys.len() && keys[i] == id;
        assert(cameras[i].id.value@ == keys[i]);
        assert(store@[id] == cameras[i]);
    }
    assert forall|i: int, j: int| 0 <= i < j < keys.len() implies keys[i] != keys[j] by {
        text::precedes_irreflexive(keys[i]);
    }
    assert(keys.no_duplicates());
    keys.unique_seq_to_set();
    assert(keys.to_set() =~= store@.dom());
}

/// The step that saving a camera notes leads from the cameras before to those
/// after, and back.
pub proof fn upsert_can_be_undone(
    cameras: Map<Seq<char>, CameraSnapshot>,
    snapshot: CameraSnapshot,
)
    ensures
        ({
            let id = snapshot.id.value@;
            let entry = CameraJournalEntry::Upsert { snapshot, previous: before_of(cameras, id) };
            let after = cameras.insert(id, snapshot);
            stepped(cameras, entry) == after && unstepped(after, entry) == cameras
        }),
{
    let id = snapshot.id.value@;
    let entry = CameraJournalEntry::Upsert { snapshot, previous: before_of(cameras, id) };
    let after = cameras.insert(id, snapshot);
    assert(unstepped(after, entry) =~= cameras);
}

/// The step that removing a camera notes leads from the cameras before to those
/// after, and back.
pub proof fn removal_can_be_undone(cameras: Map<Seq<char>, CameraSnapshot>, id: Seq<char>)
    requires
        filed_by_id(cameras),
        cameras.dom().contains(id),
    ensures
        ({
            let entry = CameraJournalEntry::Remove { snapshot: cameras[id] };
            let after = cameras.remove(id);
            stepped(cameras, entry) == after && unstepped(after, entry) == cameras
        }),
{
    let entry = CameraJournalEntry::Remove { snapshot: cameras[id] };
    assert(unstepped(cameras.remove(id), entry) =~= cameras);
}

/// A journal that leads to a store still does after a step that both take.
pub proof fn journal_tracks_the_store(
    cameras: Map<Seq<char>, CameraSnapshot>,
    entries: Seq<CameraJournalEntry>,
    entry: CameraJournalEntry,
)
    requires
        replayed(entries) == cameras,
    ensures
        replayed(entries.push(entry)) == stepped(cameras, entry),
{
    assert(entries.push(entry).drop_last() =~= entries);
}

/// Steps keep every camera under its own id.
pub proof fn steps_keep_cameras_filed(
    cameras: Map<Seq<char>, CameraSnapshot>,
    entry: CameraJournalEntry,
)
    requires
        filed_by_id(cameras),
    ensures
        filed_by_id(stepped(cameras, entry)),
{
}

// ---- thumbnails --------------------------------------------------------

/// Rows and columns of a thumbnail.
pub const THUMBNAIL_SIZE: usize = 32;

/// What a thumbnail shows of a camera.
#[derive(Clone, Copy, Debug, PartialEq, Eq, Structural)]
pub struct CameraTraits {
    pub position_mm: Vec3,
    pub target_mm: Vec3,
    pub focal_length_mm: Single,
    pub exposure_ev: Single,
    pub white_balance_k: Single,
}

/// A colour of one byte to a channel.
#[derive(Clone, Copy, Debug, PartialEq, Eq, Structural)]
pub struct Colour {
    pub red: u8,
    pub green: u8,
    pub blue: u8,
}

impl CameraSnapshot {
    /// What a thumbnail shows of the camera.
    pub open spec fn traits(&self) -> CameraTraits {
        CameraTraits {
            position_mm: self.position_mm,
            target_mm: self.target_mm,
            focal_length_mm: self.focal_length_mm,
            exposure_ev: self.exposure_ev,
            white_balance_k: self.white_balance_k,
        }
    }
}

/// The bytes of the first `n` pixels, row by row, each opaque.
pub open spec fn thumbnail<F: Fn(CameraTraits, usize, usize) -> Colour>(
    colour: F,
    camera: CameraTraits,
    n: int,
) -> Seq<u8>
    decreases n,
{
    if n <= 0 {
        Seq::empty()
    } else {
        let row = (n - 1) / (THUMBNAIL_SIZE as int);
        let column = (n - 1) % (THUMBNAIL_SIZE as int);
        let c = arithmetic::applied3(colour, camera, row as usize, column as usize);
        thumbnail(colour, camera, n - 1) + seq![c.red, c.green, c.blue, 255u8]
    }
}

/// A thumbnail has four bytes to a pixel.
pub proof fn thumbnail_size<F: Fn(CameraTraits, usize, usize) -> Colour>(
    colour: F,
    camera: CameraTraits,
    n: int,
)
    requires
        0 <= n,
    ensures
        thumbnail(colour, camera, n).len() == 4 * n,
    decreases n,
{
    if n > 0 {
        thumbnail_size(colour, camera, n - 1);
    }
}

/// Cameras that agree in their traits have the same thumbnail, whatever else they
/// hold.
pub proof fn same_traits_same_thumbnail<F: Fn(CameraTraits, usize, usize) -> Colour>(
    colour: F,
    a: CameraSnapshot,
    b: CameraSnapshot,
)
    requires
        a.position_mm == b.position_mm,
        a.target_mm == b.target_mm,
        a.focal_length_mm == b.focal_length_mm,
        a.exposure_ev == b.exposure_ev,
        a.white_balance_k == b.white_balance_k,
    ensures
        thumbnail(colour, a.traits(), 1024) == thumbnail(colour, b.traits(), 1024),
{
}

/// A thumbnail of a camera, red, green, blue and alpha to a pixel. `colour` gives
/// the colour at a row and column.
pub fn render_thumbnail_rgba8<F: Fn(CameraTraits, usize, usize) -> Colour>(
    snapshot: &CameraSnapshot,
    colour: F,
) -> (r: Vec<u8>)
    requires
        arithmetic::steady3(colour),
    ensures
        r@ == thumbnail(colour, snapshot.traits(), 1024),
        r@.len() == 4096,
{
    let camera = CameraTraits {
        position_mm: snapshot.position_mm,
        target_mm: snapshot.target_mm,
        focal_length_mm: snapshot.focal_length_mm,
        exposure_ev: snapshot.exposure_ev,
        white_balance_k: snapshot.white_balance_k,
    };
    let mut out: Vec<u8> = Vec::new();
    let mut at: usize = 0;
    while at < THUMBNAIL_SIZE * THUMBNAIL_SIZE
        invariant
            at <= 1024,
            arithmetic::steady3(colour),
            out@ == thumbnail(colour, camera, at as int),
        decreases 1024 - at,
    {
        let c: Colour = colour(camera, at / THUMBNAIL_SIZE, at % THUMBNAIL_SIZE);
        out.push(c.red);
        out.push(c.green);
        out.push(c.blue);
        out.push(255);
        at = at + 1;
        proof {
            let known = thumbnail(colour, camera, at - 1);
            assert(out@ =~= known + seq![c.red, c.green, c.blue, 255u8]);
        }
    }
    proof {
        thumbnail_size(colour, camera, 1024);
    }
    out
}

// ---- camera paths ------------------------------------------------------

/// One keyframe of a camera path.
#[derive(Clone, Copy, Debug, PartialEq, Eq, Structural)]
pub struct CameraKeyframe {
    pub frame: u32,
    pub position_mm: Vec3,
    pub target_mm: Vec3,
}

impl Ranked for CameraKeyframe {
    /// Keyframes stand in the order of their frames.
    open spec fn ahead(self, other: CameraKeyframe) -> bool {
        self.frame < other.frame
    }

    proof fn ahead_is_asymmetric(a: CameraKeyframe, b: CameraKeyframe) {
    }

    proof fn ties_are_transitive(a: CameraKeyframe, b: CameraKeyframe, c: CameraKeyframe) {
    }

    fn is_ahead(&self, other: &CameraKeyframe) -> (r: bool) {
        self.frame < other.frame
    }
}

#[derive(Clone, Copy, Debug, PartialEq, Eq, Structural)]
pub enum CameraPathError {
    DuplicateFrame(u32),
}

/// Keyframes in the order of their frames, each frame once.
#[derive(Debug, PartialEq)]
pub struct CameraPath {
    keyframes: Vec<CameraKeyframe>,
}

impl View for CameraPath {
    type V = Seq<CameraKeyframe>;

    closed spec fn view(&self) -> Seq<CameraKeyframe> {
        self.keyframes@
    }
}

/// Where a frame falls on a path.
#[derive(Clone, Copy, Debug, PartialEq, Eq, Structural)]
pub enum PathSample {
    /// On or outside the ends: the end itself.
    Held(CameraKeyframe),
    /// `offset` frames past `from`, of the `span` frames to `to`.
    Between { from: CameraKeyframe, to: CameraKeyframe, offset: u32, span: u32 },
}

/// How many frames past a keyframe, of how many to the next.
#[derive(Clone, Copy, Debug, PartialEq, Eq, Structural)]
pub struct Stage {
    pub offset: u32,
    pub span: u32,
}

/// The keyframe that a frame's place stands for.
pub open spec fn blended<L: Fn(Vec3, Vec3, Stage) -> Vec3>(
    lerp: L,
    s: PathSample,
    frame: u32,
) -> CameraKeyframe {
    match s {
        PathSample::Held(k) => k,
        PathSample::Between { from, to, offset, span } => {
            let stage = Stage { offset, span };
            CameraKeyframe {
                frame,
                position_mm: arithmetic::applied3(lerp, from.position_mm, to.position_mm, stage),
                target_mm: arithmetic::applied3(lerp, from.target_mm, to.target_mm, stage),
            }
        },
    }
}

/// The first frame that occurs twice in a row.
pub open spec fn first_repeat(k: Seq<CameraKeyframe>) -> Option<u32>
    decreases k.len(),
{
    if k.len() < 2 {
        None
    } else if k[0].frame == k[1].frame {
        Some(k[0].frame)
    } else {
        first_repeat(k.drop_first())
    }
}

/// Whether a frame lies past keyframe `i` and not past the next.
pub open spec fn straddles(k: Seq<CameraKeyframe>, i: int, frame: u32) -> bool {
    0 <= i < k.len() - 1 && k[i].frame < frame <= k[i + 1].frame
}

/// The place of a frame between keyframe `i` and the next.
pub open spec fn between(k: Seq<CameraKeyframe>, i: int, frame: u32) -> PathSample {
    PathSample::Between {
        from: k[i],
        to: k[i + 1],
        offset: (frame - k[i].frame) as u32,
        span: (k[i + 1].frame - k[i].frame) as u32,
    }
}

/// Whether frames rise from keyframe to keyframe.
pub open spec fn frames_rise(k: Seq<CameraKeyframe>) -> bool {
    forall|i: int, j: int|
        0 <= i < j < k.len() ==> (#[trigger] k[i]).frame < (#[trigger] k[j]).frame
}

proof fn no_repeat_means_rising(k: Seq<CameraKeyframe>)
    requires
        order::in_order(k),
        first_repeat(k) is None,
    ensures
        frames_rise(k),
    decreases k.len(),
{
    if k.len() >= 2 {
        let rest = k.drop_first();
        assert forall|i: int, j: int| 0 <= i < j < rest.len() implies !(#[trigger] rest[j]).ahead(
            #[trigger] rest[i],
        ) by {
            assert(!k[j + 1].ahead(k[i + 1]));
        }
        no_repeat_means_rising(rest);
        assert(!k[1].ahead(k[0]));
        assert forall|i: int, j: int| 0 <= i < j < k.len() implies (#[trigger] k[i]).frame < (
        #[trigger] k[j]).frame by {
            if i == 0 {
                if j > 1 {
                    assert(rest[0].frame < rest[j - 1].frame);
                }
            } else {
                assert(rest[i - 1].frame < rest[j - 1].frame);
            }
        }
    }
}

impl CameraPath {
    /// Frames rise along the path.
    pub open spec fn wf(&self) -> bool {
        frames_rise(self@)
    }

    pub fn new() -> (r: CameraPath)
        ensures
            r.wf(),
            r@ == Seq::<CameraKeyframe>::empty(),
    {
        CameraPath { keyframes: Vec::new() }
    }

    /// The path through keyframes, in the order of frames. Keyframes of one frame
    /// are refused; the error names the lowest such frame.
    pub fn from_keyframes(keyframes: Vec<CameraKeyframe>) -> (r: Result<
        CameraPath,
        CameraPathError,
    >)
        ensures
            match r {
                Ok(path) => first_repeat(order::ordered(keyframes@)) is None && path@
                    == order::ordered(keyframes@) && path.wf(),
                Err(CameraPathError::DuplicateFrame(frame)) => first_repeat(
                    order::ordered(keyframes@),
                ) == Some(frame),
            },
    {
        let sorted: Vec<CameraKeyframe> = order::sort_stable(keyframes);
        let ghost all = sorted@;
        let mut i: usize = 0;
        proof {
            assert(all.skip(0) =~= all);
        }
        while sorted.len() - i > 1
            invariant
                sorted@ == all,
                i <= sorted.len(),
                all == order::ordered(keyframes@),
                first_repeat(all) == first_repeat(all.skip(i as int)),
            decreases sorted.len() - i,
        {
            proof {
                assert(all.skip(i as int)[0] == all[i as int]);
                assert(all.skip(i as int)[1] == all[i + 1]);
                assert(all.skip(i as int).drop_first() =~= all.skip(i + 1));
            }
            if sorted[i].frame == sorted[i + 1].frame {
                return Err(CameraPathError::DuplicateFrame(sorted[i].frame));
            }
            i = i + 1;
        }
        proof {
            order::ordering_orders(keyframes@);
            no_repeat_means_rising(all);
        }
        Ok(CameraPath { keyframes: sorted })
    }

    pub fn keyframes(&self) -> (r: &Vec<CameraKeyframe>)
        ensures
            r@ == self@,
    {
        &self.keyframes
    }

    pub fn len(&self) -> (r: usize)
        ensures
            r == self@.len(),
    {
        self.keyframes.len()
    }

    pub fn is_empty(&self) -> (r: bool)
        ensures
            r == (self@.len() == 0),
    {
        self.keyframes.len() == 0
    }

    /// The first and the last frame.
    pub fn frame_range(&self) -> (r: Option<(u32, u32)>)
        ensures
            r == if self@.len() == 0 {
                None::<(u32, u32)>
            } else {
                Some((self@[0].frame, self@.last().frame))
            },
    {
        let n: usize = self.keyframes.len();
        if n == 0 {
            return None;
        }
        Some((self.keyframes[0].frame, self.keyframes[n - 1].frame))
    }

    /// Whether `r` says where a frame falls: at an end of the path, or so far
    /// between two neighbouring keyframes.
    pub open spec fn placed(&self, frame: u32, r: Option<PathSample>) -> bool {
        &&& r is None <==> self@.len() == 0
        &&& self@.len() > 0 && frame <= self@[0].frame ==> r == Some(PathSample::Held(self@[0]))
        &&& self@.len() > 0 && frame > self@[0].frame && frame >= self@.last().frame ==> r == Some(
            PathSample::Held(self@.last()),
        )
        &&& self@.len() > 0 && self@[0].frame < frame < self@.last().frame ==> exists|i: int|
            #[trigger] straddles(self@, i, frame) && r == Some(between(self@, i, frame))
    }

    /// The keyframe of a frame: an end of the path, or a blend of its neighbours.
    /// `lerp` blends two points.
    pub fn sample<L: Fn(Vec3, Vec3, Stage) -> Vec3>(&self, frame: u32, lerp: L) -> (r: Option<
        CameraKeyframe,
    >)
        requires
            self.wf(),
            arithmetic::steady3(lerp),
        ensures
            exists|p: Option<PathSample>| #[trigger]
                self.placed(frame, p) && r == match p {
                    None => None::<CameraKeyframe>,
                    Some(s) => Some(blended(lerp, s, frame)),
                },
    {
        let p: Option<PathSample> = self.place(frame);
        match p {
            None => None,
            Some(PathSample::Held(k)) => Some(k),
            Some(PathSample::Between { from, to, offset, span }) => {
                let stage = Stage { offset, span };
                Some(
                    CameraKeyframe {
                        frame,
                        position_mm: lerp(from.position_mm, to.position_mm, stage),
                        target_mm: lerp(from.target_mm, to.target_mm, stage),
                    },
                )
            },
        }
    }

    /// Where a frame falls.
    pub fn place(&self, frame: u32) -> (r: Option<PathSample>)
        requires
            self.wf(),
        ensures
            self.placed(frame, r),
    {
        let n: usize = self.keyframes.len();
        if n == 0 {
            return None;
        }
        if frame <= self.keyframes[0].frame {
            return Some(PathSample::Held(self.keyframes[0]));
        }
        if frame >= self.keyframes[n - 1].frame {
            return Some(PathSample::Held(self.keyframes[n - 1]));
        }
        let mut i: usize = 0;
        while n - i > 1
            invariant
                n == self@.len(),
                n == self.keyframes.len(),
                self.wf(),
                i < n,
                self@[i as int].frame < frame,
                frame < self@.last().frame,
                self@[0].frame < frame,
            decreases n - i,
        {
            let from: CameraKeyframe = self.keyframes[i];
            let to: CameraKeyframe = self.keyframes[i + 1];
            assert(self@[i as int] == from && self@[i + 1] == to);
            if frame <= to.frame {
                assert(straddles(self@, i as int, frame));
                return Some(
                    PathSample::Between {
                        from,
                        to,
                        offset: frame - from.frame,
                        span: to.frame - from.frame,
                    },
                );
            }
            i = i + 1;
        }
        None
    }
}

/// A frame inside a path falls between one pair of neighbouring keyframes only,
/// and not past the later of them.
pub proof fn samples_stay_between_their_keyframes(
    k: Seq<CameraKeyframe>,
    i: int,
    j: int,
    frame: u32,
)
    requires
        frames_rise(k),
        straddles(k, i, frame),
        straddles(k, j, frame),
    ensures
        i == j,
        0 < frame - k[i].frame <= k[i + 1].frame - k[i].frame,
{
    if j < i && j + 1 < i {
        assert(k[j + 1].frame < k[i].frame);
    } else if i < j && i + 1 < j {
        assert(k[i + 1].frame < k[j].frame);
    }
}

/// A camera is sound exactly where its focal length, aperture, sensor and aspect are finite
/// and above 0, it focuses at a finite distance of 0 or more, and it stands some way from
/// its target. What is found wrong is wrong.
pub proof fn sound_cameras_can_be_rendered_with(c: CameraSnapshot, gap: Vec3)
    ensures
        ({
            let zero = Single { bits: 0 };
            let good = |v: Single| v.finite() && zero.below(v);
            &&& verdict(c, gap) is Ok <==> {
                &&& good(c.focal_length_mm)
                &&& good(c.aperture_f)
                &&& good(c.sensor_width_mm)
                &&& good(c.sensor_height_mm)
                &&& good(c.aspect_ratio)
                &&& c.focus_distance_mm.finite() && zero.at_most(c.focus_distance_mm)
                &&& !coincide(gap)
            }
            &&& verdict(c, gap) matches Err(e) ==> match e {
                CameraValidationError::FocalLength => !good(c.focal_length_mm),
                CameraValidationError::Aperture => !good(c.aperture_f),
                CameraValidationError::Sensor => !good(c.sensor_width_mm) || !good(
                    c.sensor_height_mm,
                ),
                CameraValidationError::Aspect => !good(c.aspect_ratio),
                CameraValidationError::FocusDistance => !(c.focus_distance_mm.finite()
                    && zero.at_most(c.focus_distance_mm)),
                CameraValidationError::ZeroLengthForward => coincide(gap),
            }
        }),
{
}

/// Two points coincide exactly where they lie less than the machine epsilon apart on every
/// axis, whichever lies ahead.
pub proof fn points_coincide_when_near_on_every_axis(gap: Vec3, back: Vec3)
    requires
        back.x.magnitude() == gap.x.magnitude(),
        back.y.magnitude() == gap.y.magnitude(),
        back.z.magnitude() == gap.z.magnitude(),
    ensures
        coincide(gap) == coincide(back),
        coincide(gap) <==> gap.x.magnitude() < 0x3400_0000 && gap.y.magnitude() < 0x3400_0000
            && gap.z.magnitude() < 0x3400_0000,
{
}

/// A thumbnail has at each row and column the color of the camera there, opaque: red, green,
/// blue and alpha, row by row.
pub proof fn thumbnails_show_each_place<F: Fn(CameraTraits, usize, usize) -> Colour>(
    colour: F,
    camera: CameraTraits,
    n: int,
    row: int,
    column: int,
)
    requires
        0 <= row,
        0 <= column < 32,
        32 * row + column < n,
    ensures
        ({
            let at = 4 * (32 * row + column);
            let c = arithmetic::applied3(colour, camera, row as usize, column as usize);
            let bytes = thumbnail(colour, camera, n);
            &&& bytes.len() == 4 * n
            &&& bytes[at] == c.red
            &&& bytes[at + 1] == c.green
            &&& bytes[at + 2] == c.blue
            &&& bytes[at + 3] == 255
        }),
    decreases n,
{
    thumbnail_size(colour, camera, n);
    thumbnail_size(colour, camera, n - 1);
    if 32 * row + column < n - 1 {
        thumbnails_show_each_place(colour, camera, n - 1, row, column);
    }
}

/// A path passes through its keyframes: at the frame of a keyframe it gives that keyframe,
/// where a blend that has gone all the way is where it went.
pub proof fn paths_pass_through_their_keyframes<L: Fn(Vec3, Vec3, Stage) -> Vec3>(
    path: CameraPath,
    lerp: L,
    j: int,
    s: PathSample,
)
    requires
        path.wf(),
        0 <= j < path@.len(),
        path.placed(path@[j].frame, Some(s)),
        forall|a: Vec3, stage: Stage|
            stage.offset == stage.span && stage.span > 0 ==> #[trigger] arithmetic::applied3(
                lerp,
                a,
                path@[j].position_mm,
                stage,
            ) == path@[j].position_mm,
        forall|a: Vec3, stage: Stage|
            stage.offset == stage.span && stage.span > 0 ==> #[trigger] arithmetic::applied3(
                lerp,
                a,
                path@[j].target_mm,
                stage,
            ) == path@[j].target_mm,
    ensures
        blended(lerp, s, path@[j].frame) == path@[j],
{
    let k = path@;
    let frame = k[j].frame;
    if j > 0 {
        assert(k[0].frame < k[j].frame);
        if j < k.len() - 1 {
            assert(k[j].frame < k[k.len() - 1].frame);
            let i = choose|i: int| #[trigger]
                straddles(k, i, frame) && Some(s) == Some(between(k, i, frame));
            assert(k[j - 1].frame < k[j].frame);
            assert(straddles(k, j - 1, frame));
            samples_stay_between_their_keyframes(k, i, j - 1, frame);
        }
    }
}

/// Between two neighbouring keyframes a camera's place is blended from their places and its
/// target from their targets, by how many frames it is past the first out of how many lie
/// between them. Before the first keyframe and after the last it stays at them.
pub proof fn places_and_targets_are_blended_alike<L: Fn(Vec3, Vec3, Stage) -> Vec3>(
    path: CameraPath,
    lerp: L,
    i: int,
    frame: u32,
    s: PathSample,
)
    requires
        path.wf(),
        path.placed(frame, Some(s)),
        0 <= i < path@.len(),
    ensures
        i + 1 < path@.len() && path@[i].frame < frame < path@[i + 1].frame ==> {
            let stage = Stage {
                offset: (frame - path@[i].frame) as u32,
                span: (path@[i + 1].frame - path@[i].frame) as u32,
            };
            let c = blended(lerp, s, frame);
            &&& c.frame == frame
            &&& c.position_mm == arithmetic::applied3(
                lerp,
                path@[i].position_mm,
                path@[i + 1].position_mm,
                stage,
            )
            &&& c.target_mm == arithmetic::applied3(
                lerp,
                path@[i].target_mm,
                path@[i + 1].target_mm,
                stage,
            )
        },
        frame <= path@[0].frame ==> blended(lerp, s, frame) == path@[0],
        frame >= path@.last().frame ==> blended(lerp, s, frame) == path@.last(),
{
    let k = path@;
    if k.len() > 1 {
        assert(k[0].frame < k[k.len() - 1].frame);
    }
    if i + 1 < k.len() && k[i].frame < frame < k[i + 1].frame {
        if i > 0 {
            assert(k[0].frame < k[i].frame);
        }
        if i + 1 < k.len() - 1 {
            assert(k[i + 1].frame < k[k.len() - 1].frame);
        }
        let j = choose|j: int| #[trigger]
            straddles(k, j, frame) && Some(s) == Some(between(k, j, frame));
        assert(straddles(k, i, frame));
        samples_stay_between_their_keyframes(k, i, j, frame);
    }
}

/// A list of keyframes has a repeat exactly where two neighbours have one frame, and the
/// repeat that is named is the first.
pub proof fn repeats_are_of_neighbours(k: Seq<CameraKeyframe>, i: int)
    requires
        0 <= i < k.len() - 1,
        k[i].frame == k[i + 1].frame,
        forall|j: int, n: int|
            0 <= j < i && n == j + 1 ==> (#[trigger] k[j]).frame != (#[trigger] k[n]).frame,
    ensures
        first_repeat(k) == Some(k[i].frame),
    decreases k.len(),
{
    if i > 0 {
        let rest = k.drop_first();
        assert(k[0].frame != k[1].frame);
        assert(rest[i - 1] == k[i] && rest[i] == k[i + 1]);
        assert forall|j: int, n: int| 0 <= j < i - 1 && n == j + 1 implies (
        #[trigger] rest[j]).frame != (#[trigger] rest[n]).frame by {
            assert(rest[j] == k[j + 1] && rest[n] == k[n + 1]);
        }
        repeats_are_of_neighbours(rest, i - 1);
    }
}

/// A list of keyframes whose frames rise has no repeat.
pub proof fn rising_frames_do_not_repeat(k: Seq<CameraKeyframe>)
    requires
        frames_rise(k),
    ensures
        first_repeat(k) is None,
    decreases k.len(),
{
    if k.len() >= 2 {
        assert(k[0].frame < k[1].frame);
        let rest = k.drop_first();
        assert forall|i: int, j: int| 0 <= i < j < rest.len() implies (#[trigger] rest[i]).frame < (
        #[trigger] rest[j]).frame by {
            assert(k[i + 1].frame < k[j + 1].frame);
        }
        rising_frames_do_not_repeat(rest);
    }
}

/// What a thumbnail shows of a camera is where it stands and looks, its focal length, its
/// exposure and its white balance.
pub proof fn thumbnails_show_the_camera_itself(c: CameraSnapshot)
    ensures
        c.traits().position_mm == c.position_mm,
        c.traits().target_mm == c.target_mm,
        c.traits().focal_length_mm == c.focal_length_mm,
        c.traits().exposure_ev == c.exposure_ev,
        c.traits().white_balance_k == c.white_balance_k,
{
}

} // verus!
