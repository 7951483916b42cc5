//! Render presets: seven bundled ones and what users save beside them.
use vstd::prelude::*;

use crate::catalog;
use crate::catalog::Catalog;
use crate::text;

verus! {

/// Hardware tiers, weakest first.
#[derive(Clone, Copy, Debug, PartialEq, Eq, Hash, Structural)]
pub enum HardwareTier {
    Low,
    Medium,
    High,
    Pro,
}

#[derive(Clone, Copy, Debug, PartialEq, Eq, Hash, Structural)]
pub enum RenderQuality {
    Eevee,
    Quick,
    Standard,
    High,
    Studio,
    Walkthrough,
    Panorama,
}

#[derive(Clone, Copy, Debug, PartialEq, Eq, Structural)]
pub struct RenderPresetConfig {
    pub quality: RenderQuality,
    /// Samples for each pixel.
    pub samples: u32,
    pub denoise: bool,
    pub tile_size_px: u32,
    pub resolution_x: u32,
    pub resolution_y: u32,
    pub use_motion_blur: bool,
    pub use_volumetric_atmosphere: bool,
}

#[derive(Debug, PartialEq)]
pub struct RenderPreset {
    pub id: String,
    pub display_name: String,
    pub config: RenderPresetConfig,
}

/// What a preset holds.
pub struct RenderPresetView {
    pub id: Seq<char>,
    pub display_name: Seq<char>,
    pub config: RenderPresetConfig,
}

impl View for RenderPreset {
    type V = RenderPresetView;

    open spec fn view(&self) -> RenderPresetView {
        RenderPresetView {
            id: self.id@,
            display_name: self.display_name@,
            config: self.config,
        }
    }
}

impl Clone for RenderPreset {
    fn clone(&self) -> (r: RenderPreset)
        ensures
            r == *self,
    {
        RenderPreset {
            id: self.id.clone(),
            display_name: self.display_name.clone(),
            config: self.config,
        }
    }
}

/// What each preset of a list holds.
pub open spec fn preset_views(presets: Seq<RenderPreset>) -> Seq<RenderPresetView> {
    presets.map_values(|p: RenderPreset| p@)
}

/// The settings of the bundled preset of a quality.
pub open spec fn bundled_config(q: RenderQuality) -> RenderPresetConfig {
    match q {
        RenderQuality::Eevee => RenderPresetConfig {
            quality: RenderQuality::Eevee,
            samples: 64,
            denoise: false,
            tile_size_px: 256,
            resolution_x: 1280,
            resolution_y: 720,
            use_motion_blur: false,
            use_volumetric_atmosphere: false,
        },
        RenderQuality::Quick => RenderPresetConfig {
            quality: RenderQuality::Quick,
            samples: 32,
            denoise: true,
            tile_size_px: 256,
            resolution_x: 1280,
            resolution_y: 720,
            use_motion_blur: false,
            use_volumetric_atmosphere: false,
        },
        RenderQuality::Standard => RenderPresetConfig {
            quality: RenderQuality::Standard,
            samples: 128,
            denoise: true,
            tile_size_px: 256,
            resolution_x: 1920,
            resolution_y: 1080,
            use_motion_blur: false,
            use_volumetric_atmosphere: false,
        },
        RenderQuality::High => RenderPresetConfig {
            quality: RenderQuality::High,
            samples: 256,
            denoise: true,
            tile_size_px: 256,
            resolution_x: 1920,
            resolution_y: 1080,
            use_motion_blur: false,
            use_volumetric_atmosphere: true,
        },
        RenderQuality::Studio => RenderPresetConfig {
            quality: RenderQuality::Studio,
            samples: 1024,
            denoise: true,
            tile_size_px: 256,
            resolution_x: 3840,
            resolution_y: 2160,
            use_motion_blur: true,
            use_volumetric_atmosphere: true,
        },
        RenderQuality::Walkthrough => RenderPresetConfig {
            quality: RenderQuality::Walkthrough,
            samples: 96,
            denoise: true,
            tile_size_px: 256,
            resolution_x: 1920,
            resolution_y: 1080,
            use_motion_blur: true,
            use_volumetric_atmosphere: false,
        },
        RenderQuality::Panorama => RenderPresetConfig {
            quality: RenderQuality::Panorama,
            samples: 512,
            denoise: true,
            tile_size_px: 256,
            resolution_x: 4096,
            resolution_y: 2048,
            use_motion_blur: false,
            use_volumetric_atmosphere: true,
        },
    }
}

/// The id of the bundled preset of a quality.
pub open spec fn quality_id(q: RenderQuality) -> Seq<char> {
    match q {
        RenderQuality::Eevee => "eevee_preview"@,
        RenderQuality::Quick => "quick"@,
        RenderQuality::Standard => "standard"@,
        RenderQuality::High => "high"@,
        RenderQuality::Studio => "studio"@,
        RenderQuality::Walkthrough => "walkthrough"@,
        RenderQuality::Panorama => "panorama"@,
    }
}

/// The name of the bundled preset of a quality.
pub open spec fn quality_name(q: RenderQuality) -> Seq<char> {
    match q {
        RenderQuality::Eevee => "EEVEE preview"@,
        RenderQuality::Quick => "Quick"@,
        RenderQuality::Standard => "Standard"@,
        RenderQuality::High => "High"@,
        RenderQuality::Studio => "Studio"@,
        RenderQuality::Walkthrough => "Walkthrough"@,
        RenderQuality::Panorama => "Panorama"@,
    }
}

/// The bundled preset of a quality.
pub open spec fn bundled(q: RenderQuality) -> RenderPresetView {
    RenderPresetView {
        id: quality_id(q),
        display_name: quality_name(q),
        config: bundled_config(q),
    }
}

/// Every quality, in the order the bundled presets are offered.
pub open spec fn every_quality() -> Seq<RenderQuality> {
    seq![
        RenderQuality::Eevee,
        RenderQuality::Quick,
        RenderQuality::Standard,
        RenderQuality::High,
        RenderQuality::Studio,
        RenderQuality::Walkthrough,
        RenderQuality::Panorama,
    ]
}

/// The bundled presets, in the order they are offered.
pub open spec fn bundled_presets() -> Seq<RenderPresetView> {
    every_quality().map_values(|q: RenderQuality| bundled(q))
}

/// The quality whose bundled preset has an id.
pub open spec fn quality_with_id(id: Seq<char>) -> Option<RenderQuality> {
    if id == "eevee_preview"@ {
        Some(RenderQuality::Eevee)
    } else if id == "quick"@ {
        Some(RenderQuality::Quick)
    } else if id == "standard"@ {
        Some(RenderQuality::Standard)
    } else if id == "high"@ {
        Some(RenderQuality::High)
    } else if id == "studio"@ {
        Some(RenderQuality::Studio)
    } else if id == "walkthrough"@ {
        Some(RenderQuality::Walkthrough)
    } else if id == "panorama"@ {
        Some(RenderQuality::Panorama)
    } else {
        None
    }
}

/// The quality whose bundled preset has an id.
pub fn quality_for_id(id: &str) -> (r: Option<RenderQuality>)
    ensures
        r == quality_with_id(id@),
{
    if text::same_text(id, "eevee_preview") {
        Some(RenderQuality::Eevee)
    } else if text::same_text(id, "quick") {
        Some(RenderQuality::Quick)
    } else if text::same_text(id, "standard") {
        Some(RenderQuality::Standard)
    } else if text::same_text(id, "high") {
        Some(RenderQuality::High)
    } else if text::same_text(id, "studio") {
        Some(RenderQuality::Studio)
    } else if text::same_text(id, "walkthrough") {
        Some(RenderQuality::Walkthrough)
    } else if text::same_text(id, "panorama") {
        Some(RenderQuality::Panorama)
    } else {
        None
    }
}

impl RenderPreset {
    pub fn eevee_preview() -> (r: RenderPreset)
        ensures
            r@ == bundled(RenderQuality::Eevee),
    {
        RenderPreset {
            id: "eevee_preview".to_owned(),
            display_name: "EEVEE preview".to_owned(),
            config: RenderPresetConfig {
                quality: RenderQuality::Eevee,
                samples: 64,
                denoise: false,
                tile_size_px: 256,
                resolution_x: 1280,
                resolution_y: 720,
                use_motion_blur: false,
                use_volumetric_atmosphere: false,
            },
        }
    }

    pub fn quick() -> (r: RenderPreset)
        ensures
            r@ == bundled(RenderQuality::Quick),
    {
        RenderPreset {
            id: "quick".to_owned(),
            display_name: "Quick".to_owned(),
            config: RenderPresetConfig {
                quality: RenderQuality::Quick,
                samples: 32,
                denoise: true,
                tile_size_px: 256,
                resolution_x: 1280,
                resolution_y: 720,
                use_motion_blur: false,
                use_volumetric_atmosphere: false,
            },
        }
    }

    pub fn standard() -> (r: RenderPreset)
        ensures
            r@ == bundled(RenderQuality::Standard),
    {
        RenderPreset {
            id: "standard".to_owned(),
            display_name: "Standard".to_owned(),
            config: RenderPresetConfig {
                quality: RenderQuality::Standard,
                samples: 128,
                denoise: true,
                tile_size_px: 256,
                resolution_x: 1920,
                resolution_y: 1080,
                use_motion_blur: false,
                use_volumetric_atmosphere: false,
            },
        }
    }

    pub fn high() -> (r: RenderPreset)
        ensures
            r@ == bundled(RenderQuality::High),
    {
        RenderPreset {
            id: "high".to_owned(),
            display_name: "High".to_owned(),
            config: RenderPresetConfig {
                quality: RenderQuality::High,
                samples: 256,
                denoise: true,
                tile_size_px: 256,
                resolution_x: 1920,
                resolution_y: 1080,
                use_motion_blur: false,
                use_volumetric_atmosphere: true,
            },
        }
    }

    pub fn studio() -> (r: RenderPreset)
        ensures
            r@ == bundled(RenderQuality::Studio),
    {
        RenderPreset {
            id: "studio".to_owned(),
            display_name: "Studio".to_owned(),
            config: RenderPresetConfig {
                quality: RenderQuality::Studio,
                samples: 1024,
                denoise: true,
                tile_size_px: 256,
                resolution_x: 3840,
                resolution_y: 2160,
                use_motion_blur: true,
                use_volumetric_atmosphere: true,
            },
        }
    }

    pub fn walkthrough() -> (r: RenderPreset)
        ensures
            r@ == bundled(RenderQuality::Walkthrough),
    {
        RenderPreset {
            id: "walkthrough".to_owned(),
            display_name: "Walkthrough".to_owned(),
            config: RenderPresetConfig {
                quality: RenderQuality::Walkthrough,
                samples: 96,
                denoise: true,
                tile_size_px: 256,
                resolution_x: 1920,
                resolution_y: 1080,
                use_motion_blur: true,
                use_volumetric_atmosphere: false,
            },
        }
    }

    pub fn panorama() -> (r: RenderPreset)
        ensures
            r@ == bundled(RenderQuality::Panorama),
    {
        RenderPreset {
            id: "panorama".to_owned(),
            display_name: "Panorama".to_owned(),
            config: RenderPresetConfig {
                quality: RenderQuality::Panorama,
                samples: 512,
                denoise: true,
                tile_size_px: 256,
                resolution_x: 4096,
                resolution_y: 2048,
                use_motion_blur: false,
                use_volumetric_atmosphere: true,
            },
        }
    }

    /// All bundled presets.
    pub fn defaults() -> (r: Vec<RenderPreset>)
        ensures
            preset_views(r@) == bundled_presets(),
    {
        let r: Vec<RenderPreset> = vec![
            RenderPreset::eevee_preview(),
            RenderPreset::quick(),
            RenderPreset::standard(),
            RenderPreset::high(),
            RenderPreset::studio(),
            RenderPreset::walkthrough(),
            RenderPreset::panorama(),
        ];
        proof {
            assert(preset_views(r@) =~= bundled_presets());
        }
        r
    }

    /// Bundled preset of a quality.
    pub fn from_quality(q: RenderQuality) -> (r: RenderPreset)
        ensures
            r@ == bundled(q),
    {
        match q {
            RenderQuality::Eevee => RenderPreset::eevee_preview(),
            RenderQuality::Quick => RenderPreset::quick(),
            RenderQuality::Standard => RenderPreset::standard(),
            RenderQuality::High => RenderPreset::high(),
            RenderQuality::Studio => RenderPreset::studio(),
            RenderQuality::Walkthrough => RenderPreset::walkthrough(),
            RenderQuality::Panorama => RenderPreset::panorama(),
        }
    }
}

/// The quality recommended for a hardware tier.
pub open spec fn recommendation(tier: HardwareTier) -> RenderQuality {
    match tier {
        HardwareTier::Low => RenderQuality::Quick,
        HardwareTier::Medium => RenderQuality::Standard,
        HardwareTier::High => RenderQuality::High,
        HardwareTier::Pro => RenderQuality::Studio,
    }
}

/// The quality recommended for a hardware tier. Walkthrough and panorama are
/// never recommended; users choose them.
pub fn recommend_preset(tier: HardwareTier) -> (r: RenderQuality)
    ensures
        r == recommendation(tier),
{
    match tier {
        HardwareTier::Low => RenderQuality::Quick,
        HardwareTier::Medium => RenderQuality::Standard,
        HardwareTier::High => RenderQuality::High,
        HardwareTier::Pro => RenderQuality::Studio,
    }
}

/// An id with the `cycles_` prefix of former project files dropped where the rest
/// names a bundled preset; any other id as it is.
pub open spec fn migrated(id: Seq<char>) -> Seq<char> {
    if id == "cycles_quick"@ {
        "quick"@
    } else if id == "cycles_standard"@ {
        "standard"@
    } else if id == "cycles_high"@ {
        "high"@
    } else if id == "cycles_studio"@ {
        "studio"@
    } else if id == "cycles_walkthrough"@ {
        "walkthrough"@
    } else if id == "cycles_panorama"@ {
        "panorama"@
    } else if id == "cycles_eevee_preview"@ {
        "eevee_preview"@
    } else {
        id
    }
}

/// Maps a former `cycles_` id to the short form.
pub fn migrate_legacy_preset_id<'a>(id: &'a str) -> (r: &'a str)
    ensures
        r@ == migrated(id@),
{
    if text::same_text(id, "cycles_quick") {
        "quick"
    } else if text::same_text(id, "cycles_standard") {
        "standard"
    } else if text::same_text(id, "cycles_high") {
        "high"
    } else if text::same_text(id, "cycles_studio") {
        "studio"
    } else if text::same_text(id, "cycles_walkthrough") {
        "walkthrough"
    } else if text::same_text(id, "cycles_panorama") {
        "panorama"
    } else if text::same_text(id, "cycles_eevee_preview") {
        "eevee_preview"
    } else {
        id
    }
}

#[derive(Debug, PartialEq)]
pub enum PresetError {
    /// The id belongs to a bundled preset.
    ReservedId(String),
}

/// Bundled presets and the user's own beside them.
pub struct RenderPresetStore {
    /// The user's presets by id.
    pub custom: Catalog<RenderPreset>,
    /// The ids of the user's presets, in the order in which they were first saved.
    pub order: Vec<String>,
    /// The id of the selected preset.
    pub selected: String,
    /// A quality to recommend in place of the one that fits the hardware.
    pub recommendation_override: Option<RenderQuality>,
}

/// What a store holds.
#[verifier::ext_equal]
pub struct PresetStoreView {
    pub custom: Map<Seq<char>, RenderPreset>,
    pub order: Seq<Seq<char>>,
    pub selected: Seq<char>,
    pub recommendation_override: Option<RenderQuality>,
}

impl PresetStoreView {
    /// The order names each of the user's presets once, and nothing else.
    pub open spec fn wf(self) -> bool {
        &&& self.order.no_duplicates()
        &&& forall|id: Seq<char>| #[trigger]
            self.order.contains(id) <==> self.custom.dom().contains(id)
    }

    /// Whether each of the user's presets is kept under its own id, and none under the
    /// id of a bundled one.
    pub open spec fn filed(self) -> bool {
        forall|id: Seq<char>| #[trigger]
            self.custom.dom().contains(id) ==> self.custom[id].id@ == id && quality_with_id(
                id,
            ) is None
    }

    /// The user's presets in the order in which they were first saved.
    pub open spec fn own(self) -> Seq<RenderPresetView> {
        self.order.map_values(|id: Seq<char>| self.custom[id]@)
    }

    /// Bundled presets, then the user's in the order in which they were first saved.
    pub open spec fn listed(self) -> Seq<RenderPresetView> {
        bundled_presets() + self.own()
    }

    /// The store once a preset was saved. A new id goes to the end of the order.
    pub open spec fn inserted(self, preset: RenderPreset) -> PresetStoreView {
        PresetStoreView {
            custom: self.custom.insert(preset.id@, preset),
            order: if self.custom.dom().contains(preset.id@) {
                self.order
            } else {
                self.order.push(preset.id@)
            },
            ..self
        }
    }

    /// The store once one of the user's presets was taken out, where there is one of
    /// that id. The selection goes to standard where it was that one.
    pub open spec fn removed(self, id: Seq<char>) -> PresetStoreView {
        if self.custom.dom().contains(id) {
            PresetStoreView {
                custom: self.custom.remove(id),
                order: self.order.remove(catalog::index_in(self.order, id)),
                selected: if self.selected == id {
                    quality_id(RenderQuality::Standard)
                } else {
                    self.selected
                },
                ..self
            }
        } else {
            self
        }
    }
}

/// The ids of a list that are known, each at its first place.
pub open spec fn gathered(list: Seq<Seq<char>>, known: Set<Seq<char>>) -> Seq<Seq<char>>
    decreases list.len(),
{
    if list.len() == 0 {
        Seq::empty()
    } else {
        let before = gathered(list.drop_last(), known);
        if known.contains(list.last()) && !before.contains(list.last()) {
            before.push(list.last())
        } else {
            before
        }
    }
}

proof fn gathered_once(list: Seq<Seq<char>>, known: Set<Seq<char>>)
    ensures
        gathered(list, known).no_duplicates(),
        forall|id: Seq<char>| #[trigger]
            gathered(list, known).contains(id) <==> known.contains(id) && list.contains(id),
    decreases list.len(),
{
    let all = gathered(list, known);
    if list.len() == 0 {
        assert(all =~= Seq::empty());
    } else {
        let before = gathered(list.drop_last(), known);
        gathered_once(list.drop_last(), known);
        assert forall|id: Seq<char>| #[trigger] all.contains(id) <==> known.contains(id)
            && list.contains(id) by {
            assert(list =~= list.drop_last().push(list.last()));
            member_of_pushed(list.drop_last(), list.last(), id);
            member_of_pushed(before, list.last(), id);
            assert(before.contains(id) <==> known.contains(id) && list.drop_last().contains(id));
        }
    }
}

proof fn member_of_pushed(list: Seq<Seq<char>>, last: Seq<char>, id: Seq<char>)
    ensures
        list.push(last).contains(id) <==> list.contains(id) || id == last,
{
    let all = list.push(last);
    if list.contains(id) {
        let i = choose|i: int| 0 <= i < list.len() && list[i] == id;
        assert(all[i] == id);
    }
    assert(all[list.len() as int] == last);
    if all.contains(id) && id != last {
        let i = choose|i: int| 0 <= i < all.len() && all[i] == id;
        assert(list[i] == id);
    }
}

/// Where an id stands in a list.
fn place_of(list: &Vec<String>, id: &str) -> (r: Option<usize>)
    requires
        text::texts(list@).no_duplicates(),
    ensures
        match r {
            Some(at) => at < list@.len() && text::texts(list@)[at as int] == id@ && at
                == catalog::index_in(text::texts(list@), id@),
            None => !text::texts(list@).contains(id@),
        },
{
    let ghost ids = text::texts(list@);
    let mut i: usize = 0;
    while i < list.len()
        invariant
            i <= list@.len(),
            ids == text::texts(list@),
            ids.no_duplicates(),
            forall|k: int| 0 <= k < i ==> #[trigger] ids[k] != id@,
        decreases list@.len() - i,
    {
        assert(ids[i as int] == list@[i as int]@);
        if text::same_text(list[i].as_str(), id) {
            return Some(i);
        }
        i = i + 1;
    }
    None
}

/// Adds to `out` an id that is known and not yet in it.
fn gather(out: &mut Vec<String>, id: &String, known: &Catalog<RenderPreset>)
    requires
        known.wf(),
    ensures
        text::texts(final(out)@) == if known@.dom().contains(id@) && !text::texts(
            old(out)@,
        ).contains(id@) {
            text::texts(old(out)@).push(id@)
        } else {
            text::texts(old(out)@)
        },
{
    if known.contains_key(id.as_str()) && !text::is_among(out, id.as_str()) {
        out.push(id.clone());
        assert(text::texts(out@) =~= text::texts(old(out)@).push(id@));
    }
}

impl View for RenderPresetStore {
    type V = PresetStoreView;

    open spec fn view(&self) -> PresetStoreView {
        PresetStoreView {
            custom: self.custom@,
            order: text::texts(self.order@),
            selected: self.selected@,
            recommendation_override: self.recommendation_override,
        }
    }
}

impl RenderPresetStore {
    pub open spec fn wf(&self) -> bool {
        &&& self.custom.wf()
        &&& self@.wf()
    }

    /// Whether the selection is a bundled preset or one of the user's.
    pub open spec fn selection_known(&self) -> bool {
        quality_with_id(self.selected@) is Some || self.custom@.dom().contains(self.selected@)
    }

    /// The preset that an id names: a bundled one, else one of the user's.
    /// Former ids count as their short forms.
    pub open spec fn named(&self, id: Seq<char>) -> Option<RenderPresetView> {
        let short = migrated(id);
        match quality_with_id(short) {
            Some(q) => Some(bundled(q)),
            None => if self.custom@.dom().contains(short) {
                Some(self.custom@[short]@)
            } else {
                None
            },
        }
    }

    /// The preset in use: the selected one, standard where it is gone.
    pub open spec fn in_use(&self) -> RenderPresetView {
        match self.named(self.selected@) {
            Some(p) => p,
            None => bundled(RenderQuality::Standard),
        }
    }

    /// A store as it was saved. A former id of a preset counts as its short form. What
    /// the order leaves out follows in the order of the ids, and what it names beside the
    /// presets counts for nothing.
    pub fn from_saved(
        custom: Catalog<RenderPreset>,
        order: &Vec<String>,
        selected: &str,
        recommendation_override: Option<RenderQuality>,
    ) -> (r: RenderPresetStore)
        requires
            custom.wf(),
        ensures
            r.wf(),
            r.custom == custom,
            r@.order == gathered(text::texts(order@) + custom.key_seq(), custom@.dom()),
            r.selected@ == migrated(selected@),
            r.recommendation_override == recommendation_override,
    {
        let ghost saved = text::texts(order@);
        let ghost keys = custom.key_seq();
        let ghost whole = saved + keys;
        let mut kept: Vec<String> = Vec::new();
        assert(text::texts(kept@) =~= gathered(whole.take(0), custom@.dom()));
        let mut i: usize = 0;
        while i < order.len()
            invariant
                i <= order@.len(),
                custom.wf(),
                saved == text::texts(order@),
                whole == saved + keys,
                text::texts(kept@) == gathered(whole.take(i as int), custom@.dom()),
            decreases order@.len() - i,
        {
            gather(&mut kept, &order[i], &custom);
            assert(whole.take(i + 1).drop_last() =~= whole.take(i as int));
            i = i + 1;
        }
        let mut k: usize = 0;
        while k < custom.len()
            invariant
                k <= keys.len(),
                custom.wf(),
                keys == custom.key_seq(),
                saved.len() == order@.len(),
                whole == saved + keys,
                text::texts(kept@) == gathered(whole.take(order@.len() + k), custom@.dom()),
            decreases keys.len() - k,
        {
            gather(&mut kept, custom.key_at(k), &custom);
            assert(whole.take(order@.len() + k + 1).drop_last() =~= whole.take(order@.len() + k));
            k = k + 1;
        }
        proof {
            assert(whole.take(order@.len() + k) =~= whole);
            gathered_once(whole, custom@.dom());
            assert forall|id: Seq<char>| custom@.dom().contains(id) implies #[trigger]
                whole.contains(id) by {
                assert(keys.contains(id));
                let at = choose|at: int| 0 <= at < keys.len() && keys[at] == id;
                assert(whole[saved.len() + at] == id);
            }
        }
        RenderPresetStore {
            custom,
            order: kept,
            selected: migrate_legacy_preset_id(selected).to_owned(),
            recommendation_override,
        }
    }

    /// A store with the recommendation for a tier selected.
    pub fn for_tier(tier: HardwareTier) -> (r: RenderPresetStore)
        ensures
            r.wf(),
            r.selection_known(),
            r@.filed(),
            r.custom@ == Map::<Seq<char>, RenderPreset>::empty(),
            r@.order == Seq::<Seq<char>>::empty(),
            r.selected@ == quality_id(recommendation(tier)),
            r.recommendation_override is None,
    {
        let q: RenderQuality = recommend_preset(tier);
        proof {
            bundled_preset_is_found_by_its_id(q);
        }
        let order: Vec<String> = Vec::new();
        assert(text::texts(order@) =~= Seq::empty());
        RenderPresetStore {
            custom: Catalog::new(),
            order,
            selected: RenderPreset::from_quality(q).id,
            recommendation_override: None,
        }
    }

    /// Bundled presets, then the user's in the order in which they were first saved.
    pub fn all(&self) -> (r: Vec<RenderPreset>)
        requires
            self.wf(),
        ensures
            preset_views(r@) == self@.listed(),
    {
        let mut out: Vec<RenderPreset> = RenderPreset::defaults();
        let ghost own = self@.own();
        let mut i: usize = 0;
        proof {
            assert(bundled_presets() + own.take(0) =~= bundled_presets());
        }
        while i < self.order.len()
            invariant
                self.wf(),
                i <= self.order@.len(),
                own == self@.own(),
                preset_views(out@) == bundled_presets() + own.take(i as int),
            decreases self.order@.len() - i,
        {
            assert(self@.order[i as int] == self.order@[i as int]@);
            assert(self@.order.contains(self.order@[i as int]@));
            if let Some(preset) = self.custom.get(self.order[i].as_str()) {
                let ghost before = out@;
                out.push(preset.clone());
                proof {
                    assert(preset_views(out@) =~= preset_views(before).push(out@.last()@));
                    assert(own.take(i + 1) =~= own.take(i as int).push(own[i as int]));
                    assert(bundled_presets() + own.take(i + 1) =~= (bundled_presets() + own.take(
                        i as int,
                    )).push(own[i as int]));
                }
            }
            i = i + 1;
        }
        proof {
            assert(own.take(i as int) =~= own);
        }
        out
    }

    /// Looks a preset up by id. Bundled presets come before the user's, so none
    /// of them can be hidden.
    pub fn get(&self, id: &str) -> (r: Option<RenderPreset>)
        requires
            self.wf(),
        ensures
            match r {
                Some(p) => self.named(id@) == Some(p@),
                None => self.named(id@) is None,
            },
    {
        let short: &str = migrate_legacy_preset_id(id);
        match quality_for_id(short) {
            Some(q) => Some(RenderPreset::from_quality(q)),
            None => match self.custom.get(short) {
                Some(p) => Some(p.clone()),
                None => None,
            },
        }
    }

    /// The preset in use.
    pub fn current(&self) -> (r: RenderPreset)
        requires
            self.wf(),
        ensures
            r@ == self.in_use(),
    {
        match self.get(self.selected.as_str()) {
            Some(p) => p,
            None => RenderPreset::standard(),
        }
    }

    /// Selects a preset that exists, under its short id; another id changes
    /// nothing.
    pub fn select(&mut self, id: &str) -> (r: bool)
        requires
            old(self).wf(),
        ensures
            final(self).wf(),
            r == (old(self).named(id@) is Some),
            final(self).custom == old(self).custom,
            final(self).order == old(self).order,
            final(self).recommendation_override == old(self).recommendation_override,
            r ==> final(self).selected@ == migrated(id@) && final(self).selection_known(),
            !r ==> final(self).selected == old(self).selected,
    {
        if self.get(id).is_some() {
            self.selected = migrate_legacy_preset_id(id).to_owned();
            true
        } else {
            false
        }
    }

    /// Saves a preset under its id, replacing one of the same id. The id of a
    /// bundled preset is refused and changes nothing.
    pub fn insert_custom(&mut self, preset: RenderPreset) -> (r: Result<(), PresetError>)
        requires
            old(self).wf(),
        ensures
            final(self).wf(),
            r is Err <==> quality_with_id(preset.id@) is Some,
            r matches Err(e) ==> *final(self) == *old(self) && e == PresetError::ReservedId(
                preset.id,
            ),
            r is Ok ==> final(self)@ == old(self)@.inserted(preset),
            old(self)@.filed() ==> final(self)@.filed(),
            old(self).selection_known() ==> final(self).selection_known(),
    {
        if quality_for_id(preset.id.as_str()).is_some() {
            return Err(PresetError::ReservedId(preset.id.clone()));
        }
        let id: String = preset.id.clone();
        if !self.custom.contains_key(id.as_str()) {
            self.order.push(id.clone());
            proof {
                let before = text::texts(old(self).order@);
                assert(text::texts(self.order@) =~= before.push(id@));
                assert(!before.contains(id@));
                assert forall|k: Seq<char>| #[trigger]
                    before.push(id@).contains(k) <==> old(self).custom@.insert(
                    id@,
                    preset,
                ).dom().contains(k) by {
                    member_of_pushed(before, id@, k);
                    assert(before.contains(k) <==> old(self).custom@.dom().contains(k));
                }
            }
        }
        let replaced: Option<RenderPreset> = self.custom.insert(id, preset);
        proof {
            assert(self@ =~= old(self)@.inserted(preset));
            assert forall|k: Seq<char>| #[trigger]
                self@.order.contains(k) <==> self@.custom.dom().contains(k) by {
                assert(old(self)@.order.contains(k) <==> old(self)@.custom.dom().contains(k));
            }
        }
        Ok(())
    }

    /// Takes one of the user's presets out. The selection goes to standard where
    /// it was that one.
    pub fn remove_custom(&mut self, id: &str) -> (r: bool)
        requires
            old(self).wf(),
        ensures
            final(self).wf(),
            r == old(self).custom@.dom().contains(id@),
            !r ==> *final(self) == *old(self),
            final(self)@ == old(self)@.removed(id@),
            old(self)@.filed() ==> final(self)@.filed(),
            old(self).selection_known() ==> final(self).selection_known(),
    {
        if self.custom.remove(id).is_some() {
            proof {
                assert(old(self)@.order.contains(id@));
            }
            if let Some(at) = place_of(&self.order, id) {
                let gone: String = self.order.remove(at);
                proof {
                    let before = old(self)@.order;
                    assert(text::texts(self.order@) =~= before.remove(at as int));
                    dropped(before, at as int);
                    assert forall|k: Seq<char>| #[trigger]
                        before.remove(at as int).contains(k) <==> self.custom@.dom().contains(
                        k,
                    ) by {
                        assert(before.contains(k) <==> old(self).custom@.dom().contains(k));
                    }
                }
            }
            if text::same_text(self.selected.as_str(), id) {
                proof {
                    bundled_preset_is_found_by_its_id(RenderQuality::Standard);
                }
                self.selected = RenderPreset::standard().id;
            }
            assert(self@ =~= old(self)@.removed(id@));
            true
        } else {
            false
        }
    }

    /// The preset recommended for a tier, or the one pinned in its place.
    pub fn recommended(&self, tier: HardwareTier) -> (r: RenderPreset)
        ensures
            r@ == bundled(
                match self.recommendation_override {
                    Some(q) => q,
                    None => recommendation(tier),
                },
            ),
    {
        let quality: RenderQuality = match self.recommendation_override {
            Some(q) => q,
            None => recommend_preset(tier),
        };
        RenderPreset::from_quality(quality)
    }
}

impl Default for RenderPresetStore {
    fn default() -> (r: RenderPresetStore)
        ensures
            r.wf(),
            r.selection_known(),
            r@.filed(),
            r.custom@ == Map::<Seq<char>, RenderPreset>::empty(),
            r@.order == Seq::<Seq<char>>::empty(),
            r.selected@ == "standard"@,
            r.recommendation_override is None,
    {
        let order: Vec<String> = Vec::new();
        assert(text::texts(order@) =~= Seq::empty());
        RenderPresetStore {
            custom: Catalog::new(),
            order,
            selected: RenderPreset::standard().id,
            recommendation_override: None,
        }
    }
}

/// Taking one entry out of a list without repetitions leaves the others.
proof fn dropped(list: Seq<Seq<char>>, at: int)
    requires
        list.no_duplicates(),
        0 <= at < list.len(),
    ensures
        list.remove(at).no_duplicates(),
        forall|id: Seq<char>| #[trigger]
            list.remove(at).contains(id) <==> list.contains(id) && id != list[at],
{
    let rest = list.remove(at);
    assert forall|i: int, j: int| 0 <= i < j < rest.len() implies rest[i] != rest[j] by {
        let a = if i < at {
            i
        } else {
            i + 1
        };
        let b = if j < at {
            j
        } else {
            j + 1
        };
        assert(rest[i] == list[a] && rest[j] == list[b]);
    }
    assert forall|id: Seq<char>| #[trigger] rest.contains(id) <==> list.contains(id) && id
        != list[at] by {
        if rest.contains(id) {
            let i = choose|i: int| 0 <= i < rest.len() && rest[i] == id;
            let a = if i < at {
                i
            } else {
                i + 1
            };
            assert(list[a] == id);
        }
        if list.contains(id) && id != list[at] {
            let i = choose|i: int| 0 <= i < list.len() && list[i] == id;
            let a = if i < at {
                i
            } else {
                i - 1
            };
            assert(rest[a] == id);
        }
    }
}

proof fn ids_differ()
    ensures
        forall|a: RenderQuality, b: RenderQuality|
            a != b ==> #[trigger] quality_id(a) != #[trigger] quality_id(b),
{
    reveal_strlit("eevee_preview");
    reveal_strlit("quick");
    reveal_strlit("standard");
    reveal_strlit("high");
    reveal_strlit("studio");
    reveal_strlit("walkthrough");
    reveal_strlit("panorama");
    assert forall|a: RenderQuality, b: RenderQuality| a != b implies #[trigger] quality_id(a)
        != #[trigger] quality_id(b) by {
        if quality_id(a).len() == quality_id(b).len() {
            assert(quality_id(a)[0] != quality_id(b)[0]);
        }
    }
}

/// The bundled presets have ids of their own, and each is found by its id.
pub proof fn bundled_preset_is_found_by_its_id(q: RenderQuality)
    ensures
        quality_with_id(quality_id(q)) == Some(q),
        bundled(q).config.quality == q,
        forall|other: RenderQuality| other != q ==> #[trigger] quality_id(other) != quality_id(q),
{
    ids_differ();
    assert(quality_id(RenderQuality::Eevee) == "eevee_preview"@);
    assert(quality_id(RenderQuality::Quick) == "quick"@);
    assert(quality_id(RenderQuality::Standard) == "standard"@);
    assert(quality_id(RenderQuality::High) == "high"@);
    assert(quality_id(RenderQuality::Studio) == "studio"@);
    assert(quality_id(RenderQuality::Walkthrough) == "walkthrough"@);
    assert(quality_id(RenderQuality::Panorama) == "panorama"@);
}

/// Better still-image qualities take more samples.
pub proof fn samples_rise_with_quality()
    ensures
        bundled_config(RenderQuality::Quick).samples < bundled_config(
            RenderQuality::Standard,
        ).samples,
        bundled_config(RenderQuality::Standard).samples < bundled_config(
            RenderQuality::High,
        ).samples,
        bundled_config(RenderQuality::High).samples < bundled_config(RenderQuality::Studio).samples,
{
}

/// A short id of a bundled preset is its own short form, and its former id has it
/// as short form.
pub proof fn migration_reaches_the_bundled_preset(q: RenderQuality)
    ensures
        migrated(quality_id(q)) == quality_id(q),
        migrated("cycles_"@ + quality_id(q)) == quality_id(q),
{
    reveal_strlit("cycles_");
    reveal_strlit("cycles_quick");
    reveal_strlit("cycles_standard");
    reveal_strlit("cycles_high");
    reveal_strlit("cycles_studio");
    reveal_strlit("cycles_walkthrough");
    reveal_strlit("cycles_panorama");
    reveal_strlit("cycles_eevee_preview");
    reveal_strlit("eevee_preview");
    reveal_strlit("quick");
    reveal_strlit("standard");
    reveal_strlit("high");
    reveal_strlit("studio");
    reveal_strlit("walkthrough");
    reveal_strlit("panorama");
    let old_id = "cycles_"@ + quality_id(q);
    match q {
        RenderQuality::Eevee => {
            assert(old_id =~= "cycles_eevee_preview"@);
        },
        RenderQuality::Quick => {
            assert(old_id =~= "cycles_quick"@);
        },
        RenderQuality::Standard => {
            assert(old_id =~= "cycles_standard"@);
        },
        RenderQuality::High => {
            assert(old_id =~= "cycles_high"@);
        },
        RenderQuality::Studio => {
            assert(old_id =~= "cycles_studio"@);
        },
        RenderQuality::Walkthrough => {
            assert(old_id =~= "cycles_walkthrough"@);
        },
        RenderQuality::Panorama => {
            assert(old_id =~= "cycles_panorama"@);
        },
    }
    let id = quality_id(q);
    assert(id[0] != 'c');
    assert(old_id[7] == id[0]);
}

/// Migration settles after one step.
pub proof fn migration_is_idempotent(id: Seq<char>)
    ensures
        migrated(migrated(id)) == migrated(id),
{
    if migrated(id) != id {
        migration_reaches_the_bundled_preset(RenderQuality::Eevee);
        migration_reaches_the_bundled_preset(RenderQuality::Quick);
        migration_reaches_the_bundled_preset(RenderQuality::Standard);
        migration_reaches_the_bundled_preset(RenderQuality::High);
        migration_reaches_the_bundled_preset(RenderQuality::Studio);
        migration_reaches_the_bundled_preset(RenderQuality::Walkthrough);
        migration_reaches_the_bundled_preset(RenderQuality::Panorama);
    }
}

/// Whatever users save, a bundled preset is what its id names.
pub proof fn bundled_presets_are_not_shadowed(store: RenderPresetStore, q: RenderQuality)
    ensures
        store.named(quality_id(q)) == Some(bundled(q)),
        store.named("cycles_"@ + quality_id(q)) == Some(bundled(q)),
{
    migration_reaches_the_bundled_preset(q);
    bundled_preset_is_found_by_its_id(q);
}

/// A preset saved under an id that is neither bundled nor a former one is what
/// the store then hands out for it.
pub proof fn saved_preset_is_handed_out(
    before: RenderPresetStore,
    after: RenderPresetStore,
    preset: RenderPreset,
)
    requires
        quality_with_id(preset.id@) is None,
        migrated(preset.id@) == preset.id@,
        after@ == before@.inserted(preset),
    ensures
        after.named(preset.id@) == Some(preset@),
{
}

/// A store lists the seven bundled presets first, then each of the user's once: as many
/// as it keeps, and no two of them under one id.
pub proof fn listed_presets_have_ids_of_their_own(store: PresetStoreView)
    requires
        store.wf(),
        store.filed(),
    ensures
        store.listed().len() == 7 + store.custom.dom().len(),
        forall|i: int|
            0 <= i < 7 ==> #[trigger] store.listed()[i] == bundled(every_quality()[i]),
        forall|i: int|
            7 <= i < store.listed().len() ==> store.custom.dom().contains(
                #[trigger] store.listed()[i].id,
            ) && store.listed()[i] == store.custom[store.listed()[i].id]@,
        forall|id: Seq<char>| #[trigger]
            store.custom.dom().contains(id) ==> store.listed().contains(store.custom[id]@),
        forall|i: int, j: int|
            0 <= i < j < store.listed().len() ==> (#[trigger] store.listed()[i]).id != (
            #[trigger] store.listed()[j]).id,
{
    let listed = store.listed();
    assert(store.order.to_set() =~= store.custom.dom()) by {
        assert forall|id: Seq<char>|
            store.order.to_set().contains(id) <==> store.custom.dom().contains(id) by {
            assert(store.order.contains(id) <==> store.custom.dom().contains(id));
        }
    }
    store.order.unique_seq_to_set();
    assert(bundled_presets().len() == 7);
    assert forall|i: int| 0 <= i < 7 implies #[trigger] listed[i] == bundled(every_quality()[i]) by {
        assert(listed[i] == bundled_presets()[i]);
    }
    assert forall|i: int| 7 <= i < listed.len() implies store.custom.dom().contains(
        #[trigger] listed[i].id,
    ) && listed[i] == store.custom[listed[i].id]@ && listed[i].id == store.order[i - 7] by {
        let id = store.order[i - 7];
        assert(listed[i] == store.own()[i - 7]);
        assert(store.order.contains(id));
    }
    assert forall|id: Seq<char>| #[trigger] store.custom.dom().contains(id) implies listed.contains(
        store.custom[id]@,
    ) by {
        assert(store.order.contains(id));
        let k = choose|k: int| 0 <= k < store.order.len() && store.order[k] == id;
        assert(listed[7 + k] == store.own()[k]);
    }
    assert forall|i: int, j: int| 0 <= i < j < listed.len() implies (#[trigger] listed[i]).id != (
    #[trigger] listed[j]).id by {
        if i < 7 {
            bundled_preset_is_found_by_its_id(every_quality()[i]);
            if j < 7 {
                assert(every_quality()[i] != every_quality()[j]);
            }
        } else {
            assert(store.order[i - 7] != store.order[j - 7]);
        }
    }
}

/// No bundled preset can be taken out.
pub proof fn bundled_presets_stay(store: PresetStoreView, q: RenderQuality)
    requires
        store.filed(),
    ensures
        !store.custom.dom().contains(quality_id(q)),
        store.removed(quality_id(q)) == store,
{
    bundled_preset_is_found_by_its_id(q);
}

/// Saving a preset under a new id and taking it out again leaves the store as it was,
/// where it was not the selected one.
pub proof fn removal_undoes_saving(store: PresetStoreView, preset: RenderPreset)
    requires
        store.wf(),
        !store.custom.dom().contains(preset.id@),
        store.selected != preset.id@,
    ensures
        store.inserted(preset).removed(preset.id@) == store,
{
    let id = preset.id@;
    let longer = store.order.push(id);
    assert(!store.order.contains(id));
    assert(longer[store.order.len() as int] == id);
    let at = catalog::index_in(longer, id);
    assert(0 <= at < longer.len() && longer[at] == id);
    if at < store.order.len() {
        assert(store.order[at] == id);
    }
    assert(longer.remove(at) =~= store.order);
    assert(store.custom.insert(id, preset).remove(id) =~= store.custom);
}

/// Saving a preset again under the same id keeps its place among the user's.
pub proof fn saved_again_keeps_its_place(store: PresetStoreView, preset: RenderPreset)
    requires
        store.custom.dom().contains(preset.id@),
    ensures
        store.inserted(preset).order == store.order,
        store.inserted(preset).own().len() == store.own().len(),
{
}

/// An id changes on migration only where it is a `cycles_` in front of the id of a bundled
/// preset, and then that is taken off.
pub proof fn migration_takes_a_prefix_off(id: Seq<char>)
    ensures
        migrated(id) != id ==> id == "cycles_"@ + migrated(id) && quality_with_id(migrated(id))
            is Some,
{
    reveal_strlit("cycles_");
    reveal_strlit("cycles_quick");
    reveal_strlit("cycles_standard");
    reveal_strlit("cycles_high");
    reveal_strlit("cycles_studio");
    reveal_strlit("cycles_walkthrough");
    reveal_strlit("cycles_panorama");
    reveal_strlit("cycles_eevee_preview");
    reveal_strlit("eevee_preview");
    reveal_strlit("quick");
    reveal_strlit("standard");
    reveal_strlit("high");
    reveal_strlit("studio");
    reveal_strlit("walkthrough");
    reveal_strlit("panorama");
    if migrated(id) != id {
        assert(id =~= "cycles_"@ + migrated(id));
    }
}

/// An id names a bundled preset only where it is the id of that preset.
pub proof fn bundled_ids_are_those_of_the_presets(id: Seq<char>, q: RenderQuality)
    ensures
        quality_with_id(id) == Some(q) <==> id == quality_id(q),
{
    bundled_preset_is_found_by_its_id(q);
}

/// Each quality is offered once.
pub proof fn each_quality_is_offered_once(q: RenderQuality)
    ensures
        exists|i: int| 0 <= i < every_quality().len() && #[trigger] every_quality()[i] == q,
        every_quality().no_duplicates(),
        bundled_presets().len() == every_quality().len(),
        forall|i: int|
            0 <= i < every_quality().len() ==> #[trigger] bundled_presets()[i] == bundled(
                every_quality()[i],
            ),
{
    let all = every_quality();
    match q {
        RenderQuality::Eevee => {
            assert(all[0] == q);
        },
        RenderQuality::Quick => {
            assert(all[1] == q);
        },
        RenderQuality::Standard => {
            assert(all[2] == q);
        },
        RenderQuality::High => {
            assert(all[3] == q);
        },
        RenderQuality::Studio => {
            assert(all[4] == q);
        },
        RenderQuality::Walkthrough => {
            assert(all[5] == q);
        },
        RenderQuality::Panorama => {
            assert(all[6] == q);
        },
    }
}

/// The tiers of hardware from the weakest on.
pub open spec fn strength(tier: HardwareTier) -> int {
    match tier {
        HardwareTier::Low => 0,
        HardwareTier::Medium => 1,
        HardwareTier::High => 2,
        HardwareTier::Pro => 3,
    }
}

/// Stronger hardware is recommended more samples, and no fewer pixels. Walkthroughs,
/// panoramas and the preview are never recommended.
pub proof fn stronger_hardware_is_recommended_more(weak: HardwareTier, strong: HardwareTier)
    ensures
        strength(weak) < strength(strong) ==> bundled_config(recommendation(weak)).samples
            < bundled_config(recommendation(strong)).samples,
        strength(weak) <= strength(strong) ==> bundled_config(recommendation(weak)).resolution_x
            <= bundled_config(recommendation(strong)).resolution_x && bundled_config(
            recommendation(weak),
        ).resolution_y <= bundled_config(recommendation(strong)).resolution_y,
        !(recommendation(weak) is Walkthrough) && !(recommendation(weak) is Panorama) && !(
        recommendation(weak) is Eevee),
{
}

/// Pictures are sixteen to nine, and panoramas two to one. All but the preview are
/// denoised, and what moves or is of the best quality has motion blur.
pub proof fn bundled_presets_suit_their_use(q: RenderQuality)
    ensures
        q is Panorama ==> bundled_config(q).resolution_x == 2 * bundled_config(q).resolution_y,
        !(q is Panorama) ==> 9 * bundled_config(q).resolution_x == 16 * bundled_config(
            q,
        ).resolution_y,
        bundled_config(q).denoise <==> !(q is Eevee),
        bundled_config(q).use_motion_blur <==> q is Walkthrough || q is Studio,
        bundled_config(q).use_volumetric_atmosphere <==> q is High || q is Studio || q is Panorama,
        bundled_config(q).tile_size_px == 256,
        bundled_config(q).samples >= 32,
{
}

/// Gathering takes from a list what is known, in the order of the list, where nothing is
/// listed twice; what is listed again counts for nothing.
pub proof fn gathering_keeps_the_order(list: Seq<Seq<char>>, known: Set<Seq<char>>, again: Seq<char>)
    ensures
        list.no_duplicates() ==> gathered(list, known) == list.filter(
            |id: Seq<char>| known.contains(id),
        ),
        list.contains(again) ==> gathered(list.push(again), known) == gathered(list, known),
        gathered(list, known).no_duplicates(),
        forall|id: Seq<char>| #[trigger]
            gathered(list, known).contains(id) <==> known.contains(id) && list.contains(id),
    decreases list.len(),
{
    gathered_once(list, known);
    assert(list.push(again).drop_last() =~= list);
    reveal(Seq::filter);
    if list.no_duplicates() && list.len() > 0 {
        let front = list.drop_last();
        assert(front.no_duplicates()) by {
            assert forall|i: int, j: int|
                0 <= i < front.len() && 0 <= j < front.len() && i != j implies front[i]
                != front[j] by {
                assert(list[i] != list[j]);
            }
        }
        gathering_keeps_the_order(front, known, again);
        gathered_once(front, known);
        if front.contains(list.last()) {
            let i = choose|i: int| 0 <= i < front.len() && front[i] == list.last();
            assert(list[i] != list[list.len() - 1]);
        }
    }
}

/// Taking a preset out touches no other: the others keep their settings and their order,
/// and the selection changes only where it was that preset, to standard.
pub proof fn removal_touches_one_preset(store: PresetStoreView, id: Seq<char>, other: Seq<char>)
    requires
        store.wf(),
        store.custom.dom().contains(id),
        other != id,
    ensures
        !store.removed(id).custom.dom().contains(id),
        store.removed(id).custom.dom().contains(other) <==> store.custom.dom().contains(other),
        store.custom.dom().contains(other) ==> store.removed(id).custom[other]
            == store.custom[other],
        exists|at: int|
            0 <= at < store.order.len() && #[trigger] store.order[at] == id && store.removed(
                id,
            ).order == store.order.remove(at),
        store.selected != id ==> store.removed(id).selected == store.selected,
        store.selected == id ==> store.removed(id).selected == quality_id(RenderQuality::Standard),
        store.removed(id).recommendation_override == store.recommendation_override,
{
    assert(store.order.contains(id));
    let at = catalog::index_in(store.order, id);
    let i = choose|i: int| 0 <= i < store.order.len() && store.order[i] == id;
    assert(store.order[i] == id);
    assert(0 <= at < store.order.len() && store.order[at] == id);
}

/// Saving a preset touches no other, nor the selection.
pub proof fn saving_touches_one_preset(
    store: PresetStoreView,
    preset: RenderPreset,
    other: Seq<char>,
)
    requires
        other != preset.id@,
    ensures
        store.inserted(preset).custom.dom().contains(preset.id@),
        store.inserted(preset).custom[preset.id@] == preset,
        store.inserted(preset).custom.dom().contains(other) <==> store.custom.dom().contains(other),
        store.custom.dom().contains(other) ==> store.inserted(preset).custom[other]
            == store.custom[other],
        store.inserted(preset).selected == store.selected,
        store.inserted(preset).recommendation_override == store.recommendation_override,
        store.inserted(preset).order.take(store.order.len() as int) == store.order,
        !store.custom.dom().contains(preset.id@) ==> store.inserted(preset).order.last()
            == preset.id@ && store.inserted(preset).order.len() == store.order.len() + 1,
{
    assert(store.inserted(preset).order.take(store.order.len() as int) =~= store.order);
}

} // verus!
