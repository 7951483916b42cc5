//! The material check before a render: missing, oversized and misplaced textures,
//! and parameters that no real material has.
use vstd::prelude::*;

use crate::catalog;
use crate::catalog::Catalog;
use crate::geometry::Vec3;
use crate::materials::material::{PbrMaterial, TextureRef};
use crate::scene::RenderScene;
use crate::single::Single;
use crate::text;

verus! {

/// Largest texture edge that passes by default.
pub const DEFAULT_MAX_TEXTURE_EDGE_PX: u32 = 4096;

#[derive(Debug, PartialEq)]
pub enum MaterialFinding {
    /// The asset store does not have a texture of the material.
    MissingTexture { material_id: String, channel: String, blob_hash: String },
    /// A parameter is outside the range of real materials.
    NonPbrMaterial { material_id: String, detail: String },
    /// A texture looks like one for another slot.
    SwappedChannels { material_id: String, suspected: String, actual: String },
    /// A texture has a longer edge than the budget allows.
    OversizedTexture {
        material_id: String,
        channel: String,
        width: u32,
        height: u32,
        budget: u32,
    },
}

/// What a finding says.
pub enum FindingView {
    MissingTexture { material_id: Seq<char>, channel: Seq<char>, blob_hash: Seq<char> },
    NonPbrMaterial { material_id: Seq<char>, detail: Seq<char> },
    SwappedChannels { material_id: Seq<char>, suspected: Seq<char>, actual: Seq<char> },
    OversizedTexture {
        material_id: Seq<char>,
        channel: Seq<char>,
        width: u32,
        height: u32,
        budget: u32,
    },
}

impl View for MaterialFinding {
    type V = FindingView;

    open spec fn view(&self) -> FindingView {
        match self {
            MaterialFinding::MissingTexture { material_id, channel, blob_hash } =>
                FindingView::MissingTexture {
                    material_id: material_id@,
                    channel: channel@,
                    blob_hash: blob_hash@,
                },
            MaterialFinding::NonPbrMaterial { material_id, detail } =>
                FindingView::NonPbrMaterial { material_id: material_id@, detail: detail@ },
            MaterialFinding::SwappedChannels { material_id, suspected, actual } =>
                FindingView::SwappedChannels {
                    material_id: material_id@,
                    suspected: suspected@,
                    actual: actual@,
                },
            MaterialFinding::OversizedTexture { material_id, channel, width, height, budget } =>
                FindingView::OversizedTexture {
                    material_id: material_id@,
                    channel: channel@,
                    width: *width,
                    height: *height,
                    budget: *budget,
                },
        }
    }
}

impl Clone for MaterialFinding {
    fn clone(&self) -> (r: MaterialFinding)
        ensures
            r == *self,
    {
        match self {
            MaterialFinding::MissingTexture { material_id, channel, blob_hash } =>
                MaterialFinding::MissingTexture {
                    material_id: material_id.clone(),
                    channel: channel.clone(),
                    blob_hash: blob_hash.clone(),
                },
            MaterialFinding::NonPbrMaterial { material_id, detail } =>
                MaterialFinding::NonPbrMaterial {
                    material_id: material_id.clone(),
                    detail: detail.clone(),
                },
            MaterialFinding::SwappedChannels { material_id, suspected, actual } =>
                MaterialFinding::SwappedChannels {
                    material_id: material_id.clone(),
                    suspected: suspected.clone(),
                    actual: actual.clone(),
                },
            MaterialFinding::OversizedTexture { material_id, channel, width, height, budget } =>
                MaterialFinding::OversizedTexture {
                    material_id: material_id.clone(),
                    channel: channel.clone(),
                    width: *width,
                    height: *height,
                    budget: *budget,
                },
        }
    }
}

impl FindingView {
    /// Code of the issue.
    pub open spec fn code(self) -> Seq<char> {
        match self {
            FindingView::MissingTexture { .. } => "material.missing_texture"@,
            FindingView::NonPbrMaterial { .. } => "material.non_pbr"@,
            FindingView::SwappedChannels { .. } => "material.swapped_channels"@,
            FindingView::OversizedTexture { .. } => "material.oversized_texture"@,
        }
    }

    /// How grave the issue is.
    pub open spec fn severity(self) -> Seq<char> {
        match self {
            FindingView::MissingTexture { .. } => "error"@,
            _ => "warning"@,
        }
    }

    /// The material that the finding is about.
    pub open spec fn about(self) -> Seq<char> {
        match self {
            FindingView::MissingTexture { material_id, .. } => material_id,
            FindingView::NonPbrMaterial { material_id, .. } => material_id,
            FindingView::SwappedChannels { material_id, .. } => material_id,
            FindingView::OversizedTexture { material_id, .. } => material_id,
        }
    }

    /// The finding in words.
    pub open spec fn wording(self) -> Seq<char> {
        match self {
            FindingView::MissingTexture { material_id, channel, blob_hash } => material_id + ": "@
                + channel + " texture blob `"@ + blob_hash
                + "` is missing from the asset store"@,
            FindingView::NonPbrMaterial { material_id, detail } => material_id + ": non-PBR — "@
                + detail,
            FindingView::SwappedChannels { material_id, suspected, actual } => material_id + ": "@
                + actual + " texture looks like a "@ + suspected
                + " map (likely swapped channels)"@,
            FindingView::OversizedTexture { material_id, channel, width, height, budget } =>
                material_id + ": "@ + channel + " texture "@ + text::decimal(width as nat) + "×"@
                    + text::decimal(height as nat) + " exceeds "@ + text::decimal(budget as nat)
                    + "px budget"@,
        }
    }

    /// What mends it.
    pub open spec fn remedy(self) -> Seq<char> {
        match self {
            FindingView::MissingTexture { .. } =>
                "Re-link the missing texture or re-import the asset"@,
            FindingView::NonPbrMaterial { .. } =>
                "Clamp parameter to the PBR-valid range (albedo [0..1], metallic [0..1], roughness [0..1])"@,
            FindingView::SwappedChannels { suspected, .. } => "Rebind texture to the "@ + suspected
                + " slot"@,
            FindingView::OversizedTexture { budget, .. } => "Downscale texture to ≤"@
                + text::decimal(budget as nat) + "px before re-import"@,
        }
    }
}

impl MaterialFinding {
    /// Code of the issue.
    pub fn code(&self) -> (r: &'static str)
        ensures
            r@ == self@.code(),
    {
        match self {
            MaterialFinding::MissingTexture { .. } => "material.missing_texture",
            MaterialFinding::NonPbrMaterial { .. } => "material.non_pbr",
            MaterialFinding::SwappedChannels { .. } => "material.swapped_channels",
            MaterialFinding::OversizedTexture { .. } => "material.oversized_texture",
        }
    }

    /// How grave the issue is: `warning` or `error`.
    pub fn severity(&self) -> (r: &'static str)
        ensures
            r@ == self@.severity(),
    {
        match self {
            MaterialFinding::MissingTexture { .. } => "error",
            MaterialFinding::NonPbrMaterial { .. } => "warning",
            MaterialFinding::SwappedChannels { .. } => "warning",
            MaterialFinding::OversizedTexture { .. } => "warning",
        }
    }

    /// The material that the finding is about.
    pub fn material_id(&self) -> (r: &str)
        ensures
            r@ == self@.about(),
    {
        match self {
            MaterialFinding::MissingTexture { material_id, .. } => material_id.as_str(),
            MaterialFinding::NonPbrMaterial { material_id, .. } => material_id.as_str(),
            MaterialFinding::SwappedChannels { material_id, .. } => material_id.as_str(),
            MaterialFinding::OversizedTexture { material_id, .. } => material_id.as_str(),
        }
    }

    /// The finding in words.
    pub fn message(&self) -> (r: String)
        ensures
            r@ == self@.wording(),
    {
        match self {
            MaterialFinding::MissingTexture { material_id, channel, blob_hash } => {
                let mut out: String = material_id.clone();
                out.append(": ");
                out.append(channel.as_str());
                out.append(" texture blob `");
                out.append(blob_hash.as_str());
                out.append("` is missing from the asset store");
                out
            },
            MaterialFinding::NonPbrMaterial { material_id, detail } => {
                let mut out: String = material_id.clone();
                out.append(": non-PBR — ");
                out.append(detail.as_str());
                out
            },
            MaterialFinding::SwappedChannels { material_id, suspected, actual } => {
                let mut out: String = material_id.clone();
                out.append(": ");
                out.append(actual.as_str());
                out.append(" texture looks like a ");
                out.append(suspected.as_str());
                out.append(" map (likely swapped channels)");
                out
            },
            MaterialFinding::OversizedTexture { material_id, channel, width, height, budget } => {
                let mut out: String = material_id.clone();
                out.append(": ");
                out.append(channel.as_str());
                out.append(" texture ");
                out.append(text::decimal_text(*width as u64).as_str());
                out.append("×");
                out.append(text::decimal_text(*height as u64).as_str());
                out.append(" exceeds ");
                out.append(text::decimal_text(*budget as u64).as_str());
                out.append("px budget");
                out
            },
        }
    }

    /// What mends it.
    pub fn fix(&self) -> (r: Option<String>)
        ensures
            text::text_if_any(r) == Some(self@.remedy()),
    {
        match self {
            MaterialFinding::MissingTexture { .. } => Some(
                "Re-link the missing texture or re-import the asset".to_owned(),
            ),
            MaterialFinding::NonPbrMaterial { .. } => Some(
                "Clamp parameter to the PBR-valid range (albedo [0..1], metallic [0..1], roughness [0..1])".to_owned(),
            ),
            MaterialFinding::SwappedChannels { suspected, .. } => {
                let mut out: String = text::prefixed("Rebind texture to the ", suspected.as_str());
                out.append(" slot");
                Some(out)
            },
            MaterialFinding::OversizedTexture { budget, .. } => {
                let mut out: String = text::prefixed(
                    "Downscale texture to ≤",
                    text::decimal_text(*budget as u64).as_str(),
                );
                out.append("px before re-import");
                Some(out)
            },
        }
    }
}

/// A finding as the render assistant takes it.
#[derive(Debug, PartialEq)]
pub struct AiFinding {
    pub issue: String,
    pub severity: String,
    pub code: String,
    pub material_id: String,
    pub recommendation: Option<String>,
    pub message: String,
}

/// Whether a finding for the assistant says what a finding says.
pub open spec fn relays(a: AiFinding, f: FindingView) -> bool {
    &&& a.issue@ == "other"@
    &&& a.severity@ == f.severity()
    &&& a.code@ == f.code()
    &&& a.material_id@ == f.about()
    &&& text::text_if_any(a.recommendation) == Some(f.remedy())
    &&& a.message@ == f.wording()
}

#[derive(Debug, PartialEq)]
pub struct MaterialCheckResult {
    pub findings: Vec<MaterialFinding>,
}

/// What findings say.
pub open spec fn views(findings: Seq<MaterialFinding>) -> Seq<FindingView> {
    findings.map_values(|f: MaterialFinding| f@)
}

impl MaterialCheckResult {
    /// Whether nothing was found.
    pub fn is_clean(&self) -> (r: bool)
        ensures
            r == (self.findings@.len() == 0),
    {
        self.findings.len() == 0
    }

    /// Whether any finding is an error, which blocks the render.
    pub fn has_blocking_issues(&self) -> (r: bool)
        ensures
            r == exists|i: int|
                0 <= i < self.findings@.len() && (#[trigger] self.findings@[i])@.severity()
                    == "error"@,
    {
        let mut i: usize = 0;
        while i < self.findings.len()
            invariant
                i <= self.findings@.len(),
                forall|j: int|
                    0 <= j < i ==> (#[trigger] self.findings@[j])@.severity() != "error"@,
            decreases self.findings@.len() - i,
        {
            if text::same_text(self.findings[i].severity(), "error") {
                return true;
            }
            i = i + 1;
        }
        false
    }

    /// The findings as the render assistant takes them.
    pub fn into_ai_findings(&self) -> (r: Vec<AiFinding>)
        ensures
            r@.len() == self.findings@.len(),
            forall|i: int|
                0 <= i < r@.len() ==> relays(#[trigger] r@[i], self.findings@[i]@),
    {
        let mut out: Vec<AiFinding> = Vec::new();
        let mut i: usize = 0;
        while i < self.findings.len()
            invariant
                i <= self.findings@.len(),
                out@.len() == i,
                forall|j: int| 0 <= j < i ==> relays(#[trigger] out@[j], self.findings@[j]@),
            decreases self.findings@.len() - i,
        {
            let f: &MaterialFinding = &self.findings[i];
            out.push(
                AiFinding {
                    issue: "other".to_owned(),
                    severity: f.severity().to_owned(),
                    code: f.code().to_owned(),
                    material_id: f.material_id().to_owned(),
                    recommendation: f.fix(),
                    message: f.message(),
                },
            );
            i = i + 1;
        }
        out
    }
}

/// What the check tolerates.
#[derive(Clone, Copy, Debug, PartialEq, Eq, Structural)]
pub struct CheckMaterialsOptions {
    pub max_texture_edge_px: u32,
    /// Whether to look for textures in the wrong slot.
    pub enable_swap_heuristic: bool,
}

impl Default for CheckMaterialsOptions {
    fn default() -> (r: CheckMaterialsOptions)
        ensures
            r.max_texture_edge_px == DEFAULT_MAX_TEXTURE_EDGE_PX,
            r.enable_swap_heuristic,
    {
        CheckMaterialsOptions {
            max_texture_edge_px: DEFAULT_MAX_TEXTURE_EDGE_PX,
            enable_swap_heuristic: true,
        }
    }
}

/// The slot that a texture imported for a channel belongs in, for the channel
/// names that importers are known to use.
pub open spec fn slot_for(channel: Seq<char>) -> Option<Seq<char>> {
    if channel == "normal"@ {
        Some("normal"@)
    } else if channel == "albedo"@ || channel == "base_color"@ || channel == "diffuse"@ {
        Some("albedo"@)
    } else if channel == "metallic_roughness"@ || channel == "orm"@ {
        Some("metallic_roughness"@)
    } else if channel == "ao"@ || channel == "ambient_occlusion"@ {
        Some("ao"@)
    } else if channel == "emissive"@ {
        Some("emissive"@)
    } else {
        None
    }
}

fn known_slot(channel: &str) -> (r: Option<&'static str>)
    ensures
        (match r {
            Some(s) => Some(s@),
            None => None,
        }) == slot_for(channel@),
{
    if text::same_text(channel, "normal") {
        Some("normal")
    } else if text::same_text(channel, "albedo") || text::same_text(channel, "base_color")
        || text::same_text(channel, "diffuse") {
        Some("albedo")
    } else if text::same_text(channel, "metallic_roughness") || text::same_text(channel, "orm") {
        Some("metallic_roughness")
    } else if text::same_text(channel, "ao") || text::same_text(channel, "ambient_occlusion") {
        Some("ao")
    } else if text::same_text(channel, "emissive") {
        Some("emissive")
    } else {
        None
    }
}

/// The other slot that a texture in `slot` looks made for, upper and lower case
/// alike; nothing for a texture without a channel or of an unknown one.
pub open spec fn suspected_slot(channel: Seq<char>, slot: Seq<char>) -> Option<Seq<char>> {
    if channel.len() == 0 || text::ascii_lowered(channel) == text::ascii_lowered(slot) {
        None
    } else {
        match slot_for(text::ascii_lowered(channel)) {
            Some(s) => if s == slot {
                None
            } else {
                Some(s)
            },
            None => None,
        }
    }
}

/// The other slot that a texture in `slot_name` looks made for.
pub fn detect_channel_swap(tex: &TextureRef, slot_name: &str) -> (r: Option<&'static str>)
    ensures
        (match r {
            Some(s) => Some(s@),
            None => None,
        }) == suspected_slot(tex.channel@, slot_name@),
{
    if tex.channel.as_str().is_empty() {
        return None;
    }
    let channel: String = text::ascii_lower_text(tex.channel.as_str());
    let slot: String = text::ascii_lower_text(slot_name);
    if text::same_text(channel.as_str(), slot.as_str()) {
        return None;
    }
    match known_slot(channel.as_str()) {
        Some(s) => if text::same_text(s, slot_name) {
            None
        } else {
            Some(s)
        },
        None => None,
    }
}

/// A finding, where there is one.
pub open spec fn when(found: bool, f: FindingView) -> Seq<FindingView> {
    if found {
        seq![f]
    } else {
        Seq::empty()
    }
}

/// What is wrong with the texture in a slot.
pub open spec fn slot_findings(
    id: Seq<char>,
    texture: Option<TextureRef>,
    slot: Seq<char>,
    known: Seq<Seq<char>>,
    opts: CheckMaterialsOptions,
) -> Seq<FindingView> {
    match texture {
        None => Seq::empty(),
        Some(t) => when(
            !known.contains(t.blob_hash@),
            FindingView::MissingTexture {
                material_id: id,
                channel: slot,
                blob_hash: t.blob_hash@,
            },
        ) + when(
            t.width > opts.max_texture_edge_px || t.height > opts.max_texture_edge_px,
            FindingView::OversizedTexture {
                material_id: id,
                channel: slot,
                width: t.width,
                height: t.height,
                budget: opts.max_texture_edge_px,
            },
        ) + when(
            opts.enable_swap_heuristic && suspected_slot(t.channel@, slot) is Some,
            FindingView::SwappedChannels {
                material_id: id,
                suspected: suspected_slot(t.channel@, slot)->0,
                actual: slot,
            },
        ),
    }
}

/// Whether a number lies in a range, its ends included.
pub open spec fn between(lo: Single, v: Single, hi: Single) -> bool {
    lo.at_most(v) && v.at_most(hi)
}

/// Whether a number lies from 0 to 1.
pub open spec fn fraction(v: Single) -> bool {
    between(Single { bits: 0 }, v, Single { bits: 0x3f80_0000 })
}

fn is_fraction(v: Single) -> (r: bool)
    ensures
        r == fraction(v),
{
    Single::zero().le(v) && v.le(Single::one())
}

/// Whether numbers can be written out, and always the same way.
pub open spec fn steady_text<P: Fn(Single) -> String>(show: P) -> bool {
    &&& forall|x: Single| #[trigger] show.requires((x,))
    &&& forall|x: Single, r: String, s: String| #[trigger]
        show.ensures((x,), r) && #[trigger] show.ensures((x,), s) ==> r@ == s@
}

/// A number written out.
pub open spec fn shown<P: Fn(Single) -> String>(show: P, x: Single) -> Seq<char> {
    (choose|t: String| show.ensures((x,), t))@
}

/// A color written out.
pub open spec fn color_text<D: Fn(Single) -> String>(show_part: D, c: Vec3) -> Seq<char> {
    "["@ + shown(show_part, c.x) + ", "@ + shown(show_part, c.y) + ", "@ + shown(show_part, c.z)
        + "]"@
}

/// A finding on the parameters of a material.
pub open spec fn unreal(id: Seq<char>, found: bool, detail: Seq<char>) -> Seq<FindingView> {
    when(found, FindingView::NonPbrMaterial { material_id: id, detail })
}

/// What is wrong with the parameters of a material.
pub open spec fn parameter_findings<P: Fn(Single) -> String, D: Fn(Single) -> String>(
    m: PbrMaterial,
    show: P,
    show_part: D,
) -> Seq<FindingView> {
    let half = Single { bits: 0x3f00_0000 };  // 0.5
    unreal(
        m.id@,
        !(fraction(m.albedo.x) && fraction(m.albedo.y) && fraction(m.albedo.z)),
        "albedo "@ + color_text(show_part, m.albedo) + " out of [0,1]"@,
    ) + unreal(
        m.id@,
        !fraction(m.metallic),
        "metallic "@ + shown(show, m.metallic) + " out of [0,1]"@,
    ) + unreal(
        m.id@,
        !fraction(m.roughness),
        "roughness "@ + shown(show, m.roughness) + " out of [0,1]"@,
    ) + unreal(
        m.id@,
        half.below(m.metallic) && half.below(m.transmission),
        "metallic + transmissive is not a real PBR material"@,
    ) + unreal(
        m.id@,
        !between(Single { bits: 0x3f80_0000 }, m.ior, Single { bits: 0x4040_0000 }),  // 1, 3
        "ior "@ + shown(show, m.ior) + " is outside the realistic 1.0..=3.0 range"@,
    )
}

/// What is wrong with the textures of a material, slot by slot.
pub open spec fn texture_findings(
    m: PbrMaterial,
    known: Seq<Seq<char>>,
    opts: CheckMaterialsOptions,
) -> Seq<FindingView> {
    slot_findings(m.id@, m.albedo_map, "albedo"@, known, opts) + slot_findings(
        m.id@,
        m.normal_map,
        "normal"@,
        known,
        opts,
    ) + slot_findings(m.id@, m.metallic_roughness_map, "metallic_roughness"@, known, opts)
        + slot_findings(m.id@, m.ao_map, "ao"@, known, opts) + slot_findings(
        m.id@,
        m.emissive_map,
        "emissive"@,
        known,
        opts,
    )
}

/// What is wrong with a material: its textures, then its parameters.
pub open spec fn material_findings<P: Fn(Single) -> String, D: Fn(Single) -> String>(
    m: PbrMaterial,
    known: Seq<Seq<char>>,
    opts: CheckMaterialsOptions,
    show: P,
    show_part: D,
) -> Seq<FindingView> {
    texture_findings(m, known, opts) + parameter_findings(m, show, show_part)
}

fn push_slot_findings(
    id: &String,
    texture: &Option<TextureRef>,
    slot: &str,
    known_blob_hashes: &Vec<String>,
    opts: &CheckMaterialsOptions,
    findings: &mut Vec<MaterialFinding>,
)
    ensures
        views(final(findings)@) == views(old(findings)@) + slot_findings(
            id@,
            *texture,
            slot@,
            text::texts(known_blob_hashes@),
            *opts,
        ),
{
    let ghost before = views(findings@);
    if let Some(t) = texture {
        if !text::is_among(known_blob_hashes, t.blob_hash.as_str()) {
            findings.push(
                MaterialFinding::MissingTexture {
                    material_id: id.clone(),
                    channel: slot.to_owned(),
                    blob_hash: t.blob_hash.clone(),
                },
            );
        }
        if t.width > opts.max_texture_edge_px || t.height > opts.max_texture_edge_px {
            findings.push(
                MaterialFinding::OversizedTexture {
                    material_id: id.clone(),
                    channel: slot.to_owned(),
                    width: t.width,
                    height: t.height,
                    budget: opts.max_texture_edge_px,
                },
            );
        }
        if opts.enable_swap_heuristic {
            if let Some(suspected) = detect_channel_swap(t, slot) {
                findings.push(
                    MaterialFinding::SwappedChannels {
                        material_id: id.clone(),
                        suspected: suspected.to_owned(),
                        actual: slot.to_owned(),
                    },
                );
            }
        }
    }
    proof {
        assert(views(findings@) =~= before + slot_findings(
            id@,
            *texture,
            slot@,
            text::texts(known_blob_hashes@),
            *opts,
        ));
    }
}

fn push_unreal(id: &String, found: bool, detail: String, findings: &mut Vec<MaterialFinding>)
    ensures
        views(final(findings)@) == views(old(findings)@) + unreal(id@, found, detail@),
{
    let ghost before = views(findings@);
    if found {
        findings.push(MaterialFinding::NonPbrMaterial { material_id: id.clone(), detail });
    }
    proof {
        assert(views(findings@) =~= before + unreal(id@, found, detail@));
    }
}

fn named_number<P: Fn(Single) -> String>(
    name: &str,
    show: &P,
    v: Single,
    rest: &str,
) -> (r: String)
    requires
        steady_text(*show),
    ensures
        r@ == name@ + shown(*show, v) + rest@,
{
    let number: String = show(v);
    let mut out: String = text::prefixed(name, number.as_str());
    out.append(rest);
    out
}

fn named_color<D: Fn(Single) -> String>(show_part: &D, c: Vec3) -> (r: String)
    requires
        steady_text(*show_part),
    ensures
        r@ == "albedo "@ + color_text(*show_part, c) + " out of [0,1]"@,
{
    let x: String = show_part(c.x);
    let y: String = show_part(c.y);
    let z: String = show_part(c.z);
    let mut color: String = text::prefixed("[", x.as_str());
    color.append(", ");
    color.append(y.as_str());
    color.append(", ");
    color.append(z.as_str());
    color.append("]");
    let mut out: String = text::prefixed("albedo ", color.as_str());
    out.append(" out of [0,1]");
    out
}

proof fn regroup(a: Seq<FindingView>, b: Seq<FindingView>, c: Seq<FindingView>)
    ensures
        (a + b) + c == a + (b + c),
{
    assert((a + b) + c =~= a + (b + c));
}

fn push_texture_findings(
    mat: &PbrMaterial,
    known_blob_hashes: &Vec<String>,
    opts: &CheckMaterialsOptions,
    findings: &mut Vec<MaterialFinding>,
)
    ensures
        views(final(findings)@) == views(old(findings)@) + texture_findings(
            *mat,
            text::texts(known_blob_hashes@),
            *opts,
        ),
{
    let ghost before = views(findings@);
    let ghost known = text::texts(known_blob_hashes@);
    let hashes: &Vec<String> = known_blob_hashes;
    push_slot_findings(&mat.id, &mat.albedo_map, "albedo", hashes, opts, findings);
    push_slot_findings(&mat.id, &mat.normal_map, "normal", hashes, opts, findings);
    push_slot_findings(
        &mat.id,
        &mat.metallic_roughness_map,
        "metallic_roughness",
        hashes,
        opts,
        findings,
    );
    push_slot_findings(&mat.id, &mat.ao_map, "ao", hashes, opts, findings);
    push_slot_findings(&mat.id, &mat.emissive_map, "emissive", hashes, opts, findings);
    proof {
        let a = slot_findings(mat.id@, mat.albedo_map, "albedo"@, known, *opts);
        let b = slot_findings(mat.id@, mat.normal_map, "normal"@, known, *opts);
        let c = slot_findings(
            mat.id@,
            mat.metallic_roughness_map,
            "metallic_roughness"@,
            known,
            *opts,
        );
        let d = slot_findings(mat.id@, mat.ao_map, "ao"@, known, *opts);
        let e = slot_findings(mat.id@, mat.emissive_map, "emissive"@, known, *opts);
        regroup(before, a, b);
        regroup(before, a + b, c);
        regroup(before, a + b + c, d);
        regroup(before, a + b + c + d, e);
    }
}

fn push_parameter_findings<P: Fn(Single) -> String, D: Fn(Single) -> String>(
    mat: &PbrMaterial,
    show: &P,
    show_part: &D,
    findings: &mut Vec<MaterialFinding>,
)
    requires
        steady_text(*show),
        steady_text(*show_part),
    ensures
        views(final(findings)@) == views(old(findings)@) + parameter_findings(
            *mat,
            *show,
            *show_part,
        ),
{
    let ghost before = views(findings@);
    let albedo_real: bool = is_fraction(mat.albedo.x) && is_fraction(mat.albedo.y) && is_fraction(
        mat.albedo.z,
    );
    let albedo_text: String = named_color(show_part, mat.albedo);
    let metallic_real: bool = is_fraction(mat.metallic);
    let metallic_text: String = named_number("metallic ", show, mat.metallic, " out of [0,1]");
    let roughness_real: bool = is_fraction(mat.roughness);
    let roughness_text: String = named_number("roughness ", show, mat.roughness, " out of [0,1]");
    let half: Single = Single::from_bits(0x3f00_0000);  // 0.5
    let clear_metal: bool = half.lt(mat.metallic) && half.lt(mat.transmission);
    let clear_text: String = "metallic + transmissive is not a real PBR material".to_owned();
    let ior_real: bool = Single::one().le(mat.ior) && mat.ior.le(Single::from_bits(0x4040_0000));
    let ior_text: String = named_number(
        "ior ",
        show,
        mat.ior,
        " is outside the realistic 1.0..=3.0 range",
    );
    let ghost a = unreal(mat.id@, !albedo_real, albedo_text@);
    let ghost b = unreal(mat.id@, !metallic_real, metallic_text@);
    let ghost c = unreal(mat.id@, !roughness_real, roughness_text@);
    let ghost d = unreal(mat.id@, clear_metal, clear_text@);
    let ghost e = unreal(mat.id@, !ior_real, ior_text@);
    proof {
        assert(parameter_findings(*mat, *show, *show_part) == a + b + c + d + e);
        regroup(before, a, b);
        regroup(before, a + b, c);
        regroup(before, a + b + c, d);
        regroup(before, a + b + c + d, e);
    }
    push_unreal(&mat.id, !albedo_real, albedo_text, findings);
    push_unreal(&mat.id, !metallic_real, metallic_text, findings);
    push_unreal(&mat.id, !roughness_real, roughness_text, findings);
    push_unreal(&mat.id, clear_metal, clear_text, findings);
    push_unreal(&mat.id, !ior_real, ior_text, findings);
}

/// Appends what is wrong with a material.
///
/// `show` writes out a number, and `show_part` a number within a color.
pub fn push_material_findings<P: Fn(Single) -> String, D: Fn(Single) -> String>(
    mat: &PbrMaterial,
    known_blob_hashes: &Vec<String>,
    opts: &CheckMaterialsOptions,
    show: &P,
    show_part: &D,
    findings: &mut Vec<MaterialFinding>,
)
    requires
        steady_text(*show),
        steady_text(*show_part),
    ensures
        views(final(findings)@) == views(old(findings)@) + material_findings(
            *mat,
            text::texts(known_blob_hashes@),
            *opts,
            *show,
            *show_part,
        ),
{
    let ghost before = views(findings@);
    push_texture_findings(mat, known_blob_hashes, opts, findings);
    push_parameter_findings(mat, show, show_part, findings);
    proof {
        regroup(
            before,
            texture_findings(*mat, text::texts(known_blob_hashes@), *opts),
            parameter_findings(*mat, *show, *show_part),
        );
    }
}

/// Whether a mesh of the scene has the material.
pub open spec fn used(scene: RenderScene, id: Seq<char>) -> bool {
    exists|i: int|
        0 <= i < scene.meshes@.len() && text::text_if_any(
            (#[trigger] scene.meshes@[i]).material_id,
        ) == Some(id)
}

/// The last material of an id.
pub open spec fn material_of(materials: Seq<PbrMaterial>, id: Seq<char>) -> Option<PbrMaterial>
    decreases materials.len(),
{
    if materials.len() == 0 {
        None
    } else if materials.last().id@ == id {
        Some(materials.last())
    } else {
        material_of(materials.drop_last(), id)
    }
}

fn find_material<'a>(materials: &'a Vec<PbrMaterial>, id: &str) -> (r: Option<&'a PbrMaterial>)
    ensures
        (match r {
            Some(m) => Some(*m),
            None => None,
        }) == material_of(materials@, id@),
{
    let mut n: usize = materials.len();
    proof {
        assert(materials@.take(n as int) =~= materials@);
    }
    while n > 0
        invariant
            n <= materials@.len(),
            material_of(materials@.take(n as int), id@) == material_of(materials@, id@),
        decreases n,
    {
        proof {
            let all = materials@.take(n as int);
            assert(all.last() == materials@[n - 1]);
            assert(all.drop_last() =~= materials@.take(n - 1));
        }
        if text::same_text(materials[n - 1].id.as_str(), id) {
            return Some(&materials[n - 1]);
        }
        n = n - 1;
    }
    None
}

/// What the check finds on one material id.
pub open spec fn findings_on<P: Fn(Single) -> String, D: Fn(Single) -> String>(
    id: Seq<char>,
    materials: Seq<PbrMaterial>,
    known: Seq<Seq<char>>,
    opts: CheckMaterialsOptions,
    show: P,
    show_part: D,
) -> Seq<FindingView> {
    match material_of(materials, id) {
        Some(m) => material_findings(m, known, opts, show, show_part),
        None => seq![
            FindingView::MissingTexture {
                material_id: id,
                channel: "<material>"@,
                blob_hash: "<unknown>"@,
            },
        ],
    }
}

/// What the check finds on material ids, one after the other.
pub open spec fn findings_for<P: Fn(Single) -> String, D: Fn(Single) -> String>(
    ids: Seq<Seq<char>>,
    materials: Seq<PbrMaterial>,
    known: Seq<Seq<char>>,
    opts: CheckMaterialsOptions,
    show: P,
    show_part: D,
) -> Seq<FindingView>
    decreases ids.len(),
{
    if ids.len() == 0 {
        Seq::empty()
    } else {
        findings_for(ids.drop_last(), materials, known, opts, show, show_part) + findings_on(
            ids.last(),
            materials,
            known,
            opts,
            show,
            show_part,
        )
    }
}

/// Whether a list holds the material ids of a scene, each once, in order.
pub open spec fn used_ids(ids: Seq<Seq<char>>, scene: RenderScene) -> bool {
    &&& catalog::ascending(ids)
    &&& forall|id: Seq<char>| #[trigger] ids.contains(id) <==> used(scene, id)
}

/// Whether findings are those of the check.
pub open spec fn checked<P: Fn(Single) -> String, D: Fn(Single) -> String>(
    found: Seq<FindingView>,
    scene: RenderScene,
    materials: Seq<PbrMaterial>,
    known: Seq<Seq<char>>,
    opts: CheckMaterialsOptions,
    show: P,
    show_part: D,
) -> bool {
    exists|ids: Seq<Seq<char>>| #[trigger]
        used_ids(ids, scene) && found == findings_for(
            ids,
            materials,
            known,
            opts,
            show,
            show_part,
        )
}

fn collect_used_ids(scene: &RenderScene) -> (r: Catalog<bool>)
    ensures
        r.wf(),
        used_ids(r.key_seq(), *scene),
{
    let mut ids: Catalog<bool> = Catalog::new();
    let mut i: usize = 0;
    while i < scene.meshes.len()
        invariant
            i <= scene.meshes@.len(),
            ids.wf(),
            forall|id: Seq<char>| #[trigger]
                ids@.dom().contains(id) <==> exists|j: int|
                    0 <= j < i && text::text_if_any((#[trigger] scene.meshes@[j]).material_id)
                        == Some(id),
        decreases scene.meshes@.len() - i,
    {
        if let Some(id) = &scene.meshes[i].material_id {
            ids.insert(id.clone(), true);
        }
        proof {
            assert(text::text_if_any(scene.meshes@[i as int].material_id)
                == text::text_if_any(scene.meshes@[i as int].material_id));
        }
        i = i + 1;
    }
    proof {
        assert forall|id: Seq<char>| #[trigger] ids.key_seq().contains(id) <==> used(
            *scene,
            id,
        ) by {
            assert(ids@.dom().contains(id) <==> ids.key_seq().contains(id));
        }
    }
    ids
}

/// Checks the materials that a scene uses, in the order of their ids. An id without
/// a material is itself a finding.
///
/// `show` writes out a number, and `show_part` a number within a color.
pub fn check_materials<P: Fn(Single) -> String, D: Fn(Single) -> String>(
    scene: &RenderScene,
    materials: &Vec<PbrMaterial>,
    known_blob_hashes: &Vec<String>,
    opts: &CheckMaterialsOptions,
    show: P,
    show_part: D,
) -> (r: MaterialCheckResult)
    requires
        steady_text(show),
        steady_text(show_part),
    ensures
        checked(
            views(r.findings@),
            *scene,
            materials@,
            text::texts(known_blob_hashes@),
            *opts,
            show,
            show_part,
        ),
{
    let ids: Catalog<bool> = collect_used_ids(scene);
    let ghost known = text::texts(known_blob_hashes@);
    let ghost keys = ids.key_seq();
    let mut findings: Vec<MaterialFinding> = Vec::new();
    let mut i: usize = 0;
    proof {
        assert(keys.take(0) =~= Seq::empty());
        assert(views(findings@) =~= Seq::empty());
    }
    while i < ids.len()
        invariant
            i <= keys.len(),
            ids.wf(),
            keys == ids.key_seq(),
            known == text::texts(known_blob_hashes@),
            steady_text(show),
            steady_text(show_part),
            views(findings@) == findings_for(
                keys.take(i as int),
                materials@,
                known,
                *opts,
                show,
                show_part,
            ),
        decreases keys.len() - i,
    {
        let id: &String = ids.key_at(i);
        let ghost before = views(findings@);
        proof {
            assert(keys.take(i + 1).drop_last() =~= keys.take(i as int));
            assert(keys.take(i + 1).last() == id@);
        }
        match find_material(materials, id.as_str()) {
            Some(m) => {
                push_material_findings(
                    m,
                    known_blob_hashes,
                    opts,
                    &show,
                    &show_part,
                    &mut findings,
                );
            },
            None => {
                findings.push(
                    MaterialFinding::MissingTexture {
                        material_id: id.clone(),
                        channel: "<material>".to_owned(),
                        blob_hash: "<unknown>".to_owned(),
                    },
                );
                proof {
                    assert(views(findings@) =~= before + findings_on(
                        id@,
                        materials@,
                        known,
                        *opts,
                        show,
                        show_part,
                    ));
                }
            },
        }
        i = i + 1;
    }
    proof {
        assert(keys.take(i as int) =~= keys);
        assert(used_ids(keys, *scene));
    }
    MaterialCheckResult { findings }
}

/// Whether findings are all about one material.
pub open spec fn all_about(found: Seq<FindingView>, id: Seq<char>) -> bool {
    forall|k: int| 0 <= k < found.len() ==> (#[trigger] found[k]).about() == id
}

proof fn joined_about(a: Seq<FindingView>, b: Seq<FindingView>, id: Seq<char>)
    requires
        all_about(a, id),
        all_about(b, id),
    ensures
        all_about(a + b, id),
{
    assert forall|k: int| 0 <= k < (a + b).len() implies (#[trigger] (a + b)[k]).about() == id by {
        if k < a.len() {
            assert((a + b)[k] == a[k]);
        } else {
            assert((a + b)[k] == b[k - a.len()]);
        }
    }
}

proof fn slot_findings_about(
    id: Seq<char>,
    texture: Option<TextureRef>,
    slot: Seq<char>,
    known: Seq<Seq<char>>,
    opts: CheckMaterialsOptions,
)
    ensures
        all_about(slot_findings(id, texture, slot, known, opts), id),
{
}

proof fn parameter_findings_about<P: Fn(Single) -> String, D: Fn(Single) -> String>(
    m: PbrMaterial,
    show: P,
    show_part: D,
)
    ensures
        all_about(parameter_findings(m, show, show_part), m.id@),
{
}

proof fn material_findings_about<P: Fn(Single) -> String, D: Fn(Single) -> String>(
    m: PbrMaterial,
    known: Seq<Seq<char>>,
    opts: CheckMaterialsOptions,
    show: P,
    show_part: D,
)
    ensures
        all_about(material_findings(m, known, opts, show, show_part), m.id@),
{
    let id = m.id@;
    let a = slot_findings(id, m.albedo_map, "albedo"@, known, opts);
    let b = slot_findings(id, m.normal_map, "normal"@, known, opts);
    let c = slot_findings(id, m.metallic_roughness_map, "metallic_roughness"@, known, opts);
    let d = slot_findings(id, m.ao_map, "ao"@, known, opts);
    let e = slot_findings(id, m.emissive_map, "emissive"@, known, opts);
    slot_findings_about(id, m.albedo_map, "albedo"@, known, opts);
    slot_findings_about(id, m.normal_map, "normal"@, known, opts);
    slot_findings_about(id, m.metallic_roughness_map, "metallic_roughness"@, known, opts);
    slot_findings_about(id, m.ao_map, "ao"@, known, opts);
    slot_findings_about(id, m.emissive_map, "emissive"@, known, opts);
    parameter_findings_about(m, show, show_part);
    joined_about(a, b, id);
    joined_about(a + b, c, id);
    joined_about(a + b + c, d, id);
    joined_about(a + b + c + d, e, id);
    joined_about(texture_findings(m, known, opts), parameter_findings(m, show, show_part), id);
}

proof fn material_of_has_id(materials: Seq<PbrMaterial>, id: Seq<char>)
    ensures
        material_of(materials, id) matches Some(m) ==> m.id@ == id,
    decreases materials.len(),
{
    if materials.len() > 0 {
        material_of_has_id(materials.drop_last(), id);
    }
}

proof fn findings_for_ids<P: Fn(Single) -> String, D: Fn(Single) -> String>(
    ids: Seq<Seq<char>>,
    materials: Seq<PbrMaterial>,
    known: Seq<Seq<char>>,
    opts: CheckMaterialsOptions,
    show: P,
    show_part: D,
)
    ensures
        ({
            let found = findings_for(ids, materials, known, opts, show, show_part);
            forall|k: int| 0 <= k < found.len() ==> ids.contains((#[trigger] found[k]).about())
        }),
    decreases ids.len(),
{
    if ids.len() > 0 {
        let front = ids.drop_last();
        let before = findings_for(front, materials, known, opts, show, show_part);
        let last = findings_on(ids.last(), materials, known, opts, show, show_part);
        findings_for_ids(front, materials, known, opts, show, show_part);
        material_of_has_id(materials, ids.last());
        if let Some(m) = material_of(materials, ids.last()) {
            material_findings_about(m, known, opts, show, show_part);
        }
        let found = findings_for(ids, materials, known, opts, show, show_part);
        assert forall|k: int| 0 <= k < found.len() implies ids.contains(
            (#[trigger] found[k]).about(),
        ) by {
            if k < before.len() {
                assert(found[k] == before[k]);
                let j = choose|j: int| 0 <= j < front.len() && front[j] == before[k].about();
                assert(ids[j] == front[j]);
            } else {
                assert(found[k] == last[k - before.len()]);
                assert(ids[ids.len() - 1] == found[k].about());
            }
        }
    }
}

/// Only materials that the scene uses are inspected.
pub proof fn findings_are_about_used_materials<P: Fn(Single) -> String, D: Fn(Single) -> String>(
    found: Seq<FindingView>,
    scene: RenderScene,
    materials: Seq<PbrMaterial>,
    known: Seq<Seq<char>>,
    opts: CheckMaterialsOptions,
    show: P,
    show_part: D,
)
    requires
        checked(found, scene, materials, known, opts, show, show_part),
    ensures
        forall|k: int| 0 <= k < found.len() ==> used(scene, (#[trigger] found[k]).about()),
{
    let ids = choose|ids: Seq<Seq<char>>| #[trigger]
        used_ids(ids, scene) && found == findings_for(
            ids,
            materials,
            known,
            opts,
            show,
            show_part,
        );
    findings_for_ids(ids, materials, known, opts, show, show_part);
}

/// A used material that is not among the materials blocks the render.
pub proof fn missing_material_is_found<P: Fn(Single) -> String, D: Fn(Single) -> String>(
    found: Seq<FindingView>,
    scene: RenderScene,
    materials: Seq<PbrMaterial>,
    known: Seq<Seq<char>>,
    opts: CheckMaterialsOptions,
    show: P,
    show_part: D,
    id: Seq<char>,
)
    requires
        checked(found, scene, materials, known, opts, show, show_part),
        used(scene, id),
        material_of(materials, id) is None,
    ensures
        exists|k: int|
            0 <= k < found.len() && (#[trigger] found[k]).about() == id && found[k].severity()
                == "error"@,
{
    let ids = choose|ids: Seq<Seq<char>>| #[trigger]
        used_ids(ids, scene) && found == findings_for(
            ids,
            materials,
            known,
            opts,
            show,
            show_part,
        );
    assert(ids.contains(id));
    missing_id_is_found(ids, materials, known, opts, show, show_part, id);
}

proof fn missing_id_is_found<P: Fn(Single) -> String, D: Fn(Single) -> String>(
    ids: Seq<Seq<char>>,
    materials: Seq<PbrMaterial>,
    known: Seq<Seq<char>>,
    opts: CheckMaterialsOptions,
    show: P,
    show_part: D,
    id: Seq<char>,
)
    requires
        ids.contains(id),
        material_of(materials, id) is None,
    ensures
        exists|k: int|
            0 <= k < findings_for(ids, materials, known, opts, show, show_part).len() && (
            #[trigger] findings_for(ids, materials, known, opts, show, show_part)[k]).about() == id
                && findings_for(ids, materials, known, opts, show, show_part)[k].severity()
                == "error"@,
    decreases ids.len(),
{
    let found = findings_for(ids, materials, known, opts, show, show_part);
    let front = ids.drop_last();
    let before = findings_for(front, materials, known, opts, show, show_part);
    if ids.last() == id {
        let k = before.len() as int;
        assert(found[k].about() == id);
    } else {
        let j = choose|j: int| 0 <= j < ids.len() && ids[j] == id;
        assert(front[j] == id);
        missing_id_is_found(front, materials, known, opts, show, show_part, id);
        let k = choose|k: int|
            0 <= k < before.len() && (#[trigger] before[k]).about() == id && before[k].severity()
                == "error"@;
        assert(found[k] == before[k]);
    }
}

/// The material of an id is one of the materials, of that id; where there is none, no
/// material has the id.
proof fn material_found(materials: Seq<PbrMaterial>, id: Seq<char>)
    ensures
        match material_of(materials, id) {
            Some(m) => materials.contains(m) && m.id@ == id,
            None => forall|m: PbrMaterial| #[trigger] materials.contains(m) ==> m.id@ != id,
        },
    decreases materials.len(),
{
    if materials.len() > 0 {
        let front = materials.drop_last();
        if materials.last().id@ == id {
            assert(materials[materials.len() - 1] == materials.last());
        } else {
            material_found(front, id);
            match material_of(front, id) {
                Some(m) => {
                    let i = choose|i: int| 0 <= i < front.len() && front[i] == m;
                    assert(materials[i] == m);
                },
                None => {
                    assert forall|m: PbrMaterial| #[trigger] materials.contains(m) implies m.id@
                        != id by {
                        let i = choose|i: int| 0 <= i < materials.len() && materials[i] == m;
                        if i < front.len() {
                            assert(front[i] == m);
                            assert(front.contains(m));
                        }
                    }
                },
            }
        }
    }
}

proof fn same_ids_same_findings<P: Fn(Single) -> String, D: Fn(Single) -> String>(
    ids: Seq<Seq<char>>,
    a: Seq<PbrMaterial>,
    b: Seq<PbrMaterial>,
    known: Seq<Seq<char>>,
    opts: CheckMaterialsOptions,
    show: P,
    show_part: D,
)
    requires
        forall|id: Seq<char>| #[trigger]
            ids.contains(id) ==> material_of(a, id) == material_of(b, id),
    ensures
        findings_for(ids, a, known, opts, show, show_part) == findings_for(
            ids,
            b,
            known,
            opts,
            show,
            show_part,
        ),
    decreases ids.len(),
{
    if ids.len() > 0 {
        let front = ids.drop_last();
        assert(ids.contains(ids[ids.len() - 1]));
        assert forall|id: Seq<char>| #[trigger] front.contains(id) implies material_of(a, id)
            == material_of(b, id) by {
            let i = choose|i: int| 0 <= i < front.len() && front[i] == id;
            assert(ids[i] == id);
            assert(ids.contains(id));
        }
        same_ids_same_findings(front, a, b, known, opts, show, show_part);
    }
}

/// The check depends on which material ids are used and on what has those ids, and on
/// nothing else of the scene and the materials.
pub proof fn check_depends_on_the_used_materials<
    P: Fn(Single) -> String,
    D: Fn(Single) -> String,
>(
    found_a: Seq<FindingView>,
    scene_a: RenderScene,
    a: Seq<PbrMaterial>,
    found_b: Seq<FindingView>,
    scene_b: RenderScene,
    b: Seq<PbrMaterial>,
    known: Seq<Seq<char>>,
    opts: CheckMaterialsOptions,
    show: P,
    show_part: D,
)
    requires
        checked(found_a, scene_a, a, known, opts, show, show_part),
        checked(found_b, scene_b, b, known, opts, show, show_part),
        forall|id: Seq<char>| #[trigger] used(scene_a, id) <==> used(scene_b, id),
        forall|id: Seq<char>| #[trigger]
            used(scene_a, id) ==> material_of(a, id) == material_of(b, id),
    ensures
        found_a == found_b,
{
    let p = choose|ids: Seq<Seq<char>>| #[trigger]
        used_ids(ids, scene_a) && found_a == findings_for(ids, a, known, opts, show, show_part);
    let q = choose|ids: Seq<Seq<char>>| #[trigger]
        used_ids(ids, scene_b) && found_b == findings_for(ids, b, known, opts, show, show_part);
    assert forall|id: Seq<char>| #[trigger] p.contains(id) <==> q.contains(id) by {
        assert(used(scene_a, id) <==> used(scene_b, id));
        assert(q.contains(id) <==> used(scene_b, id));
    }
    catalog::ascending_lists_agree(p, q);
    same_ids_same_findings(p, a, b, known, opts, show, show_part);
}

/// Reordering and repeating the meshes of a scene leaves the findings as they are.
pub proof fn order_of_meshes_does_not_matter<P: Fn(Single) -> String, D: Fn(Single) -> String>(
    found_a: Seq<FindingView>,
    scene_a: RenderScene,
    found_b: Seq<FindingView>,
    scene_b: RenderScene,
    materials: Seq<PbrMaterial>,
    known: Seq<Seq<char>>,
    opts: CheckMaterialsOptions,
    show: P,
    show_part: D,
)
    requires
        checked(found_a, scene_a, materials, known, opts, show, show_part),
        checked(found_b, scene_b, materials, known, opts, show, show_part),
        scene_a.meshes@.to_set() == scene_b.meshes@.to_set(),
    ensures
        found_a == found_b,
{
    assert forall|id: Seq<char>| #[trigger] used(scene_a, id) <==> used(scene_b, id) by {
        if used(scene_a, id) {
            meshes_shared(scene_a, scene_b, id);
        }
        if used(scene_b, id) {
            meshes_shared(scene_b, scene_a, id);
        }
    }
    check_depends_on_the_used_materials(
        found_a,
        scene_a,
        materials,
        found_b,
        scene_b,
        materials,
        known,
        opts,
        show,
        show_part,
    );
}

proof fn meshes_shared(a: RenderScene, b: RenderScene, id: Seq<char>)
    requires
        a.meshes@.to_set() == b.meshes@.to_set(),
        used(a, id),
    ensures
        used(b, id),
{
    let i = choose|i: int|
        0 <= i < a.meshes@.len() && text::text_if_any((#[trigger] a.meshes@[i]).material_id)
            == Some(id);
    let mesh = a.meshes@[i];
    assert(a.meshes@.contains(mesh));
    assert(a.meshes@.to_set().contains(mesh));
    assert(b.meshes@.to_set().contains(mesh));
    assert(b.meshes@.contains(mesh));
    let j = choose|j: int| 0 <= j < b.meshes@.len() && b.meshes@[j] == mesh;
    assert(text::text_if_any(b.meshes@[j].material_id) == Some(id));
}

/// Reordering materials whose ids differ leaves the findings as they are.
pub proof fn order_of_materials_does_not_matter<P: Fn(Single) -> String, D: Fn(Single) -> String>(
    found_a: Seq<FindingView>,
    a: Seq<PbrMaterial>,
    found_b: Seq<FindingView>,
    b: Seq<PbrMaterial>,
    scene: RenderScene,
    known: Seq<Seq<char>>,
    opts: CheckMaterialsOptions,
    show: P,
    show_part: D,
)
    requires
        checked(found_a, scene, a, known, opts, show, show_part),
        checked(found_b, scene, b, known, opts, show, show_part),
        a.to_multiset() == b.to_multiset(),
        forall|i: int, j: int|
            0 <= i < j < a.len() ==> (#[trigger] a[i]).id@ != (#[trigger] a[j]).id@,
    ensures
        found_a == found_b,
{
    broadcast use vstd::seq_lib::group_to_multiset_ensures;

    assert forall|id: Seq<char>| #[trigger] used(scene, id) implies material_of(a, id)
        == material_of(b, id) by {
        material_found(a, id);
        material_found(b, id);
        if let Some(m) = material_of(b, id) {
            assert(b.to_multiset().count(m) > 0);
            assert(a.contains(m));
            let n = material_of(a, id)->0;
            let i = choose|i: int| 0 <= i < a.len() && a[i] == m;
            let j = choose|j: int| 0 <= j < a.len() && a[j] == n;
            assert(a[i].id@ == a[j].id@);
            if i < j {
                assert(a[i].id@ != a[j].id@);
            }
            if j < i {
                assert(a[j].id@ != a[i].id@);
            }
        } else if let Some(m) = material_of(a, id) {
            assert(a.to_multiset().count(m) > 0);
            assert(b.contains(m));
        }
    }
    check_depends_on_the_used_materials(
        found_a,
        scene,
        a,
        found_b,
        scene,
        b,
        known,
        opts,
        show,
        show_part,
    );
}

/// A material that no mesh has leaves the findings as they are, wherever it is added.
pub proof fn unused_materials_do_not_matter<P: Fn(Single) -> String, D: Fn(Single) -> String>(
    found: Seq<FindingView>,
    found_more: Seq<FindingView>,
    scene: RenderScene,
    materials: Seq<PbrMaterial>,
    extra: PbrMaterial,
    at: int,
    known: Seq<Seq<char>>,
    opts: CheckMaterialsOptions,
    show: P,
    show_part: D,
)
    requires
        checked(found, scene, materials, known, opts, show, show_part),
        checked(found_more, scene, materials.insert(at, extra), known, opts, show, show_part),
        0 <= at <= materials.len(),
        !used(scene, extra.id@),
    ensures
        found == found_more,
{
    let more = materials.insert(at, extra);
    assert forall|id: Seq<char>| #[trigger] used(scene, id) implies material_of(materials, id)
        == material_of(more, id) by {
        other_materials_stay(materials, extra, at, id);
    }
    check_depends_on_the_used_materials(
        found,
        scene,
        materials,
        found_more,
        scene,
        more,
        known,
        opts,
        show,
        show_part,
    );
}

proof fn other_materials_stay(
    materials: Seq<PbrMaterial>,
    extra: PbrMaterial,
    at: int,
    id: Seq<char>,
)
    requires
        0 <= at <= materials.len(),
        extra.id@ != id,
    ensures
        material_of(materials.insert(at, extra), id) == material_of(materials, id),
    decreases materials.len(),
{
    let more = materials.insert(at, extra);
    if at == materials.len() {
        assert(more.drop_last() =~= materials);
    } else {
        assert(more.drop_last() =~= materials.drop_last().insert(at, extra));
        assert(more.last() == materials.last());
        other_materials_stay(materials.drop_last(), extra, at, id);
    }
}

/// Findings come in the order of the ids that they are about.
pub proof fn findings_come_in_the_order_of_ids<P: Fn(Single) -> String, D: Fn(Single) -> String>(
    found: Seq<FindingView>,
    scene: RenderScene,
    materials: Seq<PbrMaterial>,
    known: Seq<Seq<char>>,
    opts: CheckMaterialsOptions,
    show: P,
    show_part: D,
)
    requires
        checked(found, scene, materials, known, opts, show, show_part),
    ensures
        forall|i: int, j: int|
            0 <= i < j < found.len() ==> !text::precedes(
                (#[trigger] found[j]).about(),
                (#[trigger] found[i]).about(),
            ),
{
    let ids = choose|ids: Seq<Seq<char>>| #[trigger]
        used_ids(ids, scene) && found == findings_for(
            ids,
            materials,
            known,
            opts,
            show,
            show_part,
        );
    findings_follow_ids(ids, materials, known, opts, show, show_part);
}

proof fn findings_follow_ids<P: Fn(Single) -> String, D: Fn(Single) -> String>(
    ids: Seq<Seq<char>>,
    materials: Seq<PbrMaterial>,
    known: Seq<Seq<char>>,
    opts: CheckMaterialsOptions,
    show: P,
    show_part: D,
)
    requires
        catalog::ascending(ids),
    ensures
        ({
            let found = findings_for(ids, materials, known, opts, show, show_part);
            forall|i: int, j: int|
                0 <= i < j < found.len() ==> !text::precedes(
                    (#[trigger] found[j]).about(),
                    (#[trigger] found[i]).about(),
                )
        }),
    decreases ids.len(),
{
    if ids.len() > 0 {
        let front = ids.drop_last();
        let id = ids.last();
        let before = findings_for(front, materials, known, opts, show, show_part);
        let new = findings_on(id, materials, known, opts, show, show_part);
        let found = before + new;
        findings_follow_ids(front, materials, known, opts, show, show_part);
        findings_for_ids(front, materials, known, opts, show, show_part);
        material_of_has_id(materials, id);
        if let Some(m) = material_of(materials, id) {
            material_findings_about(m, known, opts, show, show_part);
        }
        assert(all_about(new, id));
        assert forall|i: int, j: int| 0 <= i < j < found.len() implies !text::precedes(
            (#[trigger] found[j]).about(),
            (#[trigger] found[i]).about(),
        ) by {
            if j < before.len() {
                assert(before[i] == found[i] && before[j] == found[j]);
            } else {
                assert(new[j - before.len()].about() == id);
                if i < before.len() {
                    assert(front.contains(before[i].about()));
                    let k = choose|k: int| 0 <= k < front.len() && front[k] == before[i].about();
                    assert(text::precedes(ids[k], ids[ids.len() - 1]));
                    text::precedes_asymmetric(found[i].about(), id);
                } else {
                    assert(new[i - before.len()].about() == id);
                    text::precedes_irreflexive(id);
                }
            }
        }
    }
}

/// A texture is missing exactly if its blob is not known, too large exactly if one of its
/// edges is over the budget, and swapped exactly if it looks made for another slot and the
/// check looks for that. A slot without a texture has no findings.
pub proof fn textures_are_found_out(
    id: Seq<char>,
    texture: Option<TextureRef>,
    slot: Seq<char>,
    known: Seq<Seq<char>>,
    opts: CheckMaterialsOptions,
)
    ensures
        ({
            let found = slot_findings(id, texture, slot, known, opts);
            match texture {
                None => found.len() == 0,
                Some(t) => {
                    &&& (exists|k: int| 0 <= k < found.len() && (#[trigger] found[k]) is MissingTexture)
                        <==> !known.contains(t.blob_hash@)
                    &&& (exists|k: int|
                        0 <= k < found.len() && (#[trigger] found[k]) is OversizedTexture)
                        <==> t.width > opts.max_texture_edge_px || t.height
                        > opts.max_texture_edge_px
                    &&& (exists|k: int|
                        0 <= k < found.len() && (#[trigger] found[k]) is SwappedChannels)
                        <==> opts.enable_swap_heuristic && suspected_slot(t.channel@, slot) is Some
                    &&& forall|k: int|
                        0 <= k < found.len() ==> match #[trigger] found[k] {
                            FindingView::MissingTexture { material_id, channel, blob_hash } =>
                                material_id == id && channel == slot && blob_hash == t.blob_hash@,
                            FindingView::OversizedTexture {
                                material_id,
                                channel,
                                width,
                                height,
                                budget,
                            } => material_id == id && channel == slot && width == t.width && height
                                == t.height && budget == opts.max_texture_edge_px,
                            FindingView::SwappedChannels { material_id, suspected, actual } =>
                                material_id == id && actual == slot && suspected != slot,
                            FindingView::NonPbrMaterial { .. } => false,
                        }
                },
            }
        }),
{
    if let Some(t) = texture {
        let found = slot_findings(id, texture, slot, known, opts);
        let missing = FindingView::MissingTexture {
            material_id: id,
            channel: slot,
            blob_hash: t.blob_hash@,
        };
        let large = FindingView::OversizedTexture {
            material_id: id,
            channel: slot,
            width: t.width,
            height: t.height,
            budget: opts.max_texture_edge_px,
        };
        let swapped = FindingView::SwappedChannels {
            material_id: id,
            suspected: suspected_slot(t.channel@, slot)->0,
            actual: slot,
        };
        let a = when(!known.contains(t.blob_hash@), missing);
        let b = when(
            t.width > opts.max_texture_edge_px || t.height > opts.max_texture_edge_px,
            large,
        );
        let c = when(
            opts.enable_swap_heuristic && suspected_slot(t.channel@, slot) is Some,
            swapped,
        );
        assert(found == a + b + c);
        if a.len() > 0 {
            assert(found[0] == missing);
        }
        if b.len() > 0 {
            assert(found[a.len() as int] == large);
        }
        if c.len() > 0 {
            assert(found[(a.len() + b.len()) as int] == swapped);
        }
    }
}

/// A texture looks made for a slot where its channel is one of the names of that slot,
/// whatever the case, and is not in that slot already.
pub proof fn channels_belong_in_their_slot(channel: Seq<char>, other: Seq<char>, slot: Seq<char>)
    ensures
        slot_for("albedo"@) == Some("albedo"@) && slot_for("base_color"@) == Some("albedo"@)
            && slot_for("diffuse"@) == Some("albedo"@),
        slot_for("normal"@) == Some("normal"@),
        slot_for("metallic_roughness"@) == Some("metallic_roughness"@) && slot_for("orm"@)
            == Some("metallic_roughness"@),
        slot_for("ao"@) == Some("ao"@) && slot_for("ambient_occlusion"@) == Some("ao"@),
        slot_for("emissive"@) == Some("emissive"@),
        text::ascii_lowered(channel) == text::ascii_lowered(other) ==> suspected_slot(channel, slot)
            == suspected_slot(other, slot),
        text::ascii_lowered(channel) == text::ascii_lowered(slot) ==> suspected_slot(channel, slot)
            is None,
        suspected_slot(channel, slot) matches Some(s) ==> s != slot && slot_for(
            text::ascii_lowered(channel),
        ) == Some(s) && slot_for(s) == Some(s),
        channel.len() > 0 && slot_for(text::ascii_lowered(channel)) is Some && slot_for(
            text::ascii_lowered(channel),
        ) != Some(slot) && text::ascii_lowered(channel) != text::ascii_lowered(slot)
            ==> suspected_slot(channel, slot) is Some,
{
    reveal_strlit("albedo");
    reveal_strlit("base_color");
    reveal_strlit("diffuse");
    reveal_strlit("normal");
    reveal_strlit("metallic_roughness");
    reveal_strlit("orm");
    reveal_strlit("ao");
    reveal_strlit("ambient_occlusion");
    reveal_strlit("emissive");
    assert("albedo"@[0] == 'a' && "base_color"@[0] == 'b' && "diffuse"@[0] == 'd');
    assert("normal"@[0] == 'n' && "metallic_roughness"@[0] == 'm' && "orm"@[0] == 'o');
    assert("ao"@.len() == 2 && "ambient_occlusion"@.len() == 17 && "albedo"@.len() == 6);
    assert("emissive"@[0] == 'e');
    if text::ascii_lowered(channel) == text::ascii_lowered(other) {
        assert(channel.len() == text::ascii_lowered(channel).len());
        assert(other.len() == text::ascii_lowered(other).len());
    }
}

/// The map of a material that a slot holds.
pub open spec fn map_in(m: PbrMaterial, slot: int) -> (Option<TextureRef>, Seq<char>) {
    if slot == 0 {
        (m.albedo_map, "albedo"@)
    } else if slot == 1 {
        (m.normal_map, "normal"@)
    } else if slot == 2 {
        (m.metallic_roughness_map, "metallic_roughness"@)
    } else if slot == 3 {
        (m.ao_map, "ao"@)
    } else {
        (m.emissive_map, "emissive"@)
    }
}

/// Every map of a material is looked at, under the name of its own slot: each finding on
/// one of its slots is a finding on the material, and the material has no others on its
/// textures.
pub proof fn every_map_is_looked_at(
    m: PbrMaterial,
    known: Seq<Seq<char>>,
    opts: CheckMaterialsOptions,
    f: FindingView,
)
    ensures
        texture_findings(m, known, opts).contains(f) <==> exists|slot: int|
            0 <= slot < 5 && slot_findings(
                m.id@,
                (#[trigger] map_in(m, slot)).0,
                map_in(m, slot).1,
                known,
                opts,
            ).contains(f),
{
    let a = slot_findings(m.id@, m.albedo_map, "albedo"@, known, opts);
    let b = slot_findings(m.id@, m.normal_map, "normal"@, known, opts);
    let c = slot_findings(m.id@, m.metallic_roughness_map, "metallic_roughness"@, known, opts);
    let d = slot_findings(m.id@, m.ao_map, "ao"@, known, opts);
    let e = slot_findings(m.id@, m.emissive_map, "emissive"@, known, opts);
    among_either(a, b, f);
    among_either(a + b, c, f);
    among_either(a + b + c, d, f);
    among_either(a + b + c + d, e, f);
    assert(map_in(m, 0) == (m.albedo_map, "albedo"@));
    assert(map_in(m, 1) == (m.normal_map, "normal"@));
    assert(map_in(m, 2) == (m.metallic_roughness_map, "metallic_roughness"@));
    assert(map_in(m, 3) == (m.ao_map, "ao"@));
    assert(map_in(m, 4) == (m.emissive_map, "emissive"@));
}

proof fn among_either(a: Seq<FindingView>, b: Seq<FindingView>, f: FindingView)
    ensures
        (a + b).contains(f) <==> a.contains(f) || b.contains(f),
{
    if a.contains(f) {
        let i = choose|i: int| 0 <= i < a.len() && a[i] == f;
        assert((a + b)[i] == f);
    }
    if b.contains(f) {
        let i = choose|i: int| 0 <= i < b.len() && b[i] == f;
        assert((a + b)[a.len() + i] == f);
    }
}

/// The parameters of a material are found sound exactly if its color, metalness and
/// roughness lie from 0 to 1, it is not at once more than half metal and more than half
/// transparent, and its refractive index lies from 1 to 3.
pub proof fn sound_parameters_have_no_findings<P: Fn(Single) -> String, D: Fn(Single) -> String>(
    m: PbrMaterial,
    show: P,
    show_part: D,
)
    ensures
        ({
            let zero = Single { bits: 0 };
            let half = Single { bits: 0x3f00_0000 };
            let one = Single { bits: 0x3f80_0000 };
            let three = Single { bits: 0x4040_0000 };
            parameter_findings(m, show, show_part).len() == 0 <==> {
                &&& zero.at_most(m.albedo.x) && m.albedo.x.at_most(one)
                &&& zero.at_most(m.albedo.y) && m.albedo.y.at_most(one)
                &&& zero.at_most(m.albedo.z) && m.albedo.z.at_most(one)
                &&& zero.at_most(m.metallic) && m.metallic.at_most(one)
                &&& zero.at_most(m.roughness) && m.roughness.at_most(one)
                &&& !(half.below(m.metallic) && half.below(m.transmission))
                &&& one.at_most(m.ior) && m.ior.at_most(three)
            }
        }),
{
}

/// A finding on a parameter that is out of its range shows the value of that parameter.
pub proof fn findings_show_the_value<P: Fn(Single) -> String, D: Fn(Single) -> String>(
    m: PbrMaterial,
    show: P,
    show_part: D,
)
    ensures
        ({
            let found = parameter_findings(m, show, show_part);
            let says = |detail: Seq<char>|
                found.contains(FindingView::NonPbrMaterial { material_id: m.id@, detail });
            &&& !fraction(m.albedo.x) || !fraction(m.albedo.y) || !fraction(m.albedo.z) ==> says(
                "albedo "@ + ("["@ + shown(show_part, m.albedo.x) + ", "@ + shown(
                    show_part,
                    m.albedo.y,
                ) + ", "@ + shown(show_part, m.albedo.z) + "]"@) + " out of [0,1]"@,
            )
            &&& !fraction(m.metallic) ==> says(
                "metallic "@ + shown(show, m.metallic) + " out of [0,1]"@,
            )
            &&& !fraction(m.roughness) ==> says(
                "roughness "@ + shown(show, m.roughness) + " out of [0,1]"@,
            )
            &&& !between(Single { bits: 0x3f80_0000 }, m.ior, Single { bits: 0x4040_0000 }) ==> says(
                "ior "@ + shown(show, m.ior) + " is outside the realistic 1.0..=3.0 range"@,
            )
        }),
{
    let half = Single { bits: 0x3f00_0000 };
    let p = unreal(
        m.id@,
        !(fraction(m.albedo.x) && fraction(m.albedo.y) && fraction(m.albedo.z)),
        "albedo "@ + color_text(show_part, m.albedo) + " out of [0,1]"@,
    );
    let q = unreal(
        m.id@,
        !fraction(m.metallic),
        "metallic "@ + shown(show, m.metallic) + " out of [0,1]"@,
    );
    let r = unreal(
        m.id@,
        !fraction(m.roughness),
        "roughness "@ + shown(show, m.roughness) + " out of [0,1]"@,
    );
    let s = unreal(
        m.id@,
        half.below(m.metallic) && half.below(m.transmission),
        "metallic + transmissive is not a real PBR material"@,
    );
    let t = unreal(
        m.id@,
        !between(Single { bits: 0x3f80_0000 }, m.ior, Single { bits: 0x4040_0000 }),
        "ior "@ + shown(show, m.ior) + " is outside the realistic 1.0..=3.0 range"@,
    );
    let found = parameter_findings(m, show, show_part);
    assert(found == p + q + r + s + t);
    if p.len() > 0 {
        assert(found[0] == p[0]);
    }
    if q.len() > 0 {
        assert(found[p.len() as int] == q[0]);
    }
    if r.len() > 0 {
        assert(found[(p.len() + q.len()) as int] == r[0]);
    }
    if t.len() > 0 {
        assert(found[(p.len() + q.len() + r.len() + s.len()) as int] == t[0]);
    }
}

/// A material as it is new has nothing that the check would find.
pub proof fn new_materials_are_sound<P: Fn(Single) -> String, D: Fn(Single) -> String>(
    m: PbrMaterial,
    known: Seq<Seq<char>>,
    opts: CheckMaterialsOptions,
    show: P,
    show_part: D,
)
    requires
        m@ == crate::materials::material::plain(m.id@, m.name@),
    ensures
        material_findings(m, known, opts, show, show_part).len() == 0,
{
    assert(m@.albedo == m.albedo && m@.metallic == m.metallic && m@.roughness == m.roughness);
    assert(m@.ior == m.ior && m@.transmission == m.transmission);
    assert(m@.albedo_map == m.albedo_map && m@.normal_map == m.normal_map);
    assert(m@.metallic_roughness_map == m.metallic_roughness_map);
    assert(m@.ao_map == m.ao_map && m@.emissive_map == m.emissive_map);
    sound_parameters_have_no_findings(m, show, show_part);
}

/// Of materials that share an id the last counts.
pub proof fn the_last_material_of_an_id_counts(
    materials: Seq<PbrMaterial>,
    id: Seq<char>,
    at: int,
)
    requires
        0 <= at < materials.len(),
        materials[at].id@ == id,
        forall|i: int| at < i < materials.len() ==> (#[trigger] materials[i]).id@ != id,
    ensures
        material_of(materials, id) == Some(materials[at]),
    decreases materials.len(),
{
    if at < materials.len() - 1 {
        assert(materials[materials.len() - 1].id@ != id);
        the_last_material_of_an_id_counts(materials.drop_last(), id, at);
    }
}

/// Only what is missing keeps a scene from being rendered, and every finding in words
/// starts with the material it is about.
pub proof fn words_start_with_the_material(f: FindingView)
    ensures
        f.severity() == "error"@ <==> f is MissingTexture,
        f.wording().len() >= f.about().len(),
        f.wording().take(f.about().len() as int) == f.about(),
{
    reveal_strlit("error");
    reveal_strlit("warning");
    assert("error"@.len() == 5 && "warning"@.len() == 7);
    assert(f.wording().take(f.about().len() as int) =~= f.about());
}

/// A finding on a swapped texture advises the slot it looks made for, and one on a texture
/// that is too large names its size and the budget.
pub proof fn advice_names_what_to_do(
    id: Seq<char>,
    suspected: Seq<char>,
    actual: Seq<char>,
    width: u32,
    height: u32,
    budget: u32,
)
    ensures
        text::contains(
            (FindingView::SwappedChannels { material_id: id, suspected, actual }).remedy(),
            suspected,
        ),
        text::contains(
            (FindingView::SwappedChannels { material_id: id, suspected, actual }).wording(),
            actual,
        ),
        text::contains(
            (FindingView::OversizedTexture {
                material_id: id,
                channel: actual,
                width,
                height,
                budget,
            }).remedy(),
            text::decimal(budget as nat),
        ),
        text::contains(
            (FindingView::OversizedTexture {
                material_id: id,
                channel: actual,
                width,
                height,
                budget,
            }).wording(),
            text::decimal(width as nat) + "×"@ + text::decimal(height as nat),
        ),
{
    let swapped = FindingView::SwappedChannels { material_id: id, suspected, actual };
    let large = FindingView::OversizedTexture {
        material_id: id,
        channel: actual,
        width,
        height,
        budget,
    };
    let a = "Rebind texture to the "@;
    assert(swapped.remedy() == a + suspected + " slot"@);
    assert(text::part_at(swapped.remedy(), suspected, a.len() as int)) by {
        assert(swapped.remedy().subrange(
            a.len() as int,
            (a.len() + suspected.len()) as int,
        ) =~= suspected);
    }
    let b = id + ": "@;
    assert(text::part_at(swapped.wording(), actual, b.len() as int)) by {
        assert(swapped.wording().subrange(
            b.len() as int,
            (b.len() + actual.len()) as int,
        ) =~= actual);
    }
    let c = "Downscale texture to ≤"@;
    let n = text::decimal(budget as nat);
    assert(text::part_at(large.remedy(), n, c.len() as int)) by {
        assert(large.remedy().subrange(c.len() as int, (c.len() + n.len()) as int) =~= n);
    }
    let d = id + ": "@ + actual + " texture "@;
    let size = text::decimal(width as nat) + "×"@ + text::decimal(height as nat);
    assert(text::part_at(large.wording(), size, d.len() as int)) by {
        assert(large.wording().subrange(d.len() as int, (d.len() + size.len()) as int) =~= size);
    }
}

/// Findings have one code exactly if they are of one kind.
pub proof fn codes_tell_kinds_apart(a: FindingView, b: FindingView)
    ensures
        a.code() == b.code() <==> (a is MissingTexture && b is MissingTexture) || (
        a is NonPbrMaterial && b is NonPbrMaterial) || (a is SwappedChannels && b is SwappedChannels)
            || (a is OversizedTexture && b is OversizedTexture),
{
    reveal_strlit("material.missing_texture");
    reveal_strlit("material.non_pbr");
    reveal_strlit("material.swapped_channels");
    reveal_strlit("material.oversized_texture");
    assert("material.missing_texture"@[9] == 'm' && "material.non_pbr"@[9] == 'n');
    assert("material.swapped_channels"@[9] == 's' && "material.oversized_texture"@[9] == 'o');
}

} // verus!
