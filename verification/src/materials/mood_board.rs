//! Mood boards: the swatches, the palette and the style tags of a room.
use vstd::prelude::*;

use crate::arithmetic;
use crate::catalog;
use crate::catalog::Catalog;
use crate::geometry::Vec3;
use crate::materials::material::PbrMaterial;
use crate::order;
use crate::order::Ranked;
use crate::single::Single;
use crate::text;
use crate::text::{placing, Placing};

verus! {

/// Most swatches on one page.
pub const MAX_SWATCHES_PER_PAGE: usize = 12;

/// Most swatches on one board.
pub const MAX_SWATCHES: usize = 96;

/// Steps into which each color channel is divided for the palette.
pub const PALETTE_BIN_COUNT: u32 = 6;

/// One material on the board.
#[derive(Debug, PartialEq)]
pub struct MoodSwatch {
    pub material_id: String,
    pub name: String,
    pub albedo: Vec3,
    /// First style tag of the material.
    pub style_tag: Option<String>,
}

impl Clone for MoodSwatch {
    fn clone(&self) -> (r: MoodSwatch)
        ensures
            r == *self,
    {
        MoodSwatch {
            material_id: self.material_id.clone(),
            name: self.name.clone(),
            albedo: self.albedo,
            style_tag: text::copy_if_any(&self.style_tag),
        }
    }
}

/// One color of the palette and the materials that it comes from.
#[derive(Debug, PartialEq)]
pub struct PaletteEntry {
    pub albedo: Vec3,
    pub material_ids: Vec<String>,
    /// Number of materials that it comes from.
    pub count: u32,
}

/// What an entry of the palette holds.
pub struct PaletteView {
    pub albedo: Vec3,
    pub material_ids: Seq<String>,
    pub count: u32,
}

impl View for PaletteEntry {
    type V = PaletteView;

    open spec fn view(&self) -> PaletteView {
        PaletteView {
            albedo: self.albedo,
            material_ids: self.material_ids@,
            count: self.count,
        }
    }
}

impl Clone for PaletteEntry {
    fn clone(&self) -> (r: PaletteEntry)
        ensures
            r@ == self@,
    {
        PaletteEntry {
            albedo: self.albedo,
            material_ids: text::copy_texts(&self.material_ids),
            count: self.count,
        }
    }
}

#[derive(Debug, PartialEq)]
pub struct MoodBoard {
    pub room_id: String,
    pub swatches: Vec<MoodSwatch>,
    pub palette: Vec<PaletteEntry>,
    pub style_tags: Vec<String>,
}

/// One page of a board.
#[derive(Debug, PartialEq)]
pub struct MoodBoardPage {
    pub room_id: String,
    pub page_index: usize,
    pub swatches: Vec<MoodSwatch>,
}

/// Pages that a number of swatches takes.
pub open spec fn pages_for(n: int) -> int {
    (n + MAX_SWATCHES_PER_PAGE - 1) / MAX_SWATCHES_PER_PAGE as int
}

/// The swatches of one page.
pub open spec fn page_swatches(all: Seq<MoodSwatch>, page: int) -> Seq<MoodSwatch> {
    let start = MAX_SWATCHES_PER_PAGE * page;
    let end = start + MAX_SWATCHES_PER_PAGE;
    all.subrange(
        start,
        if end < all.len() {
            end
        } else {
            all.len() as int
        },
    )
}

impl MoodBoard {
    pub fn is_empty(&self) -> (r: bool)
        ensures
            r == (self.swatches@.len() == 0),
    {
        self.swatches.len() == 0
    }

    /// Pages that the board takes.
    pub fn page_count(&self) -> (r: usize)
        ensures
            r == pages_for(self.swatches@.len() as int),
    {
        let n: usize = self.swatches.len();
        if n % MAX_SWATCHES_PER_PAGE == 0 {
            n / MAX_SWATCHES_PER_PAGE
        } else {
            n / MAX_SWATCHES_PER_PAGE + 1
        }
    }

    /// The board in pages: each holds the next swatches, as many as a page takes.
    pub fn pages(&self) -> (r: Vec<MoodBoardPage>)
        ensures
            r@.len() == pages_for(self.swatches@.len() as int),
            forall|p: int|
                0 <= p < r@.len() ==> {
                    &&& (#[trigger] r@[p]).room_id == self.room_id
                    &&& r@[p].page_index == p
                    &&& r@[p].swatches@ == page_swatches(self.swatches@, p)
                },
    {
        let n: usize = self.swatches.len();
        let count: usize = self.page_count();
        let mut out: Vec<MoodBoardPage> = Vec::new();
        let mut page: usize = 0;
        while page < count
            invariant
                n == self.swatches@.len(),
                count == pages_for(n as int),
                page <= count,
                out@.len() == page,
                forall|p: int|
                    0 <= p < page ==> {
                        &&& (#[trigger] out@[p]).room_id == self.room_id
                        &&& out@[p].page_index == p
                        &&& out@[p].swatches@ == page_swatches(self.swatches@, p)
                    },
            decreases count - page,
        {
            let from: usize = page * MAX_SWATCHES_PER_PAGE;
            let to: usize = if n - from > MAX_SWATCHES_PER_PAGE {
                from + MAX_SWATCHES_PER_PAGE
            } else {
                n
            };
            let mut swatches: Vec<MoodSwatch> = Vec::new();
            let mut i: usize = from;
            while i < to
                invariant
                    from <= i <= to <= self.swatches@.len(),
                    swatches@ == self.swatches@.subrange(from as int, i as int),
                decreases to - i,
            {
                swatches.push(self.swatches[i].clone());
                i = i + 1;
                proof {
                    assert(swatches@ =~= self.swatches@.subrange(from as int, i as int));
                }
            }
            out.push(
                MoodBoardPage { room_id: self.room_id.clone(), page_index: page, swatches },
            );
            page = page + 1;
        }
        out
    }
}

/// A material in the order of ids.
pub struct ById<'a> {
    pub material: &'a PbrMaterial,
}

impl<'a> Ranked for ById<'a> {
    open spec fn ahead(self, other: ById<'a>) -> bool {
        text::precedes(self.material.id@, other.material.id@)
    }

    proof fn ahead_is_asymmetric(a: ById<'a>, b: ById<'a>) {
        text::precedes_asymmetric(a.material.id@, b.material.id@);
    }

    proof fn ties_are_transitive(a: ById<'a>, b: ById<'a>, c: ById<'a>) {
        text::precedes_total(a.material.id@, b.material.id@);
        text::precedes_total(b.material.id@, c.material.id@);
        if text::precedes(c.material.id@, a.material.id@) {
            if text::precedes(a.material.id@, b.material.id@) {
                text::precedes_transitive(c.material.id@, a.material.id@, b.material.id@);
            }
        }
    }

    fn is_ahead(&self, other: &ById<'a>) -> (r: bool) {
        match placing(self.material.id.as_str(), other.material.id.as_str()) {
            Placing::Before => true,
            _ => false,
        }
    }
}

/// Materials marked for the order of ids.
pub open spec fn to_id<'a>(s: Seq<PbrMaterial>) -> Seq<ById<'a>> {
    s.map_values(|m: PbrMaterial| ById { material: &m })
}

/// Materials in the order of ids; of one id, in the order they came in.
pub open spec fn by_id(s: Seq<PbrMaterial>) -> Seq<PbrMaterial> {
    order::ordered(to_id(s)).map_values(|m: ById| *m.material)
}

/// The swatch of a material.
pub open spec fn swatch_of(m: PbrMaterial) -> MoodSwatch {
    MoodSwatch {
        material_id: m.id,
        name: m.name,
        albedo: m.albedo,
        style_tag: if m.style_tags@.len() > 0 {
            Some(m.style_tags@[0])
        } else {
            None
        },
    }
}

/// The swatches of the first materials, as many as a board takes.
pub open spec fn swatches_of(s: Seq<PbrMaterial>) -> Seq<MoodSwatch> {
    let n = if s.len() < MAX_SWATCHES {
        s.len()
    } else {
        MAX_SWATCHES as nat
    };
    Seq::new(n, |i: int| swatch_of(s[i]))
}

/// The step that one color channel falls into: the integer part of the channel,
/// held to 0 to 1 and scaled by the number of steps, but not past the last step.
pub open spec fn step_of<F: Fn(Single) -> Single>(times_bins: F, c: Single) -> int {
    let n = arithmetic::applied(
        times_bins,
        c.clamped(Single { bits: 0 }, Single { bits: 0x3f80_0000 }),
    ).integer_part();
    if n < PALETTE_BIN_COUNT {
        n
    } else {
        PALETTE_BIN_COUNT - 1
    }
}

/// The steps that a color falls into, as one number in the order of the steps for
/// red, then green, then blue.
pub open spec fn bin_of<F: Fn(Single) -> Single>(times_bins: F, rgb: Vec3) -> int {
    36 * step_of(times_bins, rgb.x) + 6 * step_of(times_bins, rgb.y) + step_of(times_bins, rgb.z)
}

fn quantise_channel<F: Fn(Single) -> Single>(times_bins: &F, c: Single) -> (r: u8)
    requires
        arithmetic::steady(*times_bins),
    ensures
        r == step_of(*times_bins, c),
        r < PALETTE_BIN_COUNT,
{
    let held: Single = c.clamp(Single::zero(), Single::one());
    let scaled: Single = times_bins(held);
    proof {
        scaled.integer_part_is_natural();
    }
    let n: u32 = scaled.to_u32();
    if n < PALETTE_BIN_COUNT {
        n as u8
    } else {
        5
    }
}

/// The steps that a color falls into.
pub fn quantise<F: Fn(Single) -> Single>(times_bins: &F, rgb: Vec3) -> (r: (u8, u8, u8))
    requires
        arithmetic::steady(*times_bins),
    ensures
        r.0 == step_of(*times_bins, rgb.x),
        r.1 == step_of(*times_bins, rgb.y),
        r.2 == step_of(*times_bins, rgb.z),
        r.0 < PALETTE_BIN_COUNT,
        r.1 < PALETTE_BIN_COUNT,
        r.2 < PALETTE_BIN_COUNT,
{
    (
        quantise_channel(times_bins, rgb.x),
        quantise_channel(times_bins, rgb.y),
        quantise_channel(times_bins, rgb.z),
    )
}

fn bin_number<F: Fn(Single) -> Single>(times_bins: &F, rgb: Vec3) -> (r: u32)
    requires
        arithmetic::steady(*times_bins),
    ensures
        r == bin_of(*times_bins, rgb),
        r < 216,
{
    let q: (u8, u8, u8) = quantise(times_bins, rgb);
    36 * (q.0 as u32) + 6 * (q.1 as u32) + q.2 as u32
}

/// The mean color of materials, taken in one after the other.
pub open spec fn mean_color<G: Fn(Single, u32, Single) -> Single>(
    mean: G,
    s: Seq<PbrMaterial>,
) -> Vec3
    decreases s.len(),
{
    if s.len() <= 1 {
        s[0].albedo
    } else {
        let so_far = mean_color(mean, s.drop_last());
        let n = s.len() as u32;
        Vec3 {
            x: arithmetic::applied3(mean, so_far.x, n, s.last().albedo.x),
            y: arithmetic::applied3(mean, so_far.y, n, s.last().albedo.y),
            z: arithmetic::applied3(mean, so_far.z, n, s.last().albedo.z),
        }
    }
}

/// The materials whose color falls into one bin, in order.
pub open spec fn in_bin<F: Fn(Single) -> Single>(
    times_bins: F,
    s: Seq<PbrMaterial>,
    bin: int,
) -> Seq<PbrMaterial>
    decreases s.len(),
{
    if s.len() == 0 {
        s
    } else if bin_of(times_bins, s.last().albedo) == bin {
        in_bin(times_bins, s.drop_last(), bin).push(s.last())
    } else {
        in_bin(times_bins, s.drop_last(), bin)
    }
}

/// The ids of materials.
pub open spec fn ids_of(s: Seq<PbrMaterial>) -> Seq<String> {
    s.map_values(|m: PbrMaterial| m.id)
}

/// The palette entry of materials that share a bin.
pub open spec fn entry_of<G: Fn(Single, u32, Single) -> Single>(
    mean: G,
    s: Seq<PbrMaterial>,
) -> PaletteView {
    PaletteView {
        albedo: mean_color(mean, s),
        material_ids: ids_of(s),
        count: s.len() as u32,
    }
}

/// The palette entries of the first bins that any material falls into, by bin.
pub open spec fn groups<
    F: Fn(Single) -> Single,
    G: Fn(Single, u32, Single) -> Single,
>(times_bins: F, mean: G, s: Seq<PbrMaterial>, bins: nat) -> Seq<PaletteView>
    decreases bins,
{
    if bins == 0 {
        Seq::empty()
    } else {
        let before = groups(times_bins, mean, s, (bins - 1) as nat);
        let members = in_bin(times_bins, s, bins - 1);
        if members.len() == 0 {
            before
        } else {
            before.push(entry_of(mean, members))
        }
    }
}

/// Where an entry stands in the palette: those of more materials first, then by
/// the bin of their color.
#[derive(Clone, Copy, Debug, PartialEq, Eq, Structural)]
pub struct PaletteRank {
    pub count: u32,
    pub bin: u32,
    pub index: usize,
}

impl Ranked for PaletteRank {
    open spec fn ahead(self, other: PaletteRank) -> bool {
        self.count > other.count || (self.count == other.count && self.bin < other.bin)
    }

    proof fn ahead_is_asymmetric(a: PaletteRank, b: PaletteRank) {
    }

    proof fn ties_are_transitive(a: PaletteRank, b: PaletteRank, c: PaletteRank) {
    }

    fn is_ahead(&self, other: &PaletteRank) -> (r: bool) {
        self.count > other.count || (self.count == other.count && self.bin < other.bin)
    }
}

/// The ranks of entries.
pub open spec fn ranks<F: Fn(Single) -> Single>(
    times_bins: F,
    entries: Seq<PaletteView>,
) -> Seq<PaletteRank> {
    Seq::new(
        entries.len(),
        |i: int|
            PaletteRank {
                count: entries[i].count,
                bin: bin_of(times_bins, entries[i].albedo) as u32,
                index: i as usize,
            },
    )
}

/// The palette of materials.
pub open spec fn palette_of<
    F: Fn(Single) -> Single,
    G: Fn(Single, u32, Single) -> Single,
>(times_bins: F, mean: G, s: Seq<PbrMaterial>) -> Seq<PaletteView> {
    let entries = groups(times_bins, mean, s, 216);
    order::ordered(ranks(times_bins, entries)).map_values(
        |k: PaletteRank| entries[k.index as int],
    )
}

/// Whether a style tag is that of a material.
pub open spec fn tagged(s: Seq<PbrMaterial>, tag: Seq<char>) -> bool {
    exists|i: int| 0 <= i < s.len() && text::texts((#[trigger] s[i]).style_tags@).contains(tag)
}

/// What the palettes entries of an exec list hold.
pub open spec fn palette_views(s: Seq<PaletteEntry>) -> Seq<PaletteView> {
    s.map_values(|e: PaletteEntry| e@)
}

/// The palette entry of the materials in one bin, where there are any.
fn gather<F: Fn(Single) -> Single, G: Fn(Single, u32, Single) -> Single>(
    sorted: &Vec<ById>,
    bin: u32,
    times_bins: &F,
    mean: &G,
) -> (r: Option<PaletteEntry>)
    requires
        arithmetic::steady(*times_bins),
        arithmetic::steady3(*mean),
        sorted@.len() <= u32::MAX,
    ensures
        ({
            let members = in_bin(
                *times_bins,
                sorted@.map_values(|m: ById| *m.material),
                bin as int,
            );
            match r {
                Some(e) => members.len() > 0 && e@ == entry_of(*mean, members),
                None => members.len() == 0,
            }
        }),
{
    let ghost all = sorted@.map_values(|m: ById| *m.material);
    let mut entry: Option<PaletteEntry> = None;
    let mut i: usize = 0;
    proof {
        assert(all.take(0) =~= Seq::empty());
    }
    while i < sorted.len()
        invariant
            i <= sorted@.len() <= u32::MAX,
            all == sorted@.map_values(|m: ById| *m.material),
            arithmetic::steady(*times_bins),
            arithmetic::steady3(*mean),
            in_bin(*times_bins, all.take(i as int), bin as int).len() <= i,
            match entry {
                Some(e) => in_bin(*times_bins, all.take(i as int), bin as int).len() > 0 && e@
                    == entry_of(*mean, in_bin(*times_bins, all.take(i as int), bin as int)),
                None => in_bin(*times_bins, all.take(i as int), bin as int).len() == 0,
            },
        decreases sorted@.len() - i,
    {
        let m: &PbrMaterial = sorted[i].material;
        let ghost before = in_bin(*times_bins, all.take(i as int), bin as int);
        let ghost after = before.push(*m);
        proof {
            let longer = all.take(i + 1);
            assert(longer.drop_last() =~= all.take(i as int));
            assert(longer.last() == *m);
            assert(after.drop_last() =~= before);
            assert(ids_of(after) =~= ids_of(before).push(m.id));
        }
        if bin_number(times_bins, m.albedo) == bin {
            entry = match entry {
                Some(e) => {
                    let mut e = e;
                    e.material_ids.push(m.id.clone());
                    e.count = e.count + 1;
                    let n: u32 = e.count;
                    let x: Single = mean(e.albedo.x, n, m.albedo.x);
                    let y: Single = mean(e.albedo.y, n, m.albedo.y);
                    let z: Single = mean(e.albedo.z, n, m.albedo.z);
                    e.albedo = Vec3::new(x, y, z);
                    proof {
                        assert(e@.material_ids =~= ids_of(after));
                        assert(e@ == entry_of(*mean, after));
                    }
                    Some(e)
                },
                None => {
                    let mut ids: Vec<String> = Vec::new();
                    ids.push(m.id.clone());
                    proof {
                        assert(before =~= Seq::empty());
                        assert(ids@ =~= ids_of(after));
                    }
                    Some(PaletteEntry { albedo: m.albedo, material_ids: ids, count: 1 })
                },
            };
        }
        i = i + 1;
    }
    proof {
        assert(all.take(i as int) =~= all);
    }
    entry
}

fn build_palette<F: Fn(Single) -> Single, G: Fn(Single, u32, Single) -> Single>(
    sorted: &Vec<ById>,
    times_bins: &F,
    mean: &G,
) -> (r: Vec<PaletteEntry>)
    requires
        arithmetic::steady(*times_bins),
        arithmetic::steady3(*mean),
        sorted@.len() <= u32::MAX,
    ensures
        palette_views(r@) == palette_of(
            *times_bins,
            *mean,
            sorted@.map_values(|m: ById| *m.material),
        ),
{
    let ghost all = sorted@.map_values(|m: ById| *m.material);
    let mut entries: Vec<PaletteEntry> = Vec::new();
    let mut bin: u32 = 0;
    proof {
        assert(palette_views(entries@) =~= Seq::empty());
    }
    while bin < 216
        invariant
            bin <= 216,
            all == sorted@.map_values(|m: ById| *m.material),
            sorted@.len() <= u32::MAX,
            arithmetic::steady(*times_bins),
            arithmetic::steady3(*mean),
            palette_views(entries@) == groups(*times_bins, *mean, all, bin as nat),
        decreases 216 - bin,
    {
        let ghost before = palette_views(entries@);
        match gather(sorted, bin, times_bins, mean) {
            Some(e) => {
                entries.push(e);
                proof {
                    assert(palette_views(entries@) =~= before.push(e@));
                }
            },
            None => {},
        }
        bin = bin + 1;
    }
    let mut keys: Vec<PaletteRank> = Vec::new();
    let mut i: usize = 0;
    while i < entries.len()
        invariant
            i <= entries@.len(),
            arithmetic::steady(*times_bins),
            keys@ == ranks(*times_bins, palette_views(entries@)).take(i as int),
        decreases entries@.len() - i,
    {
        let key = PaletteRank {
            count: entries[i].count,
            bin: bin_number(times_bins, entries[i].albedo),
            index: i,
        };
        keys.push(key);
        proof {
            let all_ranks = ranks(*times_bins, palette_views(entries@));
            assert(all_ranks[i as int] == key);
            assert(all_ranks.take(i + 1) =~= all_ranks.take(i as int).push(key));
        }
        i = i + 1;
    }
    proof {
        let all_ranks = ranks(*times_bins, palette_views(entries@));
        assert(all_ranks.take(i as int) =~= all_ranks);
        ranks_point_inside(*times_bins, palette_views(entries@));
    }
    let sorted_keys: Vec<PaletteRank> = order::sort_stable(keys);
    let mut palette: Vec<PaletteEntry> = Vec::new();
    let mut k: usize = 0;
    while k < sorted_keys.len()
        invariant
            k <= sorted_keys@.len(),
            forall|j: int|
                0 <= j < sorted_keys@.len() ==> (#[trigger] sorted_keys@[j]).index < entries@.len(),
            palette@.len() == k,
            forall|j: int|
                0 <= j < k ==> (#[trigger] palette@[j])@ == palette_views(
                    entries@,
                )[sorted_keys@[j].index as int],
        decreases sorted_keys@.len() - k,
    {
        palette.push(entries[sorted_keys[k].index].clone());
        k = k + 1;
    }
    proof {
        assert(palette_views(palette@) =~= palette_of(*times_bins, *mean, all));
    }
    palette
}

proof fn ranks_point_inside<F: Fn(Single) -> Single>(times_bins: F, entries: Seq<PaletteView>)
    requires
        entries.len() <= usize::MAX,
    ensures
        order::ordered(ranks(times_bins, entries)).len() == entries.len(),
        forall|j: int|
            0 <= j < entries.len() ==> (#[trigger] order::ordered(
                ranks(times_bins, entries),
            )[j]).index < entries.len(),
{
    broadcast use vstd::seq_lib::group_to_multiset_ensures;

    let keys = ranks(times_bins, entries);
    let sorted = order::ordered(keys);
    order::ordering_keeps_length(keys);
    order::ordering_keeps_items(keys);
    assert forall|j: int| 0 <= j < sorted.len() implies (#[trigger] sorted[j]).index
        < entries.len() by {
        assert(sorted.contains(sorted[j]));
        assert(keys.to_multiset().count(sorted[j]) > 0);
        assert(keys.contains(sorted[j]));
    }
}

/// The style tags of materials, each once, in order.
fn collect_style_tags(sorted: &Vec<ById>) -> (r: Vec<String>)
    ensures
        catalog::ascending(text::texts(r@)),
        forall|t: Seq<char>| #[trigger]
            text::texts(r@).contains(t) <==> tagged(
                sorted@.map_values(|m: ById| *m.material),
                t,
            ),
{
    let ghost all = sorted@.map_values(|m: ById| *m.material);
    let mut tags: Catalog<bool> = Catalog::new();
    let mut i: usize = 0;
    proof {
        assert(all.take(0) =~= Seq::empty());
    }
    while i < sorted.len()
        invariant
            i <= sorted@.len(),
            all == sorted@.map_values(|m: ById| *m.material),
            tags.wf(),
            forall|t: Seq<char>| #[trigger]
                tags@.dom().contains(t) <==> tagged(all.take(i as int), t),
        decreases sorted@.len() - i,
    {
        let m: &PbrMaterial = sorted[i].material;
        let ghost before = tags@;
        let mut k: usize = 0;
        while k < m.style_tags.len()
            invariant
                k <= m.style_tags@.len(),
                tags.wf(),
                forall|t: Seq<char>| #[trigger]
                    tags@.dom().contains(t) <==> before.dom().contains(t) || text::texts(
                        m.style_tags@,
                    ).take(k as int).contains(t),
            decreases m.style_tags@.len() - k,
        {
            let tag: String = m.style_tags[k].clone();
            let ghost list = text::texts(m.style_tags@);
            let ghost had = tags@;
            tags.insert(tag, true);
            proof {
                let shorter = list.take(k as int);
                let longer = list.take(k + 1);
                assert(longer =~= shorter.push(tag@));
                assert forall|t: Seq<char>| #[trigger] tags@.dom().contains(t)
                    <==> before.dom().contains(t) || longer.contains(t) by {
                    if longer.contains(t) && t != tag@ {
                        let j = choose|j: int| 0 <= j < longer.len() && longer[j] == t;
                        assert(shorter[j] == t);
                    }
                    if shorter.contains(t) {
                        let j = choose|j: int| 0 <= j < shorter.len() && shorter[j] == t;
                        assert(longer[j] == t);
                    }
                    if t == tag@ {
                        assert(longer[k as int] == t);
                    }
                    assert(had.dom().contains(t) <==> before.dom().contains(t)
                        || shorter.contains(t));
                }
            }
            k = k + 1;
        }
        proof {
            let list = text::texts(m.style_tags@);
            assert(list.take(k as int) =~= list);
            let shorter = all.take(i as int);
            let longer = all.take(i + 1);
            assert(longer[i as int] == *m);
            assert forall|t: Seq<char>| #[trigger] tags@.dom().contains(t) <==> tagged(
                longer,
                t,
            ) by {
                if list.contains(t) {
                    assert(text::texts(longer[i as int].style_tags@).contains(t));
                }
                if tagged(shorter, t) {
                    let j = choose|j: int|
                        0 <= j < shorter.len() && text::texts(
                            (#[trigger] shorter[j]).style_tags@,
                        ).contains(t);
                    assert(longer[j] == shorter[j]);
                }
                if tagged(longer, t) {
                    let j = choose|j: int|
                        0 <= j < longer.len() && text::texts(
                            (#[trigger] longer[j]).style_tags@,
                        ).contains(t);
                    if j < i {
                        assert(longer[j] == shorter[j]);
                    }
                }
                assert(before.dom().contains(t) <==> tagged(shorter, t));
            }
        }
        i = i + 1;
    }
    proof {
        assert(all.take(i as int) =~= all);
    }
    let mut out: Vec<String> = Vec::new();
    let mut k: usize = 0;
    while k < tags.len()
        invariant
            k <= tags.key_seq().len(),
            tags.wf(),
            text::texts(out@) == tags.key_seq().take(k as int),
        decreases tags.key_seq().len() - k,
    {
        let ghost before = text::texts(out@);
        let tag: String = tags.key_at(k).clone();
        out.push(tag);
        proof {
            assert(text::texts(out@) =~= before.push(tag@));
            assert(tags.key_seq().take(k + 1) =~= tags.key_seq().take(k as int).push(tag@));
        }
        k = k + 1;
    }
    proof {
        assert(tags.key_seq().take(k as int) =~= tags.key_seq());
        assert forall|t: Seq<char>| #[trigger] text::texts(out@).contains(t) <==> tagged(
            all,
            t,
        ) by {
            assert(tags@.dom().contains(t) <==> tagged(all, t));
        }
    }
    out
}

impl MoodBoard {
    /// Whether the board is that of a room: the swatches and the palette of its materials
    /// in the order of ids, and their style tags, each once and in order.
    pub open spec fn shows<F: Fn(Single) -> Single, G: Fn(Single, u32, Single) -> Single>(
        &self,
        room_id: String,
        materials: Seq<PbrMaterial>,
        times_bins: F,
        mean: G,
    ) -> bool {
        &&& self.room_id == room_id
        &&& self.swatches@ == swatches_of(by_id(materials))
        &&& palette_views(self.palette@) == palette_of(times_bins, mean, by_id(materials))
        &&& catalog::ascending(text::texts(self.style_tags@))
        &&& forall|t: Seq<char>| #[trigger]
            text::texts(self.style_tags@).contains(t) <==> tagged(materials, t)
    }
}

/// The mood board of a room.
///
/// `times_bins` scales a number by the number of steps of a channel, and
/// `mean(a, n, x)` is the mean of `n` numbers, from the mean `a` of all but the
/// last, and the last, `x`.
pub fn generate_mood_board<
    F: Fn(Single) -> Single,
    G: Fn(Single, u32, Single) -> Single,
>(room_id: String, room_materials: &Vec<PbrMaterial>, times_bins: F, mean: G) -> (r: MoodBoard)
    requires
        arithmetic::steady(times_bins),
        arithmetic::steady3(mean),
        room_materials@.len() <= u32::MAX,
    ensures
        r.shows(room_id, room_materials@, times_bins, mean),
{
    let mut marked: Vec<ById> = Vec::new();
    let mut i: usize = 0;
    while i < room_materials.len()
        invariant
            i <= room_materials@.len(),
            marked@ == to_id(room_materials@).take(i as int),
        decreases room_materials@.len() - i,
    {
        marked.push(ById { material: &room_materials[i] });
        proof {
            let all = to_id(room_materials@);
            assert(all.take(i + 1) =~= all.take(i as int).push(all[i as int]));
        }
        i = i + 1;
    }
    proof {
        assert(to_id(room_materials@).take(i as int) =~= to_id(room_materials@));
        order::ordering_keeps_length(to_id(room_materials@));
    }
    let sorted: Vec<ById> = order::sort_stable(marked);
    let ghost all = by_id(room_materials@);
    proof {
        assert(all == sorted@.map_values(|m: ById| *m.material));
    }
    let count: usize = if sorted.len() < MAX_SWATCHES {
        sorted.len()
    } else {
        MAX_SWATCHES
    };
    let mut swatches: Vec<MoodSwatch> = Vec::new();
    let mut k: usize = 0;
    while k < count
        invariant
            k <= count <= sorted@.len(),
            count <= MAX_SWATCHES,
            all == sorted@.map_values(|m: ById| *m.material),
            swatches@.len() == k,
            forall|j: int| 0 <= j < k ==> #[trigger] swatches@[j] == swatch_of(all[j]),
        decreases count - k,
    {
        let m: &PbrMaterial = sorted[k].material;
        let style_tag: Option<String> = if m.style_tags.len() > 0 {
            Some(m.style_tags[0].clone())
        } else {
            None
        };
        swatches.push(
            MoodSwatch {
                material_id: m.id.clone(),
                name: m.name.clone(),
                albedo: m.albedo,
                style_tag,
            },
        );
        k = k + 1;
    }
    proof {
        assert(swatches@ =~= swatches_of(all));
    }
    let palette: Vec<PaletteEntry> = build_palette(&sorted, &times_bins, &mean);
    let style_tags: Vec<String> = collect_style_tags(&sorted);
    proof {
        ordering_by_id_keeps_materials(room_materials@);
        assert forall|t: Seq<char>| #[trigger] text::texts(style_tags@).contains(t) <==> tagged(
            room_materials@,
            t,
        ) by {
            assert(text::texts(style_tags@).contains(t) <==> tagged(all, t));
            if tagged(all, t) {
                let i = choose|i: int|
                    0 <= i < all.len() && text::texts((#[trigger] all[i]).style_tags@).contains(t);
                assert(all.contains(all[i]));
                assert(room_materials@.contains(all[i]));
                let j = choose|j: int|
                    0 <= j < room_materials@.len() && room_materials@[j] == all[i];
                assert(text::texts(room_materials@[j].style_tags@).contains(t));
            }
            if tagged(room_materials@, t) {
                let j = choose|j: int|
                    0 <= j < room_materials@.len() && text::texts(
                        (#[trigger] room_materials@[j]).style_tags@,
                    ).contains(t);
                assert(room_materials@.contains(room_materials@[j]));
                assert(all.contains(room_materials@[j]));
                let i = choose|i: int| 0 <= i < all.len() && all[i] == room_materials@[j];
                assert(text::texts(all[i].style_tags@).contains(t));
            }
        }
    }
    MoodBoard { room_id, swatches, palette, style_tags }
}

/// A board does not depend on the order in which materials come: two lists of the
/// same materials, whose ids differ, come in one order.
pub proof fn order_of_materials_does_not_matter(a: Seq<PbrMaterial>, b: Seq<PbrMaterial>)
    requires
        a.to_multiset() == b.to_multiset(),
        forall|i: int, j: int|
            0 <= i < j < a.len() ==> (#[trigger] a[i]).id@ != (#[trigger] a[j]).id@,
    ensures
        by_id(a) == by_id(b),
{
    broadcast use vstd::seq_lib::group_to_multiset_ensures;

    let p = to_id(a);
    let q = to_id(b);
    marking_keeps_items(a, b);
    order::ordering_keeps_items(p);
    order::ordering_keeps_items(q);
    order::ordering_orders(p);
    order::ordering_orders(q);
    let sorted = order::ordered(p);
    assert forall|x: ById, y: ById|
        sorted.contains(x) && sorted.contains(y) && !#[trigger] x.ahead(y) && !y.ahead(
            x,
        ) implies x == y by {
        text::precedes_total(x.material.id@, y.material.id@);
        assert(sorted.to_multiset().count(x) > 0);
        assert(sorted.to_multiset().count(y) > 0);
        assert(p.contains(x));
        assert(p.contains(y));
        let i = choose|i: int| 0 <= i < p.len() && p[i] == x;
        let j = choose|j: int| 0 <= j < p.len() && p[j] == y;
        assert(a[i].id@ == a[j].id@);
        if i < j {
            assert(a[i].id@ != a[j].id@);
        }
        if j < i {
            assert(a[j].id@ != a[i].id@);
        }
    }
    order::orders_agree(sorted, order::ordered(q));
}

/// Two boards of the same materials, whose ids differ, show the same, whatever order the
/// materials came in.
pub proof fn boards_do_not_depend_on_order<
    F: Fn(Single) -> Single,
    G: Fn(Single, u32, Single) -> Single,
>(
    board_a: MoodBoard,
    a: Seq<PbrMaterial>,
    board_b: MoodBoard,
    b: Seq<PbrMaterial>,
    room_id: String,
    times_bins: F,
    mean: G,
)
    requires
        board_a.shows(room_id, a, times_bins, mean),
        board_b.shows(room_id, b, times_bins, mean),
        a.to_multiset() == b.to_multiset(),
        forall|i: int, j: int|
            0 <= i < j < a.len() ==> (#[trigger] a[i]).id@ != (#[trigger] a[j]).id@,
    ensures
        board_a.room_id == board_b.room_id,
        board_a.swatches@ == board_b.swatches@,
        palette_views(board_a.palette@) == palette_views(board_b.palette@),
        text::texts(board_a.style_tags@) == text::texts(board_b.style_tags@),
{
    broadcast use vstd::seq_lib::group_to_multiset_ensures;

    order_of_materials_does_not_matter(a, b);
    let p = text::texts(board_a.style_tags@);
    let q = text::texts(board_b.style_tags@);
    assert forall|t: Seq<char>| #[trigger] p.contains(t) <==> q.contains(t) by {
        assert(q.contains(t) <==> tagged(b, t));
        if tagged(a, t) {
            let i = choose|i: int|
                0 <= i < a.len() && text::texts((#[trigger] a[i]).style_tags@).contains(t);
            assert(a.contains(a[i]));
            assert(a.to_multiset().count(a[i]) > 0);
            assert(b.contains(a[i]));
            let j = choose|j: int| 0 <= j < b.len() && b[j] == a[i];
            assert(text::texts(b[j].style_tags@).contains(t));
        }
        if tagged(b, t) {
            let j = choose|j: int|
                0 <= j < b.len() && text::texts((#[trigger] b[j]).style_tags@).contains(t);
            assert(b.contains(b[j]));
            assert(b.to_multiset().count(b[j]) > 0);
            assert(a.contains(b[j]));
            let i = choose|i: int| 0 <= i < a.len() && a[i] == b[j];
            assert(text::texts(a[i].style_tags@).contains(t));
        }
    }
    catalog::ascending_lists_agree(p, q);
}

/// Putting materials in the order of ids keeps them.
pub proof fn ordering_by_id_keeps_materials(s: Seq<PbrMaterial>)
    ensures
        by_id(s).len() == s.len(),
        forall|m: PbrMaterial| #[trigger] by_id(s).contains(m) <==> s.contains(m),
{
    broadcast use vstd::seq_lib::group_to_multiset_ensures;

    let marked = to_id(s);
    let sorted = order::ordered(marked);
    let all = by_id(s);
    order::ordering_keeps_length(marked);
    order::ordering_keeps_items(marked);
    assert forall|m: PbrMaterial| #[trigger] all.contains(m) <==> s.contains(m) by {
        if all.contains(m) {
            let i = choose|i: int| 0 <= i < all.len() && all[i] == m;
            assert(sorted.contains(sorted[i]));
            assert(sorted.to_multiset().count(sorted[i]) > 0);
            assert(marked.contains(sorted[i]));
            let j = choose|j: int| 0 <= j < marked.len() && marked[j] == sorted[i];
            assert(s[j] == m);
        }
        if s.contains(m) {
            let j = choose|j: int| 0 <= j < s.len() && s[j] == m;
            assert(marked.contains(marked[j]));
            assert(marked.to_multiset().count(marked[j]) > 0);
            assert(sorted.contains(marked[j]));
            let i = choose|i: int| 0 <= i < sorted.len() && sorted[i] == marked[j];
            assert(all[i] == m);
        }
    }
}

/// A board has a swatch for each material, up to 96, in the order of ids.
pub proof fn swatches_come_in_the_order_of_ids(s: Seq<PbrMaterial>)
    ensures
        swatches_of(by_id(s)).len() == if s.len() < 96 {
            s.len()
        } else {
            96
        },
        forall|i: int, j: int|
            0 <= i < j < swatches_of(by_id(s)).len() ==> !text::precedes(
                (#[trigger] swatches_of(by_id(s))[j]).material_id@,
                (#[trigger] swatches_of(by_id(s))[i]).material_id@,
            ),
{
    let sorted = order::ordered(to_id(s));
    ordering_by_id_keeps_materials(s);
    order::ordering_orders(to_id(s));
    let swatches = swatches_of(by_id(s));
    assert forall|i: int, j: int| 0 <= i < j < swatches.len() implies !text::precedes(
        (#[trigger] swatches[j]).material_id@,
        (#[trigger] swatches[i]).material_id@,
    ) by {
        assert(!sorted[j].ahead(sorted[i]));
    }
}

proof fn marking_keeps_items(a: Seq<PbrMaterial>, b: Seq<PbrMaterial>)
    requires
        a.to_multiset() == b.to_multiset(),
    ensures
        to_id(a).to_multiset() == to_id(b).to_multiset(),
    decreases a.len(),
{
    broadcast use vstd::seq_lib::group_to_multiset_ensures;

    assert(a.len() == a.to_multiset().len());
    assert(b.len() == b.to_multiset().len());
    if a.len() > 0 {
        let x = a[0];
        assert(a.contains(x));
        assert(a.to_multiset().count(x) > 0);
        assert(b.contains(x));
        let j = choose|j: int| 0 <= j < b.len() && b[j] == x;
        marking_keeps_items(a.remove(0), b.remove(j));
        assert(to_id(a.remove(0)) =~= to_id(a).remove(0));
        assert(to_id(b.remove(j)) =~= to_id(b).remove(j));
        let p = to_id(a);
        let q = to_id(b);
        assert(p[0] == q[j]);
        assert(p.to_multiset() =~= p.remove(0).to_multiset().insert(p[0]));
        assert(q.to_multiset() =~= q.remove(j).to_multiset().insert(q[j]));
    } else {
        assert(to_id(a) =~= to_id(b));
    }
}

/// The pages of a board together hold each swatch once: swatch `i` stands on page
/// `i / 12`, at place `i % 12`.
pub proof fn pages_hold_each_swatch(all: Seq<MoodSwatch>, i: int)
    requires
        0 <= i < all.len(),
    ensures
        0 <= i / 12 < pages_for(all.len() as int),
        0 <= i % 12 < page_swatches(all, i / 12).len(),
        page_swatches(all, i / 12)[i % 12] == all[i],
{
}

proof fn bin_members<F: Fn(Single) -> Single>(
    times_bins: F,
    s: Seq<PbrMaterial>,
    bin: int,
    i: int,
)
    requires
        0 <= i < s.len(),
        bin_of(times_bins, s[i].albedo) == bin,
    ensures
        ids_of(in_bin(times_bins, s, bin)).contains(s[i].id),
    decreases s.len(),
{
    let members = in_bin(times_bins, s, bin);
    let ids = ids_of(members);
    if i == s.len() - 1 {
        assert(ids[members.len() - 1] == s[i].id);
    } else {
        let front = s.drop_last();
        assert(front[i] == s[i]);
        bin_members(times_bins, front, bin, i);
        let before = ids_of(in_bin(times_bins, front, bin));
        let k = choose|k: int| 0 <= k < before.len() && before[k] == s[i].id;
        assert(ids[k] == s[i].id);
    }
}

proof fn group_of_bin<F: Fn(Single) -> Single, G: Fn(Single, u32, Single) -> Single>(
    times_bins: F,
    mean: G,
    s: Seq<PbrMaterial>,
    bins: nat,
    bin: int,
) -> (at: int)
    requires
        0 <= bin < bins,
        in_bin(times_bins, s, bin).len() > 0,
    ensures
        0 <= at < groups(times_bins, mean, s, bins).len(),
        groups(times_bins, mean, s, bins)[at] == entry_of(mean, in_bin(times_bins, s, bin)),
    decreases bins,
{
    if bin == bins - 1 {
        groups(times_bins, mean, s, bins).len() - 1
    } else {
        group_of_bin(times_bins, mean, s, (bins - 1) as nat, bin)
    }
}

proof fn few_groups<F: Fn(Single) -> Single, G: Fn(Single, u32, Single) -> Single>(
    times_bins: F,
    mean: G,
    s: Seq<PbrMaterial>,
    bins: nat,
)
    ensures
        groups(times_bins, mean, s, bins).len() <= bins,
    decreases bins,
{
    if bins > 0 {
        few_groups(times_bins, mean, s, (bins - 1) as nat);
    }
}

/// The palette stands in order of count, largest first, and every material is
/// behind one of its entries.
pub proof fn palette_covers_every_material<
    F: Fn(Single) -> Single,
    G: Fn(Single, u32, Single) -> Single,
>(times_bins: F, mean: G, s: Seq<PbrMaterial>)
    ensures
        forall|j: int, k: int|
            0 <= j < k < palette_of(times_bins, mean, s).len() ==> (#[trigger] palette_of(
                times_bins,
                mean,
                s,
            )[j]).count >= (#[trigger] palette_of(times_bins, mean, s)[k]).count,
        forall|i: int|
            0 <= i < s.len() ==> exists|k: int|
                0 <= k < palette_of(times_bins, mean, s).len() && (#[trigger] palette_of(
                    times_bins,
                    mean,
                    s,
                )[k]).material_ids.contains((#[trigger] s[i]).id),
{
    broadcast use vstd::seq_lib::group_to_multiset_ensures;

    let entries = groups(times_bins, mean, s, 216);
    let keys = ranks(times_bins, entries);
    let sorted = order::ordered(keys);
    let palette = palette_of(times_bins, mean, s);
    few_groups(times_bins, mean, s, 216);
    ranks_point_inside(times_bins, entries);
    order::ordering_orders(keys);
    order::ordering_keeps_items(keys);
    assert forall|k: int| 0 <= k < sorted.len() implies (#[trigger] palette[k]).count
        == sorted[k].count by {
        assert(sorted.contains(sorted[k]));
        assert(keys.to_multiset().count(sorted[k]) > 0);
        assert(keys.contains(sorted[k]));
        let i = choose|i: int| 0 <= i < keys.len() && keys[i] == sorted[k];
        assert(sorted[k].index == i);
    }
    assert forall|j: int, k: int| 0 <= j < k < palette.len() implies (#[trigger] palette[j]).count
        >= (#[trigger] palette[k]).count by {
        assert(!sorted[k].ahead(sorted[j]));
    }
    assert forall|i: int| 0 <= i < s.len() implies exists|k: int|
        0 <= k < palette.len() && (#[trigger] palette[k]).material_ids.contains(
            (#[trigger] s[i]).id,
        ) by {
        let bin = bin_of(times_bins, s[i].albedo);
        steps_are_few(times_bins, s[i].albedo);
        bin_members(times_bins, s, bin, i);
        let at = group_of_bin(times_bins, mean, s, 216, bin);
        assert(keys.contains(keys[at]));
        assert(sorted.to_multiset().count(keys[at]) > 0);
        assert(sorted.contains(keys[at]));
        let k = choose|k: int| 0 <= k < sorted.len() && sorted[k] == keys[at];
        assert(palette[k] == entries[at]);
    }
}

proof fn steps_are_few<F: Fn(Single) -> Single>(times_bins: F, rgb: Vec3)
    ensures
        0 <= bin_of(times_bins, rgb) < 216,
{
    let zero = Single { bits: 0 };
    let one = Single { bits: 0x3f80_0000 };
    arithmetic::applied(times_bins, rgb.x.clamped(zero, one)).integer_part_is_natural();
    arithmetic::applied(times_bins, rgb.y.clamped(zero, one)).integer_part_is_natural();
    arithmetic::applied(times_bins, rgb.z.clamped(zero, one)).integer_part_is_natural();
}

// ---- counts of the palette ---------------------------------------------

/// The materials behind all entries together.
pub open spec fn total_count(entries: Seq<PaletteView>) -> int
    decreases entries.len(),
{
    if entries.len() == 0 {
        0
    } else {
        total_count(entries.drop_last()) + entries.last().count
    }
}

spec fn rank_total(ranks: Seq<PaletteRank>) -> int
    decreases ranks.len(),
{
    if ranks.len() == 0 {
        0
    } else {
        rank_total(ranks.drop_last()) + ranks.last().count
    }
}

proof fn rank_total_without(ranks: Seq<PaletteRank>, at: int)
    requires
        0 <= at < ranks.len(),
    ensures
        rank_total(ranks) == rank_total(ranks.remove(at)) + ranks[at].count,
    decreases ranks.len(),
{
    if at == ranks.len() - 1 {
        assert(ranks.remove(at) =~= ranks.drop_last());
    } else {
        let front = ranks.drop_last();
        rank_total_without(front, at);
        assert(ranks.remove(at).drop_last() =~= front.remove(at));
        assert(ranks.remove(at).last() == ranks.last());
    }
}

proof fn same_ranks_same_total(a: Seq<PaletteRank>, b: Seq<PaletteRank>)
    requires
        a.to_multiset() == b.to_multiset(),
    ensures
        rank_total(a) == rank_total(b),
    decreases a.len(),
{
    broadcast use vstd::seq_lib::group_to_multiset_ensures;

    assert(a.len() == a.to_multiset().len());
    assert(b.len() == b.to_multiset().len());
    if a.len() > 0 {
        let x = a[0];
        assert(a.contains(x));
        assert(a.to_multiset().count(x) > 0);
        assert(b.contains(x));
        let j = choose|j: int| 0 <= j < b.len() && b[j] == x;
        same_ranks_same_total(a.remove(0), b.remove(j));
        rank_total_without(a, 0);
        rank_total_without(b, j);
    }
}

proof fn total_by_ranks(entries: Seq<PaletteView>, ranks: Seq<PaletteRank>)
    requires
        entries.len() == ranks.len(),
        forall|i: int| 0 <= i < ranks.len() ==> (#[trigger] ranks[i]).count == entries[i].count,
    ensures
        total_count(entries) == rank_total(ranks),
    decreases entries.len(),
{
    if entries.len() > 0 {
        total_by_ranks(entries.drop_last(), ranks.drop_last());
    }
}

/// How many materials fall into the first bins.
spec fn count_below<F: Fn(Single) -> Single>(
    times_bins: F,
    s: Seq<PbrMaterial>,
    bins: int,
) -> int
    decreases s.len(),
{
    if s.len() == 0 {
        0
    } else {
        count_below(times_bins, s.drop_last(), bins) + if bin_of(
            times_bins,
            s.last().albedo,
        ) < bins {
            1int
        } else {
            0
        }
    }
}

proof fn bin_counts<F: Fn(Single) -> Single>(times_bins: F, s: Seq<PbrMaterial>, bin: int)
    requires
        0 <= bin,
    ensures
        in_bin(times_bins, s, bin).len() == count_below(times_bins, s, bin + 1) - count_below(
            times_bins,
            s,
            bin,
        ),
        in_bin(times_bins, s, bin).len() <= s.len(),
        count_below(times_bins, s, 0) == 0,
        count_below(times_bins, s, 216) == s.len(),
    decreases s.len(),
{
    if s.len() > 0 {
        bin_counts(times_bins, s.drop_last(), bin);
        steps_are_few(times_bins, s.last().albedo);
    }
}

proof fn groups_count<F: Fn(Single) -> Single, G: Fn(Single, u32, Single) -> Single>(
    times_bins: F,
    mean: G,
    s: Seq<PbrMaterial>,
    bins: nat,
)
    requires
        s.len() <= u32::MAX,
    ensures
        total_count(groups(times_bins, mean, s, bins)) == count_below(
            times_bins,
            s,
            bins as int,
        ),
    decreases bins,
{
    bin_counts(times_bins, s, 0);
    if bins > 0 {
        let before = groups(times_bins, mean, s, (bins - 1) as nat);
        let members = in_bin(times_bins, s, bins - 1);
        groups_count(times_bins, mean, s, (bins - 1) as nat);
        bin_counts(times_bins, s, bins - 1);
        if members.len() > 0 {
            assert(before.push(entry_of(mean, members)).drop_last() =~= before);
        }
    }
}

/// The bins below a number that any material falls into.
spec fn filled_bins<F: Fn(Single) -> Single>(
    times_bins: F,
    s: Seq<PbrMaterial>,
    bins: nat,
) -> Seq<int>
    decreases bins,
{
    if bins == 0 {
        Seq::empty()
    } else {
        let before = filled_bins(times_bins, s, (bins - 1) as nat);
        if in_bin(times_bins, s, bins - 1).len() == 0 {
            before
        } else {
            before.push(bins - 1)
        }
    }
}

proof fn groups_are_those_of_filled_bins<
    F: Fn(Single) -> Single,
    G: Fn(Single, u32, Single) -> Single,
>(times_bins: F, mean: G, s: Seq<PbrMaterial>, bins: nat)
    ensures
        groups(times_bins, mean, s, bins).len() == filled_bins(times_bins, s, bins).len(),
        forall|g: int|
            0 <= g < groups(times_bins, mean, s, bins).len() ==> #[trigger] groups(
                times_bins,
                mean,
                s,
                bins,
            )[g] == entry_of(mean, in_bin(times_bins, s, filled_bins(times_bins, s, bins)[g])),
        forall|g: int|
            0 <= g < filled_bins(times_bins, s, bins).len() ==> 0 <= #[trigger] filled_bins(
                times_bins,
                s,
                bins,
            )[g] < bins,
        forall|g: int, h: int|
            0 <= g < h < filled_bins(times_bins, s, bins).len() ==> #[trigger] filled_bins(
                times_bins,
                s,
                bins,
            )[g] < #[trigger] filled_bins(times_bins, s, bins)[h],
    decreases bins,
{
    if bins > 0 {
        groups_are_those_of_filled_bins(times_bins, mean, s, (bins - 1) as nat);
    }
}

proof fn members_of_bin<F: Fn(Single) -> Single>(times_bins: F, s: Seq<PbrMaterial>, bin: int)
    ensures
        forall|p: int|
            0 <= p < in_bin(times_bins, s, bin).len() ==> s.contains(
                #[trigger] in_bin(times_bins, s, bin)[p],
            ) && bin_of(times_bins, in_bin(times_bins, s, bin)[p].albedo) == bin,
    decreases s.len(),
{
    if s.len() > 0 {
        let front = s.drop_last();
        members_of_bin(times_bins, front, bin);
        let before = in_bin(times_bins, front, bin);
        let members = in_bin(times_bins, s, bin);
        assert forall|p: int| 0 <= p < members.len() implies s.contains(#[trigger] members[p])
            && bin_of(times_bins, members[p].albedo) == bin by {
            if p < before.len() {
                assert(members[p] == before[p]);
                let i = choose|i: int| 0 <= i < front.len() && front[i] == before[p];
                assert(s[i] == members[p]);
            } else {
                assert(s[s.len() - 1] == members[p]);
            }
        }
    }
}

/// Whether the ids of materials differ.
pub open spec fn ids_differ(s: Seq<PbrMaterial>) -> bool {
    forall|i: int, j: int|
        0 <= i < j < s.len() ==> (#[trigger] s[i]).id@ != (#[trigger] s[j]).id@
}

proof fn told_by_id(s: Seq<PbrMaterial>, a: PbrMaterial, b: PbrMaterial)
    requires
        ids_differ(s),
        s.contains(a),
        s.contains(b),
        a.id@ == b.id@,
    ensures
        a == b,
{
    let i = choose|i: int| 0 <= i < s.len() && s[i] == a;
    let j = choose|j: int| 0 <= j < s.len() && s[j] == b;
    if i < j {
        assert(s[i].id@ != s[j].id@);
    }
    if j < i {
        assert(s[j].id@ != s[i].id@);
    }
}

proof fn bin_lists_ids_once<F: Fn(Single) -> Single>(
    times_bins: F,
    s: Seq<PbrMaterial>,
    bin: int,
)
    requires
        ids_differ(s),
    ensures
        ids_of(in_bin(times_bins, s, bin)).no_duplicates(),
    decreases s.len(),
{
    if s.len() > 0 {
        let front = s.drop_last();
        assert(ids_differ(front)) by {
            assert forall|i: int, j: int| 0 <= i < j < front.len() implies (#[trigger] front[i]).id@
                != (#[trigger] front[j]).id@ by {
                assert(s[i].id@ != s[j].id@);
            }
        }
        bin_lists_ids_once(times_bins, front, bin);
        members_of_bin(times_bins, front, bin);
        let before = in_bin(times_bins, front, bin);
        let members = in_bin(times_bins, s, bin);
        let ids = ids_of(members);
        assert forall|p: int, q: int| 0 <= p < q < ids.len() implies ids[p] != ids[q] by {
            if q < before.len() {
                assert(ids_of(before)[p] == ids[p] && ids_of(before)[q] == ids[q]);
            } else {
                let i = choose|i: int| 0 <= i < front.len() && front[i] == before[p];
                assert(s[i].id@ != s[s.len() - 1].id@);
                assert(members[p] == before[p]);
            }
        }
    }
}

/// Where the entries of a palette come from: each stands for one filled bin, and no two
/// for the same.
proof fn entries_stand_for_bins<
    F: Fn(Single) -> Single,
    G: Fn(Single, u32, Single) -> Single,
>(times_bins: F, mean: G, s: Seq<PbrMaterial>) -> (bins: Seq<int>)
    ensures
        bins.len() == palette_of(times_bins, mean, s).len(),
        bins.no_duplicates(),
        forall|k: int|
            0 <= k < bins.len() ==> 0 <= #[trigger] bins[k] && palette_of(times_bins, mean, s)[k]
                == entry_of(mean, in_bin(times_bins, s, bins[k])),
        total_count(palette_of(times_bins, mean, s)) == total_count(
            groups(times_bins, mean, s, 216),
        ),
{
    broadcast use vstd::seq_lib::group_to_multiset_ensures;

    let entries = groups(times_bins, mean, s, 216);
    let filled = filled_bins(times_bins, s, 216);
    let keys = ranks(times_bins, entries);
    let sorted = order::ordered(keys);
    let palette = palette_of(times_bins, mean, s);
    groups_are_those_of_filled_bins(times_bins, mean, s, 216);
    few_groups(times_bins, mean, s, 216);
    ranks_point_inside(times_bins, entries);
    order::ordering_keeps_items(keys);
    assert forall|k: int| 0 <= k < sorted.len() implies keys[(
    #[trigger] sorted[k]).index as int] == sorted[k] by {
        assert(sorted.contains(sorted[k]));
        assert(sorted.to_multiset().count(sorted[k]) > 0);
        assert(keys.contains(sorted[k]));
        let i = choose|i: int| 0 <= i < keys.len() && keys[i] == sorted[k];
        assert(sorted[k].index == i);
    }
    assert(keys.no_duplicates()) by {
        assert forall|i: int, j: int| 0 <= i < j < keys.len() implies keys[i] != keys[j] by {
            assert(keys[i].index == i && keys[j].index == j);
        }
    }
    keys.lemma_multiset_has_no_duplicates();
    sorted.lemma_multiset_has_no_duplicates_conv();
    let bins = Seq::new(sorted.len(), |k: int| filled[sorted[k].index as int]);
    assert forall|j: int, k: int| 0 <= j < k < bins.len() implies bins[j] != bins[k] by {
        let g = sorted[j].index as int;
        let h = sorted[k].index as int;
        assert(sorted[j] != sorted[k]);
        assert(keys[g] == sorted[j] && keys[h] == sorted[k]);
        if g < h {
            assert(filled[g] < filled[h]);
        } else {
            assert(filled[h] < filled[g]);
        }
    }
    assert forall|k: int| 0 <= k < bins.len() implies 0 <= #[trigger] bins[k] && palette[k]
        == entry_of(mean, in_bin(times_bins, s, bins[k])) by {
        let g = sorted[k].index as int;
        assert(palette[k] == entries[g]);
        assert(0 <= filled[g]);
    }
    assert forall|k: int| 0 <= k < sorted.len() implies (#[trigger] sorted[k]).count
        == palette[k].count by {
        assert(keys[sorted[k].index as int] == sorted[k]);
    }
    total_by_ranks(palette, sorted);
    total_by_ranks(entries, keys);
    same_ranks_same_total(sorted, keys);
    bins
}

/// The counts of a palette add up to the number of materials, and each is the number of
/// ids that its entry lists.
pub proof fn palette_counts_every_material<
    F: Fn(Single) -> Single,
    G: Fn(Single, u32, Single) -> Single,
>(times_bins: F, mean: G, s: Seq<PbrMaterial>)
    requires
        s.len() <= u32::MAX,
    ensures
        total_count(palette_of(times_bins, mean, s)) == s.len(),
        forall|k: int|
            0 <= k < palette_of(times_bins, mean, s).len() ==> (#[trigger] palette_of(
                times_bins,
                mean,
                s,
            )[k]).count == palette_of(times_bins, mean, s)[k].material_ids.len(),
{
    let palette = palette_of(times_bins, mean, s);
    let bins = entries_stand_for_bins(times_bins, mean, s);
    groups_count(times_bins, mean, s, 216);
    bin_counts(times_bins, s, 0);
    assert forall|k: int| 0 <= k < palette.len() implies (#[trigger] palette[k]).count
        == palette[k].material_ids.len() by {
        assert(0 <= bins[k]);
        bin_counts(times_bins, s, bins[k]);
    }
}

/// A material stands behind one entry of the palette only, and once, where the ids of the
/// materials differ.
pub proof fn each_material_has_one_entry<
    F: Fn(Single) -> Single,
    G: Fn(Single, u32, Single) -> Single,
>(times_bins: F, mean: G, s: Seq<PbrMaterial>)
    requires
        ids_differ(s),
    ensures
        forall|k: int|
            0 <= k < palette_of(times_bins, mean, s).len() ==> (#[trigger] palette_of(
                times_bins,
                mean,
                s,
            )[k]).material_ids.no_duplicates(),
        forall|id: String, j: int, k: int|
            0 <= j < palette_of(times_bins, mean, s).len() && 0 <= k < palette_of(
                times_bins,
                mean,
                s,
            ).len() && #[trigger] palette_of(times_bins, mean, s)[j].material_ids.contains(id)
                && #[trigger] palette_of(times_bins, mean, s)[k].material_ids.contains(id) ==> j
                == k,
{
    let palette = palette_of(times_bins, mean, s);
    let bins = entries_stand_for_bins(times_bins, mean, s);
    assert forall|k: int| 0 <= k < palette.len() implies (
    #[trigger] palette[k]).material_ids.no_duplicates() by {
        assert(0 <= bins[k]);
        bin_lists_ids_once(times_bins, s, bins[k]);
    }
    assert forall|id: String, j: int, k: int|
        0 <= j < palette.len() && 0 <= k < palette.len()
            && #[trigger] palette[j].material_ids.contains(id)
            && #[trigger] palette[k].material_ids.contains(id) implies j == k by {
        assert(0 <= bins[j] && 0 <= bins[k]);
        let a = in_bin(times_bins, s, bins[j]);
        let b = in_bin(times_bins, s, bins[k]);
        members_of_bin(times_bins, s, bins[j]);
        members_of_bin(times_bins, s, bins[k]);
        let p = choose|p: int| 0 <= p < ids_of(a).len() && ids_of(a)[p] == id;
        let q = choose|q: int| 0 <= q < ids_of(b).len() && ids_of(b)[q] == id;
        assert(a[p].id == id && b[q].id == id);
        told_by_id(s, a[p], b[q]);
        if j != k {
            assert(bins[j] != bins[k]);
        }
    }
}

/// A swatch shows its material: the id, the name and the color of it, and its first style
/// tag.
pub proof fn swatches_show_their_material(s: Seq<PbrMaterial>, i: int)
    requires
        0 <= i < s.len(),
        i < MAX_SWATCHES,
    ensures
        i < swatches_of(s).len() <= MAX_SWATCHES,
        swatches_of(s)[i].material_id == s[i].id,
        swatches_of(s)[i].name == s[i].name,
        swatches_of(s)[i].albedo == s[i].albedo,
        swatches_of(s)[i].style_tag is Some <==> s[i].style_tags@.len() > 0,
        s[i].style_tags@.len() > 0 ==> swatches_of(s)[i].style_tag == Some(s[i].style_tags@[0]),
{
}

/// A board has as few pages as hold its swatches, and every page but the last is full.
pub proof fn pages_are_filled(all: Seq<MoodSwatch>, page: int)
    requires
        0 <= page < pages_for(all.len() as int),
    ensures
        12 * (pages_for(all.len() as int) - 1) < all.len() <= 12 * pages_for(all.len() as int),
        page < pages_for(all.len() as int) - 1 ==> page_swatches(all, page).len() == 12,
        0 < page_swatches(all, page).len() <= 12,
{
}

/// Steps go from 0 to 5. A channel that is no darker than another has no lower step, for a
/// scaling that keeps the order, and a channel past the ends counts as the end.
pub proof fn steps_follow_the_channel<F: Fn(Single) -> Single>(times_bins: F, a: Single, b: Single)
    requires
        a.at_most(b),
        ({
            let zero = Single { bits: 0 };
            let one = Single { bits: 0x3f80_0000 };
            arithmetic::applied(times_bins, a.clamped(zero, one)).at_most(
                arithmetic::applied(times_bins, b.clamped(zero, one)),
            )
        }),
    ensures
        0 <= step_of(times_bins, a) <= step_of(times_bins, b) < 6,
        a.below(Single { bits: 0 }) ==> step_of(times_bins, a) == step_of(
            times_bins,
            Single { bits: 0 },
        ),
        (Single { bits: 0x3f80_0000 }).below(b) ==> step_of(times_bins, b) == step_of(
            times_bins,
            Single { bits: 0x3f80_0000 },
        ),
{
    let zero = Single { bits: 0 };
    let one = Single { bits: 0x3f80_0000 };
    let x = arithmetic::applied(times_bins, a.clamped(zero, one));
    let y = arithmetic::applied(times_bins, b.clamped(zero, one));
    x.integer_part_is_natural();
    y.integer_part_is_natural();
    crate::single::integer_parts_follow_the_order(x, y);
}

/// A channel that comes to between a step and the next falls into that step.
pub proof fn channels_fall_into_their_step<F: Fn(Single) -> Single>(times_bins: F, c: Single)
    ensures
        ({
            let scaled = arithmetic::applied(
                times_bins,
                c.clamped(Single { bits: 0 }, Single { bits: 0x3f80_0000 }),
            );
            let one = Single { bits: 0x3f80_0000 };
            let two = Single { bits: 0x4000_0000 };
            let four = Single { bits: 0x4080_0000 };
            let eight = Single { bits: 0x4100_0000 };
            &&& (Single { bits: 0 }).at_most(scaled) && scaled.below(one) ==> step_of(times_bins, c)
                == 0
            &&& one.at_most(scaled) && scaled.below(two) ==> step_of(times_bins, c) == 1
            &&& two.at_most(scaled) && scaled.below(four) ==> 2 <= step_of(times_bins, c) <= 3
            &&& four.at_most(scaled) && scaled.below(eight) ==> 4 <= step_of(times_bins, c) <= 5
        }),
{
    let scaled = arithmetic::applied(
        times_bins,
        c.clamped(Single { bits: 0 }, Single { bits: 0x3f80_0000 }),
    );
    vstd::arithmetic::power2::lemma2_to64();
    crate::single::powers_are_their_own_integer_part(scaled, 0);
    crate::single::powers_are_their_own_integer_part(scaled, 1);
    crate::single::powers_are_their_own_integer_part(scaled, 2);
}

/// Two colors fall into one bin exactly if each of their channels falls into one step.
pub proof fn bins_tell_steps_apart<F: Fn(Single) -> Single>(times_bins: F, a: Vec3, b: Vec3)
    ensures
        0 <= bin_of(times_bins, a) < 216,
        bin_of(times_bins, a) == bin_of(times_bins, b) <==> step_of(times_bins, a.x) == step_of(
            times_bins,
            b.x,
        ) && step_of(times_bins, a.y) == step_of(times_bins, b.y) && step_of(times_bins, a.z)
            == step_of(times_bins, b.z),
{
    six_steps(times_bins, a.x);
    six_steps(times_bins, a.y);
    six_steps(times_bins, a.z);
    six_steps(times_bins, b.x);
    six_steps(times_bins, b.y);
    six_steps(times_bins, b.z);
}

proof fn six_steps<F: Fn(Single) -> Single>(times_bins: F, c: Single)
    ensures
        0 <= step_of(times_bins, c) < 6,
{
    arithmetic::applied(
        times_bins,
        c.clamped(Single { bits: 0 }, Single { bits: 0x3f80_0000 }),
    ).integer_part_is_natural();
}

/// The values that materials have on one channel, added up.
pub open spec fn summed(value: spec_fn(Single) -> int, channel: spec_fn(Vec3) -> Single, s: Seq<PbrMaterial>) -> int {
    s.fold_left(0int, |n: int, m: PbrMaterial| n + value(channel(m.albedo)))
}

/// Whether a mean of the first materials is exact on the numbers that come up.
pub open spec fn means_are_exact<G: Fn(Single, u32, Single) -> Single>(
    mean: G,
    value: spec_fn(Single) -> int,
    channel: spec_fn(Vec3) -> Single,
    s: Seq<PbrMaterial>,
) -> bool {
    forall|k: int|
        2 <= k <= s.len() ==> {
            let so_far = channel(mean_color(mean, s.take(k - 1)));
            let x = channel((#[trigger] s.take(k)).last().albedo);
            k * value(arithmetic::applied3(mean, so_far, k as u32, x)) == (k - 1) * value(so_far)
                + value(x)
        }
}

/// The mean color of materials is the mean of all of them, on each channel: as many times
/// the mean as there are materials is the sum of their colors, where the means are exact.
pub proof fn mean_colors_take_in_every_material<G: Fn(Single, u32, Single) -> Single>(
    mean: G,
    value: spec_fn(Single) -> int,
    s: Seq<PbrMaterial>,
)
    requires
        s.len() > 0,
        means_are_exact(mean, value, |c: Vec3| c.x, s),
        means_are_exact(mean, value, |c: Vec3| c.y, s),
        means_are_exact(mean, value, |c: Vec3| c.z, s),
    ensures
        s.len() * value(mean_color(mean, s).x) == summed(value, |c: Vec3| c.x, s),
        s.len() * value(mean_color(mean, s).y) == summed(value, |c: Vec3| c.y, s),
        s.len() * value(mean_color(mean, s).z) == summed(value, |c: Vec3| c.z, s),
    decreases s.len(),
{
    let n = s.len() as int;
    let front = s.drop_last();
    if n == 1 {
        assert(front =~= Seq::empty());
        assert(s.last() == s[0]);
        assert(summed(value, |c: Vec3| c.x, front) == 0);
        assert(summed(value, |c: Vec3| c.y, front) == 0);
        assert(summed(value, |c: Vec3| c.z, front) == 0);
    } else {
        exact_before(mean, value, |c: Vec3| c.x, s);
        exact_before(mean, value, |c: Vec3| c.y, s);
        exact_before(mean, value, |c: Vec3| c.z, s);
        mean_colors_take_in_every_material(mean, value, front);
        assert(s.take(n) =~= s);
        assert(s.take(n - 1) =~= front);
    }
}

proof fn exact_before<G: Fn(Single, u32, Single) -> Single>(
    mean: G,
    value: spec_fn(Single) -> int,
    channel: spec_fn(Vec3) -> Single,
    s: Seq<PbrMaterial>,
)
    requires
        s.len() > 1,
        means_are_exact(mean, value, channel, s),
    ensures
        means_are_exact(mean, value, channel, s.drop_last()),
{
    let front = s.drop_last();
    assert forall|k: int| 2 <= k <= front.len() implies {
        let so_far = channel(mean_color(mean, front.take(k - 1)));
        let x = channel((#[trigger] front.take(k)).last().albedo);
        k * value(arithmetic::applied3(mean, so_far, k as u32, x)) == (k - 1) * value(so_far)
            + value(x)
    } by {
        assert(front.take(k) =~= s.take(k));
        assert(front.take(k - 1) =~= s.take(k - 1));
    }
}

} // verus!
