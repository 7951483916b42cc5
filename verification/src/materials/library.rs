//! The material library: bundled and loaded packs, found by tag, style or vendor.
use vstd::prelude::*;

use crate::catalog::Catalog;
use crate::geometry::Vec3;
use crate::materials::material;
use crate::materials::material::{MaterialView, PbrMaterial};
use crate::order;
use crate::order::Ranked;
use crate::single::Single;
use crate::text;
use crate::text::{placing, Placing};

verus! {

#[derive(Debug, PartialEq)]
pub enum MaterialLibraryError {
    DuplicateId(String),
    NotFound(String),
}

impl MaterialLibraryError {
    /// What the error says.
    pub open spec fn wording(self) -> Seq<char> {
        match self {
            MaterialLibraryError::DuplicateId(id) => "duplicate material id `"@ + id@ + "`"@,
            MaterialLibraryError::NotFound(id) => "material `"@ + id@ + "` not found"@,
        }
    }

    /// What the error says.
    pub fn message(&self) -> (r: String)
        ensures
            r@ == self.wording(),
    {
        match self {
            MaterialLibraryError::DuplicateId(id) => {
                let mut out: String = text::prefixed("duplicate material id `", id.as_str());
                out.append("`");
                out
            },
            MaterialLibraryError::NotFound(id) => {
                let mut out: String = text::prefixed("material `", id.as_str());
                out.append("` not found");
                out
            },
        }
    }
}

/// What to look for. An empty query finds every material.
#[derive(Debug, PartialEq)]
pub struct MaterialQuery {
    /// Tags that a material must all have.
    pub tags: Vec<String>,
    /// Style tags that a material must all have.
    pub style_tags: Vec<String>,
    pub vendor_id: Option<String>,
    /// Part of the name, upper and lower case alike.
    pub name_contains: Option<String>,
    pub limit: Option<usize>,
}

impl Default for MaterialQuery {
    fn default() -> (r: MaterialQuery)
        ensures
            r.tags@ == Seq::<String>::empty(),
            r.style_tags@ == Seq::<String>::empty(),
            r.vendor_id is None,
            r.name_contains is None,
            r.limit is None,
    {
        MaterialQuery {
            tags: Vec::new(),
            style_tags: Vec::new(),
            vendor_id: None,
            name_contains: None,
            limit: None,
        }
    }
}

/// Whether every text of one list is in another.
pub open spec fn all_among(wanted: Seq<Seq<char>>, had: Seq<Seq<char>>) -> bool {
    forall|i: int| 0 <= i < wanted.len() ==> had.contains(#[trigger] wanted[i])
}

fn has_all(wanted: &Vec<String>, had: &Vec<String>) -> (r: bool)
    ensures
        r == all_among(text::texts(wanted@), text::texts(had@)),
{
    let mut i: usize = 0;
    while i < wanted.len()
        invariant
            i <= wanted@.len(),
            forall|j: int|
                0 <= j < i ==> text::texts(had@).contains(#[trigger] text::texts(wanted@)[j]),
        decreases wanted@.len() - i,
    {
        assert(text::texts(wanted@)[i as int] == wanted@[i as int]@);
        if !text::is_among(had, wanted[i].as_str()) {
            return false;
        }
        i = i + 1;
    }
    true
}

/// Whether a material is what a query looks for.
pub open spec fn fits(m: MaterialView, q: MaterialQuery) -> bool {
    &&& all_among(text::texts(q.tags@), m.tags)
    &&& all_among(text::texts(q.style_tags@), m.style_tags)
    &&& q.vendor_id is Some ==> m.vendor_id == Some(q.vendor_id->0@)
    &&& q.name_contains is Some ==> text::contains(
        text::lowercase(m.name),
        text::lowercase(q.name_contains->0@),
    )
}

fn is_fit(m: &PbrMaterial, q: &MaterialQuery) -> (r: bool)
    ensures
        r == fits(m@, *q),
{
    if !has_all(&q.tags, &m.tags) || !has_all(&q.style_tags, &m.style_tags) {
        return false;
    }
    let vendor_fits: bool = match (&q.vendor_id, &m.vendor_id) {
        (Some(wanted), Some(had)) => text::same_text(wanted.as_str(), had.as_str()),
        (Some(_), None) => false,
        (None, _) => true,
    };
    if !vendor_fits {
        return false;
    }
    match &q.name_contains {
        Some(part) => {
            let name: String = text::lower_text(m.name.as_str());
            let wanted: String = text::lower_text(part.as_str());
            text::contains_text(name.as_str(), wanted.as_str())
        },
        None => true,
    }
}

/// A material in the order of names.
pub struct ByName<'a> {
    pub material: &'a PbrMaterial,
}

impl<'a> Ranked for ByName<'a> {
    open spec fn ahead(self, other: ByName<'a>) -> bool {
        text::precedes(self.material.name@, other.material.name@)
    }

    proof fn ahead_is_asymmetric(a: ByName<'a>, b: ByName<'a>) {
        text::precedes_asymmetric(a.material.name@, b.material.name@);
    }

    proof fn ties_are_transitive(a: ByName<'a>, b: ByName<'a>, c: ByName<'a>) {
        text::precedes_total(a.material.name@, b.material.name@);
        text::precedes_total(b.material.name@, c.material.name@);
        if text::precedes(c.material.name@, a.material.name@) {
            if text::precedes(a.material.name@, b.material.name@) {
                text::precedes_transitive(
                    c.material.name@,
                    a.material.name@,
                    b.material.name@,
                );
            }
        }
    }

    fn is_ahead(&self, other: &ByName<'a>) -> (r: bool) {
        match placing(self.material.name.as_str(), other.material.name.as_str()) {
            Placing::Before => true,
            _ => false,
        }
    }
}

/// Materials marked for the order of names.
pub open spec fn to_name(s: Seq<&PbrMaterial>) -> Seq<ByName> {
    s.map_values(|m: &PbrMaterial| ByName { material: m })
}

/// Materials in the order of names; of one name, in the order they came in.
pub open spec fn by_name(s: Seq<&PbrMaterial>) -> Seq<&PbrMaterial> {
    order::ordered(to_name(s)).map_values(|n: ByName| n.material)
}

/// The materials that a query looks for, in the order they came in.
pub open spec fn found<'a>(s: Seq<PbrMaterial>, q: MaterialQuery) -> Seq<&'a PbrMaterial>
    decreases s.len(),
{
    if s.len() == 0 {
        Seq::empty()
    } else if fits(s.last()@, q) {
        found(s.drop_last(), q).push(&s.last())
    } else {
        found(s.drop_last(), q)
    }
}

/// What a query yields: the materials that fit, by name, up to the limit.
pub open spec fn answer<'a>(s: Seq<PbrMaterial>, q: MaterialQuery) -> Seq<&'a PbrMaterial> {
    let all = by_name(found(s, q));
    match q.limit {
        Some(limit) => if limit < all.len() {
            all.take(limit as int)
        } else {
            all
        },
        None => all,
    }
}

/// Materials by id.
pub struct MaterialLibrary {
    pub materials: Catalog<PbrMaterial>,
}

impl MaterialLibrary {
    /// Every material stands under its id.
    pub open spec fn wf(&self) -> bool {
        &&& self.materials.wf()
        &&& forall|id: Seq<char>| #[trigger]
            self.materials@.dom().contains(id) ==> self.materials@[id].id@ == id
    }

    /// The materials in the order of their ids.
    pub open spec fn listed(&self) -> Seq<PbrMaterial> {
        self.materials.value_seq()
    }

    pub fn new() -> (r: MaterialLibrary)
        ensures
            r.wf(),
            r.materials@ == Map::<Seq<char>, PbrMaterial>::empty(),
            r.listed() == Seq::<PbrMaterial>::empty(),
    {
        MaterialLibrary { materials: Catalog::new() }
    }

    /// Adds a material whose id is free.
    pub fn add(&mut self, m: PbrMaterial) -> (r: Result<(), MaterialLibraryError>)
        requires
            old(self).wf(),
        ensures
            final(self).wf(),
            r is Ok <==> !old(self).materials@.dom().contains(m.id@),
            r is Ok ==> final(self).materials@ == old(self).materials@.insert(m.id@, m),
            r is Err ==> r->Err_0 == MaterialLibraryError::DuplicateId(m.id),
            r is Err ==> *final(self) == *old(self),
    {
        if self.materials.contains_key(m.id.as_str()) {
            return Err(MaterialLibraryError::DuplicateId(m.id));
        }
        self.upsert(m);
        Ok(())
    }

    /// Adds a material, in place of one that has its id.
    pub fn upsert(&mut self, m: PbrMaterial)
        requires
            old(self).wf(),
        ensures
            final(self).wf(),
            final(self).materials@ == old(self).materials@.insert(m.id@, m),
            old(self).materials@.dom().contains(m.id@) ==> final(self).listed().len() == old(
                self,
            ).listed().len(),
            !old(self).materials@.dom().contains(m.id@) ==> final(self).listed().len() == old(
                self,
            ).listed().len() + 1,
    {
        let id: String = m.id.clone();
        self.materials.insert(id, m);
    }

    pub fn get(&self, id: &str) -> (r: Option<&PbrMaterial>)
        requires
            self.wf(),
        ensures
            r is Some <==> self.materials@.dom().contains(id@),
            r matches Some(m) ==> *m == self.materials@[id@],
    {
        self.materials.get(id)
    }

    pub fn len(&self) -> (r: usize)
        requires
            self.wf(),
        ensures
            r == self.listed().len(),
    {
        self.materials.len()
    }

    pub fn is_empty(&self) -> (r: bool)
        requires
            self.wf(),
        ensures
            r == (self.listed().len() == 0),
    {
        self.materials.is_empty()
    }

    /// The materials in the order of their ids.
    pub fn iter(&self) -> (r: Vec<&PbrMaterial>)
        requires
            self.wf(),
        ensures
            r@.len() == self.listed().len(),
            forall|i: int| 0 <= i < r@.len() ==> *#[trigger] r@[i] == self.listed()[i],
    {
        let mut out: Vec<&PbrMaterial> = Vec::new();
        let mut i: usize = 0;
        while i < self.materials.len()
            invariant
                self.wf(),
                i <= self.listed().len(),
                out@.len() == i,
                forall|j: int| 0 <= j < i ==> *#[trigger] out@[j] == self.listed()[j],
            decreases self.listed().len() - i,
        {
            out.push(self.materials.value_at(i));
            i = i + 1;
        }
        out
    }

    /// The materials that a query looks for, by name, up to its limit.
    pub fn query(&self, q: &MaterialQuery) -> (r: Vec<&PbrMaterial>)
        requires
            self.wf(),
        ensures
            r@ == answer(self.listed(), *q),
    {
        let mut hits: Vec<ByName> = Vec::new();
        let mut i: usize = 0;
        proof {
            assert(self.listed().take(0) =~= Seq::empty());
            assert(hits@ =~= to_name(found(self.listed().take(0), *q)));
        }
        while i < self.materials.len()
            invariant
                self.wf(),
                i <= self.listed().len(),
                hits@ == to_name(found(self.listed().take(i as int), *q)),
            decreases self.listed().len() - i,
        {
            let m: &PbrMaterial = self.materials.value_at(i);
            let ghost before = found(self.listed().take(i as int), *q);
            proof {
                let longer = self.listed().take(i + 1);
                assert(longer.drop_last() =~= self.listed().take(i as int));
                assert(longer.last() == *m);
                assert(to_name(before.push(m)) =~= to_name(before).push(ByName { material: m }));
            }
            if is_fit(m, q) {
                hits.push(ByName { material: m });
            }
            i = i + 1;
        }
        proof {
            assert(self.listed().take(i as int) =~= self.listed());
        }
        let ghost sorted_hits = order::ordered(hits@);
        let sorted: Vec<ByName> = order::sort_stable(hits);
        let wanted: usize = match q.limit {
            Some(limit) => if limit < sorted.len() {
                limit
            } else {
                sorted.len()
            },
            None => sorted.len(),
        };
        let mut out: Vec<&PbrMaterial> = Vec::new();
        let mut k: usize = 0;
        while k < wanted
            invariant
                k <= wanted <= sorted@.len(),
                out@ == sorted@.map_values(|n: ByName| n.material).take(k as int),
            decreases wanted - k,
        {
            out.push(sorted[k].material);
            proof {
                let all = sorted@.map_values(|n: ByName| n.material);
                assert(all.take(k + 1) =~= all.take(k as int).push(all[k as int]));
            }
            k = k + 1;
        }
        proof {
            let all = sorted@.map_values(|n: ByName| n.material);
            assert(all == by_name(found(self.listed(), *q)));
            assert(all.take(all.len() as int) =~= all);
        }
        out
    }

    /// Adds the materials of a pack, each in place of one that has its id, and
    /// says how many there were.
    pub fn load_pack(&mut self, pack: Vec<PbrMaterial>) -> (r: usize)
        requires
            old(self).wf(),
        ensures
            final(self).wf(),
            final(self).materials@ == loaded(old(self).materials@, pack@),
            r == pack@.len(),
    {
        let ghost given = pack@;
        let count: usize = pack.len();
        let mut rest: Vec<PbrMaterial> = pack;
        let mut i: usize = 0;
        proof {
            assert(given.skip(0) =~= given);
            assert(given.take(0) =~= Seq::empty());
        }
        while i < count
            invariant
                i <= count,
                count == given.len(),
                rest@ == given.skip(i as int),
                self.wf(),
                self.materials@ == loaded(old(self).materials@, given.take(i as int)),
            decreases count - i,
        {
            let m: PbrMaterial = rest.remove(0);
            proof {
                assert(rest@ =~= given.skip(i + 1));
                assert(given.take(i + 1).drop_last() =~= given.take(i as int));
                assert(given.take(i + 1).last() == m);
            }
            self.upsert(m);
            i = i + 1;
        }
        proof {
            assert(given.take(count as int) =~= given);
        }
        count
    }

    /// The library with the pack that ships with the program.
    #[verifier::rlimit(40)]
    pub fn with_default_pack() -> (r: MaterialLibrary)
        ensures
            r.wf(),
            r.listed().len() == 8,
            viewed(r.materials@) == shipped(default_pack()),
    {
        let mut lib = MaterialLibrary::new();
        let pack: Vec<PbrMaterial> = default_materials();
        let ghost given = pack@;
        let mut rest: Vec<PbrMaterial> = pack;
        let mut i: usize = 0;
        proof {
            default_ids_differ();
            assert(given.skip(0) =~= given);
            assert(default_pack().take(0) =~= Seq::empty());
            assert(viewed(lib.materials@) =~= shipped(default_pack().take(0)));
        }
        while i < 8
            invariant
                i <= 8,
                given.len() == 8,
                given.map_values(|m: PbrMaterial| m@) == default_pack(),
                distinct_ids(default_pack()),
                rest@ == given.skip(i as int),
                lib.wf(),
                lib.listed().len() == i,
                viewed(lib.materials@) == shipped(default_pack().take(i as int)),
            decreases 8 - i,
        {
            let m: PbrMaterial = rest.remove(0);
            proof {
                let p = default_pack();
                assert(rest@ =~= given.skip(i + 1));
                assert(p.take(i + 1).drop_last() =~= p.take(i as int));
                assert(p.take(i + 1).last() == m@) by {
                    assert(p[i as int] == given.map_values(|m: PbrMaterial| m@)[i as int]);
                }
                shipped_ids(p.take(i as int), m@.id);
                assert(viewed(lib.materials@).dom() =~= lib.materials@.dom());
                assert(!lib.materials@.dom().contains(m.id@)) by {
                    if shipped(p.take(i as int)).dom().contains(m@.id) {
                        let k = choose|k: int|
                            0 <= k < p.take(i as int).len() && (#[trigger] p.take(i as int)[k]).id
                                == m@.id;
                        assert(p.take(i as int)[k] == p[k]);
                        assert(p[k].id != p[i as int].id);
                    }
                }
                assert(viewed(lib.materials@.insert(m.id@, m)) =~= viewed(lib.materials@).insert(
                    m@.id,
                    m@,
                ));
            }
            lib.upsert(m);
            i = i + 1;
        }
        proof {
            assert(default_pack().take(8) =~= default_pack());
        }
        lib
    }
}

/// The library after a pack is loaded: each material stands under its id, the
/// last of an id in place of those before.
pub open spec fn loaded(
    before: Map<Seq<char>, PbrMaterial>,
    pack: Seq<PbrMaterial>,
) -> Map<Seq<char>, PbrMaterial>
    decreases pack.len(),
{
    if pack.len() == 0 {
        before
    } else {
        loaded(before, pack.drop_last()).insert(pack.last().id@, pack.last())
    }
}

/// What the materials of a library hold.
pub open spec fn viewed(materials: Map<Seq<char>, PbrMaterial>) -> Map<Seq<char>, MaterialView> {
    materials.map_values(|m: PbrMaterial| m@)
}

/// Materials by id.
pub open spec fn shipped(pack: Seq<MaterialView>) -> Map<Seq<char>, MaterialView>
    decreases pack.len(),
{
    if pack.len() == 0 {
        Map::empty()
    } else {
        shipped(pack.drop_last()).insert(pack.last().id, pack.last())
    }
}

proof fn shipped_ids(pack: Seq<MaterialView>, id: Seq<char>)
    ensures
        shipped(pack).dom().contains(id) <==> exists|k: int|
            0 <= k < pack.len() && (#[trigger] pack[k]).id == id,
    decreases pack.len(),
{
    if pack.len() > 0 {
        let front = pack.drop_last();
        shipped_ids(front, id);
        if pack.last().id == id {
            assert(pack[pack.len() - 1].id == id);
        }
        if exists|k: int| 0 <= k < front.len() && (#[trigger] front[k]).id == id {
            let k = choose|k: int| 0 <= k < front.len() && (#[trigger] front[k]).id == id;
            assert(pack[k].id == id);
        }
        if exists|k: int| 0 <= k < pack.len() && (#[trigger] pack[k]).id == id {
            let k = choose|k: int| 0 <= k < pack.len() && (#[trigger] pack[k]).id == id;
            if k < front.len() {
                assert(front[k].id == id);
            }
        }
    }
}

/// Whether no two materials have one id.
pub open spec fn distinct_ids(pack: Seq<MaterialView>) -> bool {
    forall|i: int, j: int|
        0 <= i < j < pack.len() ==> (#[trigger] pack[i]).id != (#[trigger] pack[j]).id
}

/// A color by its parts.
pub open spec fn rgb(r: u32, g: u32, b: u32) -> Vec3 {
    Vec3 { x: Single { bits: r }, y: Single { bits: g }, z: Single { bits: b } }
}

fn color(r: u32, g: u32, b: u32) -> (c: Vec3)
    ensures
        c == rgb(r, g, b),
{
    Vec3::new(Single::from_bits(r), Single::from_bits(g), Single::from_bits(b))
}

/// A material of the pack that ships with the program.
pub open spec fn finish(
    id: Seq<char>,
    name: Seq<char>,
    albedo: Vec3,
    metallic: Single,
    roughness: Single,
    style_tags: Seq<Seq<char>>,
) -> MaterialView {
    MaterialView { albedo, metallic, roughness, style_tags, ..material::plain(id, name) }
}

/// The pack that ships with the program: woods, stone, textile, paint, tile and
/// brass.
pub open spec fn default_pack() -> Seq<MaterialView> {
    seq![
        finish(
            "mat:oak_light"@,
            "Light Oak"@,
            rgb(0x3f47_ae14, 0x3f28_f5c3, 0x3f00_0000),
            Single { bits: 0x0000_0000 },  // 0
            Single { bits: 0x3f19_999a },  // 0.6
            seq!["scandinavian"@, "warm"@],
        ),
        finish(
            "mat:walnut"@,
            "Walnut"@,
            rgb(0x3eae_147b, 0x3e57_0a3d, 0x3e0f_5c29),
            Single { bits: 0x0000_0000 },  // 0
            Single { bits: 0x3f19_999a },  // 0.6
            seq!["industrial"@, "warm"@],
        ),
        finish(
            "mat:concrete_polished"@,
            "Polished Concrete"@,
            rgb(0x3f0c_cccd, 0x3f0c_cccd, 0x3f0f_5c29),
            Single { bits: 0x0000_0000 },  // 0
            Single { bits: 0x3ee6_6666 },  // 0.45
            seq!["industrial"@, "minimal"@],
        ),
        finish(
            "mat:linen_oat"@,
            "Oat Linen"@,
            rgb(0x3f59_999a, 0x3f47_ae14, 0x3f28_f5c3),
            Single { bits: 0x0000_0000 },  // 0
            Single { bits: 0x3f59_999a },  // 0.85
            seq!["japandi"@, "warm"@],
        ),
        finish(
            "mat:matte_white"@,
            "Matte White Paint"@,
            rgb(0x3f6b_851f, 0x3f6b_851f, 0x3f68_f5c3),
            Single { bits: 0x0000_0000 },  // 0
            Single { bits: 0x3f19_999a },  // 0.6
            seq!["minimal"@],
        ),
        finish(
            "mat:terracotta"@,
            "Terracotta Tile"@,
            rgb(0x3f47_ae14, 0x3ed7_0a3d, 0x3ea3_d70a),
            Single { bits: 0x0000_0000 },  // 0
            Single { bits: 0x3f19_999a },  // 0.6
            seq!["mediterranean"@, "warm"@],
        ),
        finish(
            "mat:brushed_brass"@,
            "Brushed Brass"@,
            rgb(0x3f47_ae14, 0x3f2e_147b, 0x3ed7_0a3d),
            Single { bits: 0x3f66_6666 },  // 0.9
            Single { bits: 0x3e99_999a },  // 0.3
            seq!["art_deco"@, "warm"@],
        ),
        finish(
            "mat:marble_carrara"@,
            "Carrara Marble"@,
            rgb(0x3f6b_851f, 0x3f6b_851f, 0x3f6e_147b),
            Single { bits: 0x0000_0000 },  // 0
            Single { bits: 0x3ee6_6666 },  // 0.45
            seq!["classical"@, "minimal"@],
        ),
    ]
}

/// One style tag or two.
pub open spec fn one_or_two(first: Seq<char>, second: Option<&str>) -> Seq<Seq<char>> {
    match second {
        Some(t) => seq![first, t@],
        None => seq![first],
    }
}

fn bundled(
    id: &str,
    name: &str,
    albedo: Vec3,
    metallic: Single,
    roughness: Single,
    first: &str,
    second: Option<&str>,
) -> (r: PbrMaterial)
    ensures
        r@ == finish(id@, name@, albedo, metallic, roughness, one_or_two(first@, second)),
{
    let mut tags: Vec<String> = Vec::new();
    tags.push(first.to_owned());
    if let Some(t) = second {
        tags.push(t.to_owned());
    }
    proof {
        assert(text::texts(tags@) =~= one_or_two(first@, second));
    }
    let mut m: PbrMaterial = PbrMaterial::new(id, name).with_albedo(albedo).with_style_tags(tags);
    m.metallic = metallic;
    m.roughness = roughness;
    m
}

fn default_materials() -> (r: Vec<PbrMaterial>)
    ensures
        r@.len() == 8,
        r@.map_values(|m: PbrMaterial| m@) == default_pack(),
{
    let r: Vec<PbrMaterial> = vec![
        bundled(
            "mat:oak_light",
            "Light Oak",
            color(0x3f47_ae14, 0x3f28_f5c3, 0x3f00_0000),
            Single::from_bits(0x0000_0000),  // 0
            Single::from_bits(0x3f19_999a),  // 0.6
            "scandinavian",
            Some("warm"),
        ),
        bundled(
            "mat:walnut",
            "Walnut",
            color(0x3eae_147b, 0x3e57_0a3d, 0x3e0f_5c29),
            Single::from_bits(0x0000_0000),  // 0
            Single::from_bits(0x3f19_999a),  // 0.6
            "industrial",
            Some("warm"),
        ),
        bundled(
            "mat:concrete_polished",
            "Polished Concrete",
            color(0x3f0c_cccd, 0x3f0c_cccd, 0x3f0f_5c29),
            Single::from_bits(0x0000_0000),  // 0
            Single::from_bits(0x3ee6_6666),  // 0.45
            "industrial",
            Some("minimal"),
        ),
        bundled(
            "mat:linen_oat",
            "Oat Linen",
            color(0x3f59_999a, 0x3f47_ae14, 0x3f28_f5c3),
            Single::from_bits(0x0000_0000),  // 0
            Single::from_bits(0x3f59_999a),  // 0.85
            "japandi",
            Some("warm"),
        ),
        bundled(
            "mat:matte_white",
            "Matte White Paint",
            color(0x3f6b_851f, 0x3f6b_851f, 0x3f68_f5c3),
            Single::from_bits(0x0000_0000),  // 0
            Single::from_bits(0x3f19_999a),  // 0.6
            "minimal",
            None,
        ),
        bundled(
            "mat:terracotta",
            "Terracotta Tile",
            color(0x3f47_ae14, 0x3ed7_0a3d, 0x3ea3_d70a),
            Single::from_bits(0x0000_0000),  // 0
            Single::from_bits(0x3f19_999a),  // 0.6
            "mediterranean",
            Some("warm"),
        ),
        bundled(
            "mat:brushed_brass",
            "Brushed Brass",
            color(0x3f47_ae14, 0x3f2e_147b, 0x3ed7_0a3d),
            Single::from_bits(0x3f66_6666),  // 0.9
            Single::from_bits(0x3e99_999a),  // 0.3
            "art_deco",
            Some("warm"),
        ),
        bundled(
            "mat:marble_carrara",
            "Carrara Marble",
            color(0x3f6b_851f, 0x3f6b_851f, 0x3f6e_147b),
            Single::from_bits(0x0000_0000),  // 0
            Single::from_bits(0x3ee6_6666),  // 0.45
            "classical",
            Some("minimal"),
        ),
    ];
    proof {
        assert(r@.map_values(|m: PbrMaterial| m@) =~= default_pack());
    }
    r
}

/// The materials that ship with the program have different ids.
pub proof fn default_ids_differ()
    ensures
        default_pack().len() == 8,
        distinct_ids(default_pack()),
{
    reveal_strlit("mat:oak_light");
    reveal_strlit("mat:walnut");
    reveal_strlit("mat:concrete_polished");
    reveal_strlit("mat:linen_oat");
    reveal_strlit("mat:matte_white");
    reveal_strlit("mat:terracotta");
    reveal_strlit("mat:brushed_brass");
    reveal_strlit("mat:marble_carrara");
    let p = default_pack();
    assert(p[0].id[4] == 'o' && p[1].id[4] == 'w' && p[2].id[4] == 'c' && p[3].id[4] == 'l');
    assert(p[4].id[4] == 'm' && p[4].id[6] == 't');
    assert(p[5].id[4] == 't' && p[6].id[4] == 'b');
    assert(p[7].id[4] == 'm' && p[7].id[6] == 'r');
    assert forall|i: int, j: int| 0 <= i < j < p.len() implies (#[trigger] p[i]).id != (
    #[trigger] p[j]).id by {
        assert(p[i].id[4] != p[j].id[4] || p[i].id[6] != p[j].id[6]);
    }
}

proof fn found_is_what_fits(s: Seq<PbrMaterial>, q: MaterialQuery)
    ensures
        forall|k: int| 0 <= k < found(s, q).len() ==> fits((#[trigger] found(s, q)[k])@, q),
        forall|i: int|
            0 <= i < s.len() && fits((#[trigger] s[i])@, q) ==> found(s, q).contains(&s[i]),
    decreases s.len(),
{
    if s.len() > 0 {
        let front = s.drop_last();
        found_is_what_fits(front, q);
        let hits = found(s, q);
        assert forall|i: int| 0 <= i < s.len() && fits((#[trigger] s[i])@, q) implies hits.contains(
            &s[i],
        ) by {
            if i == s.len() - 1 {
                assert(hits[hits.len() - 1] == s[i]);
            } else {
                assert(front[i] == s[i]);
                let k = choose|k: int| 0 <= k < found(front, q).len() && found(front, q)[k] == s[i];
                assert(hits[k] == s[i]);
            }
        }
    }
}

/// What a query yields fits the query, in the order of names, and no more than the
/// limit; without a limit, it leaves out nothing that fits.
pub proof fn query_yields_what_fits(s: Seq<PbrMaterial>, q: MaterialQuery)
    ensures
        forall|k: int| 0 <= k < answer(s, q).len() ==> fits((#[trigger] answer(s, q)[k])@, q),
        forall|j: int, k: int|
            0 <= j < k < answer(s, q).len() ==> !text::precedes(
                (#[trigger] answer(s, q)[k]).name@,
                (#[trigger] answer(s, q)[j]).name@,
            ),
        q.limit is Some ==> answer(s, q).len() <= q.limit->0,
        q.limit is None ==> forall|i: int|
            0 <= i < s.len() && fits((#[trigger] s[i])@, q) ==> answer(s, q).contains(&s[i]),
{
    broadcast use vstd::seq_lib::group_to_multiset_ensures;

    found_is_what_fits(s, q);
    let hits = found(s, q);
    let named = to_name(hits);
    let sorted = order::ordered(named);
    let all = by_name(hits);
    order::ordering_orders(named);
    order::ordering_keeps_items(named);
    order::ordering_keeps_length(named);
    assert forall|k: int| 0 <= k < all.len() implies fits((#[trigger] all[k])@, q) by {
        assert(sorted.contains(sorted[k]));
        assert(named.to_multiset().count(sorted[k]) > 0);
        assert(named.contains(sorted[k]));
        let i = choose|i: int| 0 <= i < named.len() && named[i] == sorted[k];
        assert(all[k] == hits[i]);
    }
    assert forall|j: int, k: int| 0 <= j < k < all.len() implies !text::precedes(
        (#[trigger] all[k]).name@,
        (#[trigger] all[j]).name@,
    ) by {
        assert(!sorted[k].ahead(sorted[j]));
    }
    assert forall|i: int| 0 <= i < s.len() && fits((#[trigger] s[i])@, q) implies all.contains(
        &s[i],
    ) by {
        let h = choose|h: int| 0 <= h < hits.len() && hits[h] == s[i];
        assert(named.contains(named[h]));
        assert(sorted.to_multiset().count(named[h]) > 0);
        assert(sorted.contains(named[h]));
        let k = choose|k: int| 0 <= k < sorted.len() && sorted[k] == named[h];
        assert(all[k] == s[i]);
    }
}

/// Each wish of a query narrows it on its own: one more tag or style tag asks for one more,
/// a vendor asks for that vendor, and a part of a name asks for a name that contains it. A
/// query without a wish fits every material.
pub proof fn wishes_narrow_a_query(m: MaterialView, q: MaterialQuery, more: MaterialQuery, t: String)
    ensures
        more.tags@ == q.tags@.push(t) && more.style_tags == q.style_tags && more.vendor_id
            == q.vendor_id && more.name_contains == q.name_contains ==> (fits(m, more) <==> fits(
            m,
            q,
        ) && m.tags.contains(t@)),
        more.style_tags@ == q.style_tags@.push(t) && more.tags == q.tags && more.vendor_id
            == q.vendor_id && more.name_contains == q.name_contains ==> (fits(m, more) <==> fits(
            m,
            q,
        ) && m.style_tags.contains(t@)),
        q.vendor_id is None && more.vendor_id == Some(t) && more.tags == q.tags && more.style_tags
            == q.style_tags && more.name_contains == q.name_contains ==> (fits(m, more) <==> fits(
            m,
            q,
        ) && m.vendor_id == Some(t@)),
        q.name_contains is None && more.name_contains == Some(t) && more.tags == q.tags
            && more.style_tags == q.style_tags && more.vendor_id == q.vendor_id ==> (fits(m, more)
            <==> fits(m, q) && text::contains(text::lowercase(m.name), text::lowercase(t@))),
        q.tags@.len() == 0 && q.style_tags@.len() == 0 && q.vendor_id is None && q.name_contains
            is None ==> fits(m, q),
{
    one_more_is_wanted(q.tags@, t, m.tags);
    one_more_is_wanted(q.style_tags@, t, m.style_tags);
}

proof fn one_more_is_wanted(wanted: Seq<String>, t: String, had: Seq<Seq<char>>)
    ensures
        all_among(text::texts(wanted.push(t)), had) <==> all_among(text::texts(wanted), had)
            && had.contains(t@),
{
    let more = text::texts(wanted.push(t));
    let fewer = text::texts(wanted);
    assert(more =~= fewer.push(t@));
    if all_among(more, had) {
        assert forall|i: int| 0 <= i < fewer.len() implies had.contains(#[trigger] fewer[i]) by {
            assert(more[i] == fewer[i]);
        }
        assert(more[fewer.len() as int] == t@);
    }
}

/// A limit cuts the answer off and changes nothing else.
pub proof fn limits_cut_the_answer_off(s: Seq<PbrMaterial>, q: MaterialQuery, open: MaterialQuery)
    requires
        open.limit is None,
        open.tags == q.tags,
        open.style_tags == q.style_tags,
        open.vendor_id == q.vendor_id,
        open.name_contains == q.name_contains,
        q.limit is Some,
    ensures
        answer(s, q).len() == if q.limit->0 < answer(s, open).len() {
            q.limit->0 as int
        } else {
            answer(s, open).len() as int
        },
        forall|k: int| 0 <= k < answer(s, q).len() ==> answer(s, q)[k] == answer(s, open)[k],
{
    same_wishes_find_the_same(s, q, open);
}

proof fn same_wishes_find_the_same(s: Seq<PbrMaterial>, q: MaterialQuery, open: MaterialQuery)
    requires
        open.tags == q.tags,
        open.style_tags == q.style_tags,
        open.vendor_id == q.vendor_id,
        open.name_contains == q.name_contains,
    ensures
        found(s, q) == found(s, open),
    decreases s.len(),
{
    if s.len() > 0 {
        same_wishes_find_the_same(s.drop_last(), q, open);
    }
}

/// Without a limit each material that fits is answered once.
pub proof fn each_fit_is_answered_once(s: Seq<PbrMaterial>, q: MaterialQuery)
    requires
        q.limit is None,
    ensures
        answer(s, q).len() == s.filter(|m: PbrMaterial| fits(m@, q)).len(),
    decreases s.len(),
{
    found_counts_fits(s, q);
    order::ordering_keeps_length(to_name(found(s, q)));
}

proof fn found_counts_fits(s: Seq<PbrMaterial>, q: MaterialQuery)
    ensures
        found(s, q).len() == s.filter(|m: PbrMaterial| fits(m@, q)).len(),
    decreases s.len(),
{
    reveal(Seq::filter);
    if s.len() > 0 {
        found_counts_fits(s.drop_last(), q);
    }
}

/// Loading a pack leaves the materials of other ids alone, and of an id that the pack has
/// its last material is there afterwards.
pub proof fn packs_replace_what_they_name(
    before: Map<Seq<char>, PbrMaterial>,
    pack: Seq<PbrMaterial>,
    id: Seq<char>,
)
    ensures
        (forall|i: int| 0 <= i < pack.len() ==> (#[trigger] pack[i]).id@ != id) ==> (loaded(
            before,
            pack,
        ).dom().contains(id) <==> before.dom().contains(id)) && loaded(before, pack)[id]
            == before[id],
        forall|at: int|
            0 <= at < pack.len() && (#[trigger] pack[at]).id@ == id && (forall|i: int|
                at < i < pack.len() ==> (#[trigger] pack[i]).id@ != id) ==> loaded(
                before,
                pack,
            ).dom().contains(id) && loaded(before, pack)[id] == pack[at],
    decreases pack.len(),
{
    if pack.len() > 0 {
        let front = pack.drop_last();
        packs_replace_what_they_name(before, front, id);
        let last = pack[pack.len() - 1];
        assert(last == pack.last());
        if forall|i: int| 0 <= i < pack.len() ==> (#[trigger] pack[i]).id@ != id {
            assert(last.id@ != id);
            assert forall|i: int| 0 <= i < front.len() implies (#[trigger] front[i]).id@ != id by {
                assert(front[i] == pack[i]);
            }
        }
        assert forall|at: int|
            0 <= at < pack.len() && (#[trigger] pack[at]).id@ == id && (forall|i: int|
                at < i < pack.len() ==> (#[trigger] pack[i]).id@ != id) implies loaded(
            before,
            pack,
        ).dom().contains(id) && loaded(before, pack)[id] == pack[at] by {
            if at < front.len() {
                assert(last.id@ != id);
                assert(front[at] == pack[at]);
                assert forall|i: int| at < i < front.len() implies (#[trigger] front[i]).id@
                    != id by {
                    assert(front[i] == pack[i]);
                }
            }
        }
    }
}

/// Every material that ships with the program is handed out under its id, with what a new
/// material has beside its color, its metalness, its roughness and its style tags. Its
/// color, metalness and roughness lie from 0 to 1, and only brass is a metal.
pub proof fn shipped_materials_are_sound(k: int)
    requires
        0 <= k < default_pack().len(),
    ensures
        ({
            let m = default_pack()[k];
            let zero = Single { bits: 0 };
            let one = Single { bits: 0x3f80_0000 };
            &&& shipped(default_pack()).dom().contains(m.id) && shipped(default_pack())[m.id] == m
            &&& m == (MaterialView {
                albedo: m.albedo,
                metallic: m.metallic,
                roughness: m.roughness,
                style_tags: m.style_tags,
                ..material::plain(m.id, m.name)
            })
            &&& m.style_tags.len() > 0
            &&& zero.below(m.albedo.x) && m.albedo.x.below(one)
            &&& zero.below(m.albedo.y) && m.albedo.y.below(one)
            &&& zero.below(m.albedo.z) && m.albedo.z.below(one)
            &&& zero.below(m.roughness) && m.roughness.below(one)
            &&& zero.at_most(m.metallic) && m.metallic.below(one)
            &&& zero.below(m.metallic) <==> m.id == "mat:brushed_brass"@
        }),
{
    default_ids_differ();
    shipped_under_its_id(default_pack(), k);
    assert(default_pack()[6].id == "mat:brushed_brass"@);
}

proof fn shipped_under_its_id(pack: Seq<MaterialView>, k: int)
    requires
        0 <= k < pack.len(),
        distinct_ids(pack),
    ensures
        shipped(pack).dom().contains(pack[k].id),
        shipped(pack)[pack[k].id] == pack[k],
    decreases pack.len(),
{
    let front = pack.drop_last();
    if k < front.len() {
        assert forall|i: int, j: int| 0 <= i < j < front.len() implies (#[trigger] front[i]).id != (
        #[trigger] front[j]).id by {
            assert(pack[i].id != pack[j].id);
        }
        shipped_under_its_id(front, k);
        assert(pack[k].id != pack[pack.len() - 1].id);
    }
}

/// An error on a material quotes its id.
pub proof fn errors_quote_the_id(id: String)
    ensures
        text::contains(MaterialLibraryError::DuplicateId(id).wording(), id@ + "`"@),
        text::contains(MaterialLibraryError::NotFound(id).wording(), id@ + "` not found"@),
{
    assert(MaterialLibraryError::DuplicateId(id).wording() =~= "duplicate material id `"@ + (id@
        + "`"@) + Seq::<char>::empty());
    assert(MaterialLibraryError::NotFound(id).wording() =~= "material `"@ + (id@
        + "` not found"@) + Seq::<char>::empty());
    text::texts_contain_what_they_are_made_of(
        MaterialLibraryError::DuplicateId(id).wording(),
        "duplicate material id `"@,
        id@ + "`"@,
        Seq::empty(),
    );
    text::texts_contain_what_they_are_made_of(
        MaterialLibraryError::NotFound(id).wording(),
        "material `"@,
        id@ + "` not found"@,
        Seq::empty(),
    );
}

} // verus!
