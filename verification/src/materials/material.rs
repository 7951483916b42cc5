//! The surface model that the viewport, the renderer and the library share.
use vstd::prelude::*;

use crate::geometry::Vec3;
use crate::single::Single;
use crate::text;

verus! {

/// A texture in the asset store.
#[derive(Debug, PartialEq, Eq)]
pub struct TextureRef {
    /// Key of the image in the asset store.
    pub blob_hash: String,
    /// What the texture is for, such as "albedo" or "normal".
    pub channel: String,
    pub width: u32,
    pub height: u32,
}

impl Clone for TextureRef {
    fn clone(&self) -> (r: TextureRef)
        ensures
            r == *self,
    {
        TextureRef {
            blob_hash: self.blob_hash.clone(),
            channel: self.channel.clone(),
            width: self.width,
            height: self.height,
        }
    }
}

/// A copy of a texture that may be absent.
pub fn copy_texture(t: &Option<TextureRef>) -> (r: Option<TextureRef>)
    ensures
        r == *t,
{
    match t {
        Some(texture) => Some(texture.clone()),
        None => None,
    }
}

#[derive(Debug, PartialEq)]
pub struct PbrMaterial {
    pub id: String,
    pub name: String,
    /// Linear red, green and blue, each from 0 to 1.
    pub albedo: Vec3,
    pub metallic: Single,
    pub roughness: Single,
    pub ior: Single,
    pub emissive: Vec3,
    pub ao: Single,
    pub transmission: Single,
    pub albedo_map: Option<TextureRef>,
    pub normal_map: Option<TextureRef>,
    pub metallic_roughness_map: Option<TextureRef>,
    pub ao_map: Option<TextureRef>,
    pub emissive_map: Option<TextureRef>,
    pub tags: Vec<String>,
    pub style_tags: Vec<String>,
    pub vendor_id: Option<String>,
}

/// What a material holds.
pub struct MaterialView {
    pub id: Seq<char>,
    pub name: Seq<char>,
    pub albedo: Vec3,
    pub metallic: Single,
    pub roughness: Single,
    pub ior: Single,
    pub emissive: Vec3,
    pub ao: Single,
    pub transmission: Single,
    pub albedo_map: Option<TextureRef>,
    pub normal_map: Option<TextureRef>,
    pub metallic_roughness_map: Option<TextureRef>,
    pub ao_map: Option<TextureRef>,
    pub emissive_map: Option<TextureRef>,
    pub tags: Seq<Seq<char>>,
    pub style_tags: Seq<Seq<char>>,
    pub vendor_id: Option<Seq<char>>,
}

impl View for PbrMaterial {
    type V = MaterialView;

    open spec fn view(&self) -> MaterialView {
        MaterialView {
            id: self.id@,
            name: self.name@,
            albedo: self.albedo,
            metallic: self.metallic,
            roughness: self.roughness,
            ior: self.ior,
            emissive: self.emissive,
            ao: self.ao,
            transmission: self.transmission,
            albedo_map: self.albedo_map,
            normal_map: self.normal_map,
            metallic_roughness_map: self.metallic_roughness_map,
            ao_map: self.ao_map,
            emissive_map: self.emissive_map,
            tags: text::texts(self.tags@),
            style_tags: text::texts(self.style_tags@),
            vendor_id: text::text_if_any(self.vendor_id),
        }
    }
}

impl Clone for PbrMaterial {
    fn clone(&self) -> (r: PbrMaterial)
        ensures
            r@ == self@,
    {
        PbrMaterial {
            id: self.id.clone(),
            name: self.name.clone(),
            albedo: self.albedo,
            metallic: self.metallic,
            roughness: self.roughness,
            ior: self.ior,
            emissive: self.emissive,
            ao: self.ao,
            transmission: self.transmission,
            albedo_map: copy_texture(&self.albedo_map),
            normal_map: copy_texture(&self.normal_map),
            metallic_roughness_map: copy_texture(&self.metallic_roughness_map),
            ao_map: copy_texture(&self.ao_map),
            emissive_map: copy_texture(&self.emissive_map),
            tags: text::copy_texts(&self.tags),
            style_tags: text::copy_texts(&self.style_tags),
            vendor_id: text::copy_if_any(&self.vendor_id),
        }
    }
}

/// A color of three equal parts.
pub open spec fn grey(bits: u32) -> Vec3 {
    Vec3 { x: Single { bits }, y: Single { bits }, z: Single { bits } }
}

/// A material before anything is set: a matt grey of 0.6 with a refractive index
/// of 1.45, without textures or tags.
pub open spec fn plain(id: Seq<char>, name: Seq<char>) -> MaterialView {
    MaterialView {
        id,
        name,
        albedo: grey(0x3f19_999a),  // 0.6
        metallic: Single { bits: 0 },
        roughness: Single { bits: 0x3f19_999a },  // 0.6
        ior: Single { bits: 0x3fb9_999a },  // 1.45
        emissive: grey(0),
        ao: Single { bits: 0x3f80_0000 },
        transmission: Single { bits: 0 },
        albedo_map: None,
        normal_map: None,
        metallic_roughness_map: None,
        ao_map: None,
        emissive_map: None,
        tags: Seq::empty(),
        style_tags: Seq::empty(),
        vendor_id: None,
    }
}

impl PbrMaterial {
    pub fn new(id: &str, name: &str) -> (r: PbrMaterial)
        ensures
            r@ == plain(id@, name@),
    {
        let r = PbrMaterial {
            id: id.to_owned(),
            name: name.to_owned(),
            albedo: Vec3::splat(Single::from_bits(0x3f19_999a)),  // 0.6
            metallic: Single::zero(),
            roughness: Single::from_bits(0x3f19_999a),  // 0.6
            ior: Single::from_bits(0x3fb9_999a),  // 1.45
            emissive: Vec3::splat(Single::zero()),
            ao: Single::one(),
            transmission: Single::zero(),
            albedo_map: None,
            normal_map: None,
            metallic_roughness_map: None,
            ao_map: None,
            emissive_map: None,
            tags: Vec::new(),
            style_tags: Vec::new(),
            vendor_id: None,
        };
        proof {
            assert(text::texts(r.tags@) =~= Seq::empty());
            assert(text::texts(r.style_tags@) =~= Seq::empty());
        }
        r
    }

    pub fn with_albedo(self, rgb: Vec3) -> (r: PbrMaterial)
        ensures
            r == (PbrMaterial { albedo: rgb, ..self }),
    {
        let mut m = self;
        m.albedo = rgb;
        m
    }

    pub fn with_style_tags(self, tags: Vec<String>) -> (r: PbrMaterial)
        ensures
            r == (PbrMaterial { style_tags: tags, ..self }),
    {
        let mut m = self;
        m.style_tags = tags;
        m
    }
}

} // verus!
