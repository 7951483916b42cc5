//! Final renders: the scene and the settings that a preset makes, and the picture
//! that the rendered light makes.
use std::sync::Arc;

use vstd::prelude::*;

use crate::arithmetic;
use crate::bvh::{BuilderTriangle, SplitCandidate, MAX_PRIMS};
use crate::denoise;
use crate::denoise::{Denoiser, ImageRgb, Likeness, Tally, Tap};
use crate::environment::EnvironmentMap;
use crate::geometry::{Aabb, Mat4, Vec3, Vec4};
use crate::light_sampling;
use crate::lighting::SkyParams;
use crate::material;
use crate::material::{MaterialTextureBindings, PathTraceMaterial};
use crate::materials::library::MaterialLibrary;
use crate::materials::material::PbrMaterial;
use crate::path_trace;
use crate::path_trace::{CameraProjection, PathTraceConfig, PathTraceScene, SceneArithmetic};
use crate::preset::{RenderPreset, RenderPresetConfig};
use crate::scene;
use crate::scene::{RenderCamera, RenderLight, RenderScene, SerializedMesh};
use crate::single::Single;
use crate::text;
use crate::tiles;
use crate::tiles::AccumulationBuffer;

verus! {

#[derive(Debug, PartialEq)]
pub enum FinalRenderError {
    NoCamera,
    OutputPathMissingParent(String),
    Cancelled,
}

impl FinalRenderError {
    /// What the error says.
    pub open spec fn wording(self) -> Seq<char> {
        match self {
            FinalRenderError::NoCamera => "scene has no cameras; cannot render final image"@,
            FinalRenderError::OutputPathMissingParent(path) =>
                "output path has no parent directory: "@ + path@,
            FinalRenderError::Cancelled => "render cancelled"@,
        }
    }

    /// What the error says.
    pub fn message(&self) -> (r: String)
        ensures
            r@ == self.wording(),
    {
        match self {
            FinalRenderError::NoCamera =>
                "scene has no cameras; cannot render final image".to_owned(),
            FinalRenderError::OutputPathMissingParent(path) => text::prefixed(
                "output path has no parent directory: ",
                path.as_str(),
            ),
            FinalRenderError::Cancelled => "render cancelled".to_owned(),
        }
    }
}

/// A finished render.
#[derive(Debug, PartialEq)]
pub struct FinalRenderOutput {
    pub path: String,
    pub width: u32,
    pub height: u32,
    pub samples_per_pixel: u32,
    /// Nanoseconds of rendering, without writing the picture.
    pub elapsed_nanos: u64,
    pub denoised: bool,
}

/// The larger of two numbers.
pub open spec fn at_least(v: u32, least: u32) -> u32 {
    if v < least {
        least
    } else {
        v
    }
}

/// The settings of the path tracer that a preset makes: at least one pixel and one
/// sample, tiles of 16 to 512 pixels, eight bounces, roulette after three.
pub open spec fn config_of(
    preset: RenderPresetConfig,
    projection: CameraProjection,
) -> PathTraceConfig {
    PathTraceConfig {
        width: at_least(preset.resolution_x, 1),
        height: at_least(preset.resolution_y, 1),
        samples_per_pixel: at_least(preset.samples, 1),
        max_bounces: 8,
        tile_size: if preset.tile_size_px > 512 {
            512
        } else {
            at_least(preset.tile_size_px, 16)
        },
        russian_roulette_min_bounces: 3,
        adaptive_threshold: Single { bits: 0x3c23_d70a },  // 0.01
        projection,
    }
}

fn raise(v: u32, least: u32) -> (r: u32)
    ensures
        r == at_least(v, least),
{
    if v < least {
        least
    } else {
        v
    }
}

/// The settings of the path tracer that a preset makes.
pub fn path_trace_config_from_preset(
    preset: &RenderPresetConfig,
    projection: CameraProjection,
) -> (r: PathTraceConfig)
    ensures
        r == config_of(*preset, projection),
{
    let tile_size: u32 = if preset.tile_size_px > 512 {
        512
    } else {
        raise(preset.tile_size_px, 16)
    };
    PathTraceConfig {
        width: raise(preset.resolution_x, 1),
        height: raise(preset.resolution_y, 1),
        samples_per_pixel: raise(preset.samples, 1),
        max_bounces: 8,
        tile_size,
        russian_roulette_min_bounces: 3,
        adaptive_threshold: Single::from_bits(0x3c23_d70a),  // 0.01
        projection,
    }
}

/// The sky over a final render: the same over every scene.
pub fn scene_sky(scene: &RenderScene) -> (r: SkyParams)
    ensures
        r == crate::lighting::plain_sky(),
{
    SkyParams::default()
}

/// Place of the first text that equals another, or the number of texts.
pub open spec fn place_of(ids: Seq<Seq<char>>, id: Seq<char>) -> int
    decreases ids.len(),
{
    if ids.len() == 0 {
        0
    } else if ids[0] == id {
        0
    } else {
        1 + place_of(ids.drop_first(), id)
    }
}

/// The place of a text in a list.
pub open spec fn position_of(ids: Seq<Seq<char>>, id: Seq<char>) -> Option<usize> {
    if place_of(ids, id) < ids.len() {
        Some(place_of(ids, id) as usize)
    } else {
        None
    }
}

proof fn place_is_first(ids: Seq<Seq<char>>, id: Seq<char>, at: int)
    requires
        0 <= at <= ids.len(),
        forall|i: int| 0 <= i < at ==> #[trigger] ids[i] != id,
        at < ids.len() ==> ids[at] == id,
    ensures
        place_of(ids, id) == at,
    decreases ids.len(),
{
    if ids.len() > 0 && ids[0] != id {
        let rest = ids.drop_first();
        assert forall|i: int| 0 <= i < at - 1 implies #[trigger] rest[i] != id by {
            assert(rest[i] == ids[i + 1]);
        }
        place_is_first(rest, id, at - 1);
    }
}

fn find_position(ids: &Vec<String>, id: &str) -> (r: Option<usize>)
    ensures
        r == position_of(text::texts(ids@), id@),
        r matches Some(i) ==> i < ids@.len(),
{
    let ghost all = text::texts(ids@);
    let mut i: usize = 0;
    while i < ids.len()
        invariant
            i <= ids@.len(),
            all == text::texts(ids@),
            forall|j: int| 0 <= j < i ==> #[trigger] all[j] != id@,
        decreases ids@.len() - i,
    {
        assert(all[i as int] == ids@[i as int]@);
        if text::same_text(ids[i].as_str(), id) {
            proof {
                place_is_first(all, id@, i as int);
            }
            return Some(i);
        }
        i = i + 1;
    }
    proof {
        place_is_first(all, id@, i as int);
    }
    None
}

/// The textures of the material at a place; none past the end.
pub open spec fn bindings_at(
    bindings: Seq<MaterialTextureBindings>,
    i: int,
) -> MaterialTextureBindings {
    if i < bindings.len() {
        bindings[i]
    } else {
        MaterialTextureBindings {
            albedo: None,
            normal: None,
            metallic_roughness: None,
            emissive: None,
        }
    }
}

/// A material of the library, with its textures, as the path tracer shades it.
pub open spec fn traced_material(
    m: PbrMaterial,
    bindings: MaterialTextureBindings,
) -> PathTraceMaterial {
    PathTraceMaterial {
        texture_bindings: if bindings.bound() {
            Some(bindings)
        } else {
            None
        },
        ..material::flat_material(m)
    }
}

/// The materials of the library, in the order of their ids, as the path tracer
/// shades them.
pub open spec fn traced_materials(
    listed: Seq<PbrMaterial>,
    bindings: Seq<MaterialTextureBindings>,
) -> Seq<PathTraceMaterial> {
    Seq::new(listed.len(), |i: int| traced_material(listed[i], bindings_at(bindings, i)))
}

/// The ids of materials.
pub open spec fn material_ids(listed: Seq<PbrMaterial>) -> Seq<Seq<char>> {
    listed.map_values(|m: PbrMaterial| m.id@)
}

/// The material of a mesh: the place of its id, or -1.
pub open spec fn library_index(
    mesh: SerializedMesh,
    ids: Seq<Seq<char>>,
) -> i32 {
    match mesh.material_id {
        Some(id) => match position_of(ids, id@) {
            Some(i) => i as i32,
            None => -1i32,
        },
        None => -1i32,
    }
}

/// The materials of meshes.
pub open spec fn library_indices(
    meshes: Seq<SerializedMesh>,
    ids: Seq<Seq<char>>,
) -> Seq<i32> {
    meshes.map_values(|m: SerializedMesh| library_index(m, ids))
}

/// Compiles a scene with the materials of a library. `bindings` are the textures of
/// the materials, in the order of their ids.
pub fn build_path_trace_scene<
    P: Fn(Mat4, Vec3) -> Vec3,
    N: Fn(Mat4, Vec3) -> Vec3,
    F: Fn(Vec3, Vec3, Vec3) -> Vec3,
    M: Fn(BuilderTriangle) -> Vec3,
    B: Fn(Aabb, Vec3) -> usize,
    C: Fn(Aabb, SplitCandidate) -> Single,
    D: Fn(Single, Single) -> Vec3,
    E: Fn(Single, Single) -> Vec3,
>(
    scene: &RenderScene,
    library: &MaterialLibrary,
    sky: SkyParams,
    bindings: &Vec<MaterialTextureBindings>,
    numbers: SceneArithmetic<P, N, F, M, B, C, D, E>,
) -> (r: PathTraceScene)
    requires
        library.wf(),
        library.listed().len() <= i32::MAX,
        scene::triangles_in(scene@.meshes) <= MAX_PRIMS,
        scene.meshes@.len() <= u32::MAX,
        arithmetic::steady2(numbers.place),
        arithmetic::steady2(numbers.turn),
        arithmetic::steady3(numbers.flat),
        forall|t: BuilderTriangle| #[trigger] numbers.centroid_of.requires((t,)),
        forall|a: Aabb, v: Vec3| #[trigger] numbers.bucket_of.requires((a, v)),
        forall|a: Aabb, c: SplitCandidate| #[trigger] numbers.cost_of.requires((a, c)),
        arithmetic::steady2(numbers.sun_direction),
        arithmetic::steady2(numbers.emission),
    ensures
        r.wf(),
        r.materials@ == traced_materials(library.listed(), bindings@),
        r.sky == sky,
        r.lights@ == scene.lights@.map_values(
            |l: RenderLight|
                light_sampling::native(l, numbers.sun_direction, numbers.emission),
        ),
        path_trace::tree_over(
            r.bvh,
            path_trace::builders(r.triangles@),
            numbers.centroid_of,
            numbers.bucket_of,
            numbers.cost_of,
        ),
        path_trace::zipped(r.triangles@, r.shading_data@, r.material_ids@)
            == path_trace::scene_part(
            scene.meshes@,
            library_indices(scene.meshes@, material_ids(library.listed())),
            numbers.place,
            numbers.turn,
            numbers.flat,
        ),
{
    let mut ids: Vec<String> = Vec::new();
    let mut materials: Vec<PathTraceMaterial> = Vec::new();
    let listed: Vec<&PbrMaterial> = library.iter();
    let mut i: usize = 0;
    while i < listed.len()
        invariant
            i <= listed@.len(),
            listed@.len() == library.listed().len(),
            forall|j: int| 0 <= j < listed@.len() ==> *#[trigger] listed@[j] == library.listed()[j],
            materials@ == traced_materials(library.listed(), bindings@).take(i as int),
            text::texts(ids@) == material_ids(library.listed()).take(i as int),
        decreases listed@.len() - i,
    {
        let m: &PbrMaterial = listed[i];
        let bound: MaterialTextureBindings = if i < bindings.len() {
            bindings[i]
        } else {
            MaterialTextureBindings {
                albedo: None,
                normal: None,
                metallic_roughness: None,
                emissive: None,
            }
        };
        let ghost before = text::texts(ids@);
        ids.push(m.id.clone());
        materials.push(PathTraceMaterial::from_pbr_with_textures(m, bound));
        proof {
            assert(*listed@[i as int] == library.listed()[i as int]);
            let all = traced_materials(library.listed(), bindings@);
            assert(all.take(i + 1) =~= all.take(i as int).push(all[i as int]));
            assert(text::texts(ids@) =~= before.push(m.id@));
            let names = material_ids(library.listed());
            assert(names.take(i + 1) =~= names.take(i as int).push(names[i as int]));
        }
        i = i + 1;
    }
    let ghost names = material_ids(library.listed());
    proof {
        let all = traced_materials(library.listed(), bindings@);
        assert(all.take(i as int) =~= all);
        assert(names.take(i as int) =~= names);
    }
    let lookup = |id: String| -> (r: Option<usize>)
        ensures
            r == position_of(text::texts(ids@), id@),
            r matches Some(p) ==> p < ids@.len(),
        { find_position(&ids, id.as_str()) };
    proof {
        assert(arithmetic::steady(lookup));
        assert(path_trace::finds_below(lookup, materials@.len() as int));
    }
    let r = PathTraceScene::from_render_scene(scene, materials, lookup, sky, numbers);
    proof {
        let meshes = scene.meshes@;
        assert forall|k: int| 0 <= k < meshes.len() implies #[trigger] path_trace::indices_by(
            meshes,
            lookup,
        )[k] == library_indices(meshes, names)[k] by {
            if meshes[k].material_id is Some {
                let id = meshes[k].material_id->0;
                assert(lookup.ensures((id,), arithmetic::applied(lookup, id)));
            }
        }
        assert(path_trace::indices_by(meshes, lookup) =~= library_indices(meshes, names));
    }
    r
}

/// Final renders with the materials of a library, under a sky of its own where one is
/// set.
pub struct FinalRenderPipeline {
    pub materials: MaterialLibrary,
    /// Shared, not copied, from render to render.
    pub environment: Option<Arc<EnvironmentMap>>,
}

impl FinalRenderPipeline {
    /// Final renders in which every mesh is grey.
    pub fn new() -> (r: FinalRenderPipeline)
        ensures
            r.materials.wf(),
            r.materials.listed() == Seq::<PbrMaterial>::empty(),
            r.environment is None,
    {
        FinalRenderPipeline { materials: MaterialLibrary::new(), environment: None }
    }

    pub fn with_materials(materials: MaterialLibrary) -> (r: FinalRenderPipeline)
        ensures
            r == (FinalRenderPipeline { materials, environment: None }),
    {
        FinalRenderPipeline { materials, environment: None }
    }

    /// The same under another sky, which is shared; under none, the plain sky.
    pub fn with_environment_arc(self, env: Option<Arc<EnvironmentMap>>) -> (r: FinalRenderPipeline)
        ensures
            r == (FinalRenderPipeline { materials: self.materials, environment: env }),
    {
        FinalRenderPipeline { materials: self.materials, environment: env }
    }

    /// The same under another sky; under none, the plain sky.
    pub fn with_environment(self, env: Option<EnvironmentMap>) -> (r: FinalRenderPipeline)
        ensures
            r.materials == self.materials,
            match env {
                Some(map) => r.environment matches Some(shared) && *shared == map,
                None => r.environment is None,
            },
    {
        let environment: Option<Arc<EnvironmentMap>> = match env {
            Some(map) => Some(Arc::new(map)),
            None => None,
        };
        FinalRenderPipeline { materials: self.materials, environment }
    }

    /// The camera that a scene is rendered from unless another is given: its first.
    pub fn default_camera(scene: &RenderScene) -> (r: Result<RenderCamera, FinalRenderError>)
        ensures
            r is Ok <==> scene.cameras@.len() > 0,
            r is Ok ==> r->Ok_0 == scene.cameras@[0],
            r is Err ==> r->Err_0 == FinalRenderError::NoCamera,
    {
        if scene.cameras.len() == 0 {
            Err(FinalRenderError::NoCamera)
        } else {
            Ok(scene.cameras[0].clone())
        }
    }

    /// What came of a render: an error, when it was cancelled.
    pub fn conclude(
        preset: &RenderPreset,
        path: String,
        width: u32,
        height: u32,
        elapsed_nanos: u64,
        cancelled: bool,
    ) -> (r: Result<FinalRenderOutput, FinalRenderError>)
        ensures
            r is Ok <==> !cancelled,
            r is Ok ==> r->Ok_0 == (FinalRenderOutput {
                path,
                width,
                height,
                samples_per_pixel: at_least(preset.config.samples, 1),
                elapsed_nanos,
                denoised: preset.config.denoise,
            }),
            r is Err ==> r->Err_0 == FinalRenderError::Cancelled,
    {
        if cancelled {
            Err(FinalRenderError::Cancelled)
        } else {
            Ok(
                FinalRenderOutput {
                    path,
                    width,
                    height,
                    samples_per_pixel: raise(preset.config.samples, 1),
                    elapsed_nanos,
                    denoised: preset.config.denoise,
                },
            )
        }
    }
}

impl Default for FinalRenderPipeline {
    fn default() -> (r: FinalRenderPipeline)
        ensures
            r.materials.wf(),
            r.materials.listed() == Seq::<PbrMaterial>::empty(),
            r.environment is None,
    {
        FinalRenderPipeline::new()
    }
}

/// The arithmetic that turns light into a picture.
pub struct PictureArithmetic<A, T, C, G, P, W, D> {
    /// The mean color of the sums of a pixel.
    pub average: A,
    /// The bytes of the sums of a pixel.
    pub tone_sums: T,
    /// The bytes of a color.
    pub tone_color: C,
    /// Adds a pixel, with its weight, to a sum.
    pub gather: G,
    /// Adds the difference of two colors to a sum.
    pub differ: P,
    /// Adds a color to a sum, with the weight of its likeness.
    pub weigh: W,
    /// A color divided by a number.
    pub divide: D,
}

/// The mean colors of a buffer, as a picture.
pub open spec fn mean_picture<A: Fn(Vec4) -> Vec3>(
    buffer: AccumulationBuffer,
    average: A,
    image: ImageRgb,
) -> bool {
    &&& image.width == buffer.width
    &&& image.height == buffer.height
    &&& image.pixels@ == buffer.pixels@.map_values(|p: Vec4| arithmetic::applied(average, p))
}

/// What guides the joint bilateral filter beside the picture itself: the normals and
/// the albedo of what each pixel shows, as far as they were rendered.
#[derive(Clone, Copy)]
pub struct Guides<'a> {
    pub normal: Option<&'a ImageRgb>,
    pub albedo: Option<&'a ImageRgb>,
}

impl Guides<'_> {
    /// Whether the guides can be walked over.
    pub open spec fn wf(&self) -> bool {
        denoise::usable(self.normal) && denoise::usable(self.albedo)
    }
}

/// Whether `out` is a picture, filtered.
pub open spec fn filtered<
    G: Fn(Tally, Tap) -> Tally,
    P: Fn(Single, Vec3, Vec3) -> Single,
    W: Fn(Tally, Likeness) -> Tally,
    D: Fn(Vec3, Single) -> Vec3,
>(
    denoiser: Denoiser,
    image: ImageRgb,
    guides: Guides,
    out: ImageRgb,
    gather: G,
    differ: P,
    weigh: W,
    divide: D,
) -> bool {
    &&& out.wf()
    &&& out.width == image.width
    &&& out.height == image.height
    &&& forall|x: int, y: int|
        0 <= x < image.width && 0 <= y < image.height ==> #[trigger] out.at(x, y)
            == match denoiser {
            Denoiser::Bilateral => denoise::bilateral_at(
                gather,
                divide,
                image,
                guides.normal,
                guides.albedo,
                denoise::usual_bilateral(),
                x,
                y,
            ),
            Denoiser::Nlm => denoise::nlm_at(
                differ,
                weigh,
                divide,
                image,
                denoise::usual_nlm(),
                x,
                y,
            ),
        }
}

/// Whether bytes are those of a buffer, its mean colors filtered before they are
/// toned.
pub open spec fn encodes_filtered<
    A: Fn(Vec4) -> Vec3,
    C: Fn(Vec3) -> (u8, u8, u8),
    G: Fn(Tally, Tap) -> Tally,
    P: Fn(Single, Vec3, Vec3) -> Single,
    W: Fn(Tally, Likeness) -> Tally,
    D: Fn(Vec3, Single) -> Vec3,
>(
    buffer: AccumulationBuffer,
    denoiser: Denoiser,
    guides: Guides,
    average: A,
    tone_color: C,
    gather: G,
    differ: P,
    weigh: W,
    divide: D,
    bytes: Seq<u8>,
) -> bool {
    exists|image: ImageRgb, out: ImageRgb| #[trigger]
        mean_picture(buffer, average, image) && #[trigger] filtered(
            denoiser,
            image,
            guides,
            out,
            gather,
            differ,
            weigh,
            divide,
        ) && bytes == tiles::packed(
            out.pixels@.map_values(|p: Vec3| arithmetic::applied(tone_color, p)),
        )
}

fn tone_pixels<C: Fn(Vec3) -> (u8, u8, u8)>(pixels: &Vec<Vec3>, tone_color: &C) -> (r: Vec<u8>)
    requires
        arithmetic::steady(*tone_color),
    ensures
        r@ == tiles::packed(pixels@.map_values(|p: Vec3| arithmetic::applied(*tone_color, p))),
{
    let ghost toned = pixels@.map_values(|p: Vec3| arithmetic::applied(*tone_color, p));
    let mut out: Vec<u8> = Vec::new();
    let mut i: usize = 0;
    proof {
        assert(toned.take(0) =~= Seq::empty());
    }
    while i < pixels.len()
        invariant
            arithmetic::steady(*tone_color),
            i <= pixels@.len(),
            toned == pixels@.map_values(|p: Vec3| arithmetic::applied(*tone_color, p)),
            out@ == tiles::packed(toned.take(i as int)),
        decreases pixels@.len() - i,
    {
        let ghost before = out@;
        let (red, green, blue) = tone_color(pixels[i]);
        out.push(red);
        out.push(green);
        out.push(blue);
        proof {
            assert(toned.take(i + 1).drop_last() =~= toned.take(i as int));
            assert(toned.take(i + 1).last() == (red, green, blue));
            assert(out@ =~= before + seq![red, green, blue]);
        }
        i = i + 1;
    }
    proof {
        assert(toned.take(i as int) =~= toned);
    }
    out
}

/// The bytes of a rendered picture, filtered first where a filter is given.
pub fn encode_srgb8_with_denoiser<
    A: Fn(Vec4) -> Vec3,
    T: Fn(Vec4) -> (u8, u8, u8),
    C: Fn(Vec3) -> (u8, u8, u8),
    G: Fn(Tally, Tap) -> Tally,
    P: Fn(Single, Vec3, Vec3) -> Single,
    W: Fn(Tally, Likeness) -> Tally,
    D: Fn(Vec3, Single) -> Vec3,
>(
    buffer: &AccumulationBuffer,
    denoiser: Option<Denoiser>,
    guides: Guides,
    numbers: PictureArithmetic<A, T, C, G, P, W, D>,
) -> (r: Vec<u8>)
    requires
        buffer.wf(),
        denoiser == Some(Denoiser::Bilateral) ==> guides.wf(),
        denoiser is Some ==> buffer.width + 5 < i32::MAX && buffer.height + 5 < i32::MAX,
        arithmetic::steady(numbers.average),
        arithmetic::steady(numbers.tone_sums),
        arithmetic::steady(numbers.tone_color),
        arithmetic::steady2(numbers.gather),
        arithmetic::steady3(numbers.differ),
        arithmetic::steady2(numbers.weigh),
        arithmetic::steady2(numbers.divide),
    ensures
        denoiser is None ==> r@ == tiles::packed(
            buffer.pixels@.map_values(|p: Vec4| arithmetic::applied(numbers.tone_sums, p)),
        ),
        denoiser is Some ==> encodes_filtered(
            *buffer,
            denoiser->0,
            guides,
            numbers.average,
            numbers.tone_color,
            numbers.gather,
            numbers.differ,
            numbers.weigh,
            numbers.divide,
            r@,
        ),
{
    match denoiser {
        None => buffer.as_srgb8(numbers.tone_sums),
        Some(filter) => {
            let ghost average = numbers.average;
            let pixels: Vec<Vec3> = buffer.average_rgb(numbers.average);
            let image: ImageRgb = ImageRgb::from_pixels(buffer.width, buffer.height, pixels);
            let out: ImageRgb = filter.apply(
                &image,
                guides.normal,
                guides.albedo,
                &numbers.gather,
                &numbers.differ,
                &numbers.weigh,
                &numbers.divide,
            );
            let bytes: Vec<u8> = tone_pixels(&out.pixels, &numbers.tone_color);
            proof {
                assert(mean_picture(*buffer, average, image));
                assert(filtered(
                    filter,
                    image,
                    guides,
                    out,
                    numbers.gather,
                    numbers.differ,
                    numbers.weigh,
                    numbers.divide,
                ));
            }
            bytes
        },
    }
}

/// The filter that a preset asks for: none, or the one for its samples.
pub fn preset_denoiser(preset: &RenderPresetConfig) -> (r: Option<Denoiser>)
    ensures
        !preset.denoise ==> r is None,
        preset.denoise && preset.samples < denoise::STANDARD_SAMPLES ==> r == Some(Denoiser::Nlm),
        preset.denoise && preset.samples >= denoise::STANDARD_SAMPLES ==> r == Some(
            Denoiser::Bilateral,
        ),
{
    if preset.denoise {
        Some(Denoiser::auto_for_samples(preset.samples))
    } else {
        None
    }
}

/// The bytes of a rendered picture, filtered first where it is to be denoised.
pub fn encode_srgb8<
    A: Fn(Vec4) -> Vec3,
    T: Fn(Vec4) -> (u8, u8, u8),
    C: Fn(Vec3) -> (u8, u8, u8),
    G: Fn(Tally, Tap) -> Tally,
    P: Fn(Single, Vec3, Vec3) -> Single,
    W: Fn(Tally, Likeness) -> Tally,
    D: Fn(Vec3, Single) -> Vec3,
>(
    buffer: &AccumulationBuffer,
    denoise: bool,
    guides: Guides,
    numbers: PictureArithmetic<A, T, C, G, P, W, D>,
) -> (r: Vec<u8>)
    requires
        buffer.wf(),
        denoise ==> guides.wf(),
        denoise ==> buffer.width + 5 < i32::MAX && buffer.height + 5 < i32::MAX,
        arithmetic::steady(numbers.average),
        arithmetic::steady(numbers.tone_sums),
        arithmetic::steady(numbers.tone_color),
        arithmetic::steady2(numbers.gather),
        arithmetic::steady3(numbers.differ),
        arithmetic::steady2(numbers.weigh),
        arithmetic::steady2(numbers.divide),
    ensures
        !denoise ==> r@ == tiles::packed(
            buffer.pixels@.map_values(|p: Vec4| arithmetic::applied(numbers.tone_sums, p)),
        ),
        denoise ==> encodes_filtered(
            *buffer,
            Denoiser::Bilateral,
            guides,
            numbers.average,
            numbers.tone_color,
            numbers.gather,
            numbers.differ,
            numbers.weigh,
            numbers.divide,
            r@,
        ),
{
    let denoiser: Option<Denoiser> = if denoise {
        Some(Denoiser::Bilateral)
    } else {
        None
    };
    encode_srgb8_with_denoiser(buffer, denoiser, guides, numbers)
}

// ---- what a final render satisfies -------------------------------------

/// The settings that a preset makes keep its size and samples, at least one, and its tiles
/// from 16 to 512 pixels; what lies outside moves to the nearest bound.
pub proof fn presets_are_kept_within_bounds(
    preset: RenderPresetConfig,
    projection: CameraProjection,
)
    ensures
        ({
            let c = config_of(preset, projection);
            &&& c.width >= 1 && c.height >= 1 && c.samples_per_pixel >= 1
            &&& 16 <= c.tile_size <= 512
            &&& preset.resolution_x >= 1 ==> c.width == preset.resolution_x
            &&& preset.resolution_y >= 1 ==> c.height == preset.resolution_y
            &&& preset.samples >= 1 ==> c.samples_per_pixel == preset.samples
            &&& 16 <= preset.tile_size_px <= 512 ==> c.tile_size == preset.tile_size_px
            &&& preset.tile_size_px < 16 ==> c.tile_size == 16
            &&& preset.tile_size_px > 512 ==> c.tile_size == 512
            &&& c.projection == projection
            &&& c.russian_roulette_min_bounces < c.max_bounces
            &&& c.max_bounces == 8 && c.russian_roulette_min_bounces == 3
            &&& c.adaptive_threshold.bits == 0x3c23_d70a
        }),
{
}

/// A text is found at the first place where it stands in a list, and nowhere where it does
/// not stand in it.
pub proof fn texts_are_found_where_they_first_stand(ids: Seq<Seq<char>>, id: Seq<char>)
    requires
        ids.len() <= usize::MAX,
    ensures
        0 <= place_of(ids, id) <= ids.len(),
        position_of(ids, id) is Some <==> ids.contains(id),
        position_of(ids, id) matches Some(i) ==> i < ids.len() && ids[i as int] == id && forall|
            j: int,
        |
            0 <= j < i ==> #[trigger] ids[j] != id,
    decreases ids.len(),
{
    if ids.len() > 0 {
        let rest = ids.drop_first();
        texts_are_found_where_they_first_stand(rest, id);
        if ids[0] == id {
            assert(ids.contains(id));
        } else {
            if rest.contains(id) {
                let k = choose|k: int| 0 <= k < rest.len() && rest[k] == id;
                assert(ids[k + 1] == id);
            }
            if ids.contains(id) {
                let k = choose|k: int| 0 <= k < ids.len() && ids[k] == id;
                assert(rest[k - 1] == id);
            }
            if position_of(ids, id) is Some {
                let i = position_of(ids, id)->0;
                assert(rest[i - 1] == ids[i as int]);
                assert forall|j: int| 0 <= j < i implies #[trigger] ids[j] != id by {
                    if j > 0 {
                        assert(rest[j - 1] == ids[j]);
                    }
                }
            }
        }
    }
}

/// A mesh is shaded in the material of the library that has its material id, with the
/// textures of that material; one without an id, or with an id that the library lacks, in
/// none of them.
pub proof fn meshes_are_shaded_in_the_material_of_their_id(
    mesh: SerializedMesh,
    listed: Seq<PbrMaterial>,
    bindings: Seq<MaterialTextureBindings>,
    k: int,
)
    requires
        listed.len() <= i32::MAX,
        0 <= k < listed.len(),
        mesh.material_id is Some ==> forall|j: int|
            0 <= j < listed.len() && j != k ==> (#[trigger] listed[j]).id@ != listed[k].id@,
    ensures
        mesh.material_id is None ==> library_index(mesh, material_ids(listed)) == -1,
        mesh.material_id is Some && !material_ids(listed).contains(mesh.material_id->0@)
            ==> library_index(mesh, material_ids(listed)) == -1,
        mesh.material_id is Some && mesh.material_id->0@ == listed[k].id@ ==> library_index(
            mesh,
            material_ids(listed),
        ) == k,
        traced_materials(listed, bindings).len() == listed.len(),
        ({
            let m = traced_materials(listed, bindings)[k];
            let flat = material::flat_material(listed[k]);
            &&& m.base_color == flat.base_color && m.metallic == flat.metallic && m.roughness
                == flat.roughness && m.ior == flat.ior && m.emissive == flat.emissive
                && m.transmission == flat.transmission && m.ao == flat.ao
            &&& k < bindings.len() && bindings[k].bound() ==> m.texture_bindings == Some(
                bindings[k],
            )
            &&& k >= bindings.len() || !bindings[k].bound() ==> m.texture_bindings is None
        }),
{
    let ids = material_ids(listed);
    if mesh.material_id is Some {
        let id = mesh.material_id->0@;
        texts_are_found_where_they_first_stand(ids, id);
        if id == listed[k].id@ {
            assert(ids[k] == id);
            assert(ids.contains(id));
            let i = position_of(ids, id)->0 as int;
            assert(ids[i] == listed[i].id@);
        }
    }
}

/// A filtered picture has, at the place of each pixel, the bytes of that pixel of the mean
/// picture under the filter: three to a pixel, row by row.
pub proof fn filtered_pixels_stay_in_place<
    A: Fn(Vec4) -> Vec3,
    C: Fn(Vec3) -> (u8, u8, u8),
    G: Fn(Tally, Tap) -> Tally,
    P: Fn(Single, Vec3, Vec3) -> Single,
    W: Fn(Tally, Likeness) -> Tally,
    D: Fn(Vec3, Single) -> Vec3,
>(
    buffer: AccumulationBuffer,
    denoiser: Denoiser,
    guides: Guides,
    average: A,
    tone_color: C,
    gather: G,
    differ: P,
    weigh: W,
    divide: D,
    bytes: Seq<u8>,
    x: int,
    y: int,
)
    requires
        buffer.wf(),
        0 <= x < buffer.width <= i32::MAX,
        0 <= y < buffer.height <= i32::MAX,
        encodes_filtered(
            buffer,
            denoiser,
            guides,
            average,
            tone_color,
            gather,
            differ,
            weigh,
            divide,
            bytes,
        ),
    ensures
        bytes.len() == 3 * buffer.width * buffer.height,
        exists|image: ImageRgb|
            {
                &&& image.width == buffer.width
                &&& image.height == buffer.height
                &&& image.pixels@.len() == buffer.pixels@.len()
                &&& forall|i: int|
                    0 <= i < image.pixels@.len() ==> #[trigger] image.pixels@[i]
                        == arithmetic::applied(average, buffer.pixels@[i])
                &&& ({
                    let c = if denoiser == Denoiser::Nlm {
                        #[trigger] denoise::nlm_at(
                            differ,
                            weigh,
                            divide,
                            image,
                            denoise::usual_nlm(),
                            x,
                            y,
                        )
                    } else {
                        denoise::bilateral_at(
                            gather,
                            divide,
                            image,
                            guides.normal,
                            guides.albedo,
                            denoise::usual_bilateral(),
                            x,
                            y,
                        )
                    };
                    let at = 3 * (y * buffer.width + x);
                    let toned = arithmetic::applied(tone_color, c);
                    bytes[at] == toned.0 && bytes[at + 1] == toned.1 && bytes[at + 2] == toned.2
                })
            },
{
    let (image, out) = choose|image: ImageRgb, out: ImageRgb| #[trigger]
        mean_picture(buffer, average, image) && #[trigger] filtered(
            denoiser,
            image,
            guides,
            out,
            gather,
            differ,
            weigh,
            divide,
        ) && bytes == tiles::packed(
            out.pixels@.map_values(|p: Vec3| arithmetic::applied(tone_color, p)),
        );
    let colors = out.pixels@.map_values(|p: Vec3| arithmetic::applied(tone_color, p));
    let i = y * buffer.width + x;
    denoise::nearest_place_is_inside(out, x, y);
    tiles::colors_keep_their_bytes(colors, i);
    assert(out.at(x, y) == out.pixels@[i]);
    assert(colors[i] == arithmetic::applied(tone_color, out.at(x, y)));
    assert(3 * buffer.width * buffer.height == 3 * (buffer.width * buffer.height))
        by (nonlinear_arith);
    let other = denoise::nlm_at(differ, weigh, divide, image, denoise::usual_nlm(), x, y);
}

} // verus!
