//! Panoramas: pictures all around, twice as wide as high.
use vstd::prelude::*;

use crate::final_render;
use crate::materials::library::MaterialLibrary;
use crate::materials::material::PbrMaterial;
use crate::path_trace::{CameraProjection, PathTraceConfig};
use crate::preset::{RenderPreset, RenderPresetConfig};
use crate::scene::{RenderCamera, RenderScene};

verus! {

#[derive(Clone, Copy, Debug, PartialEq, Eq, Structural)]
pub enum PanoramaError {
    NoCamera,
    Cancelled,
}

impl PanoramaError {
    /// What the error says.
    pub open spec fn wording(self) -> Seq<char> {
        match self {
            PanoramaError::NoCamera => "scene has no cameras; cannot render panorama"@,
            PanoramaError::Cancelled => "panorama render cancelled"@,
        }
    }

    /// What the error says.
    pub fn message(self) -> (r: &'static str)
        ensures
            r@ == self.wording(),
    {
        match self {
            PanoramaError::NoCamera => "scene has no cameras; cannot render panorama",
            PanoramaError::Cancelled => "panorama render cancelled",
        }
    }
}

/// A finished panorama.
#[derive(Debug, PartialEq)]
pub struct PanoramaOutput {
    pub path: String,
    pub width: u32,
    pub height: u32,
    pub samples_per_pixel: u32,
    /// Nanoseconds of rendering, without writing the picture.
    pub elapsed_nanos: u64,
    pub denoised: bool,
}

/// Panoramas with the materials of a library.
pub struct PanoramaPipeline {
    pub materials: MaterialLibrary,
}

/// The settings that a preset makes for a panorama: all around, at least two pixels
/// wide, and half as high as wide whatever the preset says.
pub open spec fn panorama_config_of(preset: RenderPresetConfig) -> PathTraceConfig {
    let plain = final_render::config_of(preset, CameraProjection::Equirectangular);
    let width = final_render::at_least(plain.width, 2);
    PathTraceConfig { width, height: width / 2, ..plain }
}

impl PanoramaPipeline {
    pub fn new() -> (r: PanoramaPipeline)
        ensures
            r.materials.wf(),
            r.materials.listed() == Seq::<PbrMaterial>::empty(),
    {
        PanoramaPipeline { materials: MaterialLibrary::new() }
    }

    pub fn with_materials(materials: MaterialLibrary) -> (r: PanoramaPipeline)
        ensures
            r == (PanoramaPipeline { materials }),
    {
        PanoramaPipeline { materials }
    }

    /// The camera that a panorama is taken from unless another is given: the first.
    pub fn default_camera(scene: &RenderScene) -> (r: Result<RenderCamera, PanoramaError>)
        ensures
            r is Ok <==> scene.cameras@.len() > 0,
            r is Ok ==> r->Ok_0 == scene.cameras@[0],
            r is Err ==> r->Err_0 == PanoramaError::NoCamera,
    {
        if scene.cameras.len() == 0 {
            Err(PanoramaError::NoCamera)
        } else {
            Ok(scene.cameras[0].clone())
        }
    }

    /// The settings that a preset makes for a panorama.
    pub fn config(preset: &RenderPresetConfig) -> (r: PathTraceConfig)
        ensures
            r == panorama_config_of(*preset),
    {
        let mut config: PathTraceConfig = final_render::path_trace_config_from_preset(
            preset,
            CameraProjection::Equirectangular,
        );
        let width: u32 = if config.width < 2 {
            2
        } else {
            config.width
        };
        config.width = width;
        config.height = width / 2;
        config
    }

    /// What came of a panorama: an error, when it was cancelled.
    pub fn conclude(
        preset: &RenderPreset,
        path: String,
        width: u32,
        height: u32,
        elapsed_nanos: u64,
        cancelled: bool,
    ) -> (r: Result<PanoramaOutput, PanoramaError>)
        ensures
            r is Ok <==> !cancelled,
            r is Ok ==> r->Ok_0 == (PanoramaOutput {
                path,
                width,
                height,
                samples_per_pixel: preset.config.samples,
                elapsed_nanos,
                denoised: preset.config.denoise,
            }),
            r is Err ==> r->Err_0 == PanoramaError::Cancelled,
    {
        if cancelled {
            Err(PanoramaError::Cancelled)
        } else {
            Ok(
                PanoramaOutput {
                    path,
                    width,
                    height,
                    samples_per_pixel: preset.config.samples,
                    elapsed_nanos,
                    denoised: preset.config.denoise,
                },
            )
        }
    }
}

impl Default for PanoramaPipeline {
    fn default() -> (r: PanoramaPipeline)
        ensures
            r.materials.wf(),
            r.materials.listed() == Seq::<PbrMaterial>::empty(),
    {
        PanoramaPipeline::new()
    }
}

/// Every panorama is twice as wide as high, but for one column where its width is
/// odd, and has a pixel.
pub proof fn panoramas_are_two_to_one(preset: RenderPresetConfig)
    ensures
        panorama_config_of(preset).height >= 1,
        2 * panorama_config_of(preset).height <= panorama_config_of(preset).width,
        panorama_config_of(preset).width <= 2 * panorama_config_of(preset).height + 1,
        preset.resolution_x >= 2 ==> panorama_config_of(preset).width == preset.resolution_x,
        panorama_config_of(preset).projection == CameraProjection::Equirectangular,
{
}

/// A panorama is rendered as a picture of the same preset would be, but for its size and for
/// showing all that is around.
pub proof fn panoramas_are_rendered_like_pictures(preset: RenderPresetConfig)
    ensures
        ({
            let p = panorama_config_of(preset);
            let flat = final_render::config_of(preset, CameraProjection::Perspective);
            &&& p.samples_per_pixel == flat.samples_per_pixel
            &&& p.max_bounces == flat.max_bounces
            &&& p.tile_size == flat.tile_size
            &&& p.russian_roulette_min_bounces == flat.russian_roulette_min_bounces
            &&& p.adaptive_threshold == flat.adaptive_threshold
            &&& preset.resolution_x < 2 ==> p.width == 2
        }),
{
}

} // verus!
