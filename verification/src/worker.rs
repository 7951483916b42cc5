//! Requests to the external render worker.
use vstd::prelude::*;

use crate::preset::{RenderPreset, RenderQuality};
use crate::scene::RenderScene;

verus! {

#[derive(Debug, PartialEq)]
pub enum BlenderRequest {
    EeveeRender { scene: Box<RenderScene>, preset: Box<RenderPreset>, output_path: String },
    CyclesRender { scene: Box<RenderScene>, preset: Box<RenderPreset>, output_path: String },
}

/// A preset at another quality.
pub open spec fn at_quality(preset: RenderPreset, quality: RenderQuality) -> RenderPreset {
    RenderPreset {
        config: crate::preset::RenderPresetConfig { quality, ..preset.config },
        ..preset
    }
}

/// Final renders.
pub struct CyclesPipeline;

impl CyclesPipeline {
    /// The request for a final render. A preset of preview quality is raised to
    /// standard quality.
    pub fn build_request(
        scene: RenderScene,
        preset: RenderPreset,
        output_path: String,
    ) -> (r: BlenderRequest)
        ensures
            r == (BlenderRequest::CyclesRender {
                scene: Box::new(scene),
                preset: Box::new(
                    if preset.config.quality == RenderQuality::Eevee {
                        at_quality(preset, RenderQuality::Standard)
                    } else {
                        preset
                    },
                ),
                output_path,
            }),
    {
        let mut preset = preset;
        if preset.config.quality == RenderQuality::Eevee {
            preset.config.quality = RenderQuality::Standard;
        }
        BlenderRequest::CyclesRender {
            scene: Box::new(scene),
            preset: Box::new(preset),
            output_path,
        }
    }
}

/// Preview renders.
pub struct EeveePipeline;

impl EeveePipeline {
    /// The request for a preview render, at preview quality whatever the preset.
    pub fn build_request(
        scene: RenderScene,
        preset: RenderPreset,
        output_path: String,
    ) -> (r: BlenderRequest)
        ensures
            r == (BlenderRequest::EeveeRender {
                scene: Box::new(scene),
                preset: Box::new(at_quality(preset, RenderQuality::Eevee)),
                output_path,
            }),
    {
        let mut preset = preset;
        preset.config.quality = RenderQuality::Eevee;
        BlenderRequest::EeveeRender {
            scene: Box::new(scene),
            preset: Box::new(preset),
            output_path,
        }
    }
}

/// A preset at another quality differs in its quality alone.
pub proof fn only_the_quality_changes(preset: RenderPreset, quality: RenderQuality)
    ensures
        at_quality(preset, quality).config.quality == quality,
        at_quality(preset, preset.config.quality) == preset,
        at_quality(at_quality(preset, quality), preset.config.quality) == preset,
{
}

} // verus!
