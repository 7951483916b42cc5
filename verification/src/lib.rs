//! Rendering jobs, presets, scenes and acceleration structures.
pub mod arithmetic;
pub mod blender_discovery;
pub mod bvh;
pub mod cameras;
pub mod catalog;
pub mod clock;
pub mod compare;
pub mod denoise;
pub mod doctor;
pub mod environment;
pub mod final_render;
pub mod geometry;
pub mod gpu_trace;
pub mod history;
pub mod ids;
pub mod ies;
pub mod intersect;
pub mod job;
pub mod job_store;
pub mod light_sampling;
pub mod lighting;
pub mod material;
pub mod materials;
pub mod order;
pub mod panorama;
pub mod path_trace;
pub mod path_walk;
pub mod photometry;
pub mod preset;
pub mod preview;
pub mod queue;
pub mod sampling;
pub mod scene;
pub mod shader;
pub mod single;
pub mod text;
pub mod tiles;
pub mod worker;
