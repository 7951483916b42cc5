//! The scene and the settings as flat tables for the compute shader, and the light
//! that comes back from it.
use vstd::prelude::*;

use crate::arithmetic;
use crate::bvh::BvhNode;
use crate::geometry;
use crate::geometry::{Vec2, Vec3, Vec4};
use crate::intersect::ShadingTriangle;
use crate::light_sampling;
use crate::light_sampling::NativeLight;
use crate::material::PathTraceMaterial;
use crate::path_trace;
use crate::path_trace::{
    CameraProjection,
    Course,
    PathTraceConfig,
    PathTraceScene,
    ViewArithmetic,
    ViewFrame,
};
use crate::photometry::{AngleArithmetic, Blend};
use crate::scene::RenderCamera;
pub use crate::shader::SHADER_SOURCE;
use crate::single::Single;
use crate::text;
use crate::tiles::AccumulationBuffer;

verus! {

#[derive(Debug, PartialEq)]
pub enum GpuTraceError {
    NoAdapter,
    DeviceRequest(String),
    Shader(String),
    Scene(String),
}

impl GpuTraceError {
    /// What the error says.
    pub open spec fn wording(self) -> Seq<char> {
        match self {
            GpuTraceError::NoAdapter => "could not request a wgpu adapter (headless / no GPU?)"@,
            GpuTraceError::DeviceRequest(why) => "device request failed: "@ + why@,
            GpuTraceError::Shader(why) => "shader compilation failed: "@ + why@,
            GpuTraceError::Scene(why) => "scene buffer build failed: "@ + why@,
        }
    }

    /// What the error says.
    pub fn message(&self) -> (r: String)
        ensures
            r@ == self.wording(),
    {
        match self {
            GpuTraceError::NoAdapter =>
                "could not request a wgpu adapter (headless / no GPU?)".to_owned(),
            GpuTraceError::DeviceRequest(why) => text::prefixed(
                "device request failed: ",
                why.as_str(),
            ),
            GpuTraceError::Shader(why) => text::prefixed(
                "shader compilation failed: ",
                why.as_str(),
            ),
            GpuTraceError::Scene(why) => text::prefixed(
                "scene buffer build failed: ",
                why.as_str(),
            ),
        }
    }
}

// ---- the tables --------------------------------------------------------

/// A node of the tree, in 8 words.
#[derive(Clone, Copy, Debug, PartialEq)]
pub struct BvhNodeGpu {
    pub min: Vec3,
    pub left_or_start: u32,
    pub max: Vec3,
    pub prim_count: u32,
}

/// A triangle, in 12 words.
#[derive(Clone, Copy, Debug, PartialEq)]
pub struct TriangleGpu {
    pub v0: Vec3,
    pub v1: Vec3,
    pub v2: Vec3,
    pub material_id: i32,
}

/// A material, in 12 words.
#[derive(Clone, Copy, Debug, PartialEq)]
pub struct MaterialGpu {
    pub base_color: Vec3,
    pub metallic: Single,
    pub emissive: Vec3,
    pub roughness: Single,
    pub f0: Vec3,
    pub ior: Single,
}

/// A light, in 24 words.
#[derive(Clone, Copy, Debug, PartialEq)]
pub struct LightGpu {
    /// 0 for a sun, 1 for a point light, 2 for an area light.
    pub kind: u32,
    pub position: Vec3,
    pub params: Vec4,
    pub extra: Vec4,
    pub size: Vec2,
    pub emission: Vec3,
}

/// What the shader is told of a render, in 32 words.
#[derive(Clone, Copy, Debug, PartialEq)]
pub struct ParamsGpu {
    pub width: u32,
    pub height: u32,
    pub samples_per_pixel: u32,
    pub max_bounces: u32,
    pub tri_count: u32,
    pub bvh_count: u32,
    pub mat_count: u32,
    pub light_count: u32,
    pub camera_origin: Vec3,
    pub focal_half_h: Single,
    pub camera_right: Vec3,
    pub aspect: Single,
    pub camera_up: Vec3,
    pub camera_forward: Vec3,
    pub seed: u32,
    pub sky_color: Vec3,
    pub sky_strength: Single,
    /// 0 for perspective, 1 for all around.
    pub projection: u32,
}

/// A row of a table that the shader reads.
pub trait GpuRow: Sized {
    /// The words of the row.
    spec fn layout(self) -> Seq<u32>;

    /// Appends the words of the row.
    fn write(&self, out: &mut Vec<u32>)
        ensures
            final(out)@ == old(out)@ + self.layout(),
    ;
}

/// The words of the rows of a table.
pub open spec fn words_of<T: GpuRow>(rows: Seq<T>) -> Seq<u32>
    decreases rows.len(),
{
    if rows.len() == 0 {
        Seq::empty()
    } else {
        words_of(rows.drop_last()) + rows.last().layout()
    }
}

/// The words of a table. The shader's tables are never empty: one without rows gets
/// a row that is not read.
pub open spec fn table<T: GpuRow>(rows: Seq<T>, stub: T) -> Seq<u32> {
    if rows.len() == 0 {
        stub.layout()
    } else {
        words_of(rows)
    }
}

fn write_table<T: GpuRow>(rows: &Vec<T>, stub: T) -> (r: Vec<u32>)
    ensures
        r@ == table(rows@, stub),
{
    let mut out: Vec<u32> = Vec::new();
    if rows.len() == 0 {
        stub.write(&mut out);
        proof {
            assert(out@ =~= stub.layout());
        }
        return out;
    }
    let mut i: usize = 0;
    proof {
        assert(rows@.take(0) =~= Seq::empty());
    }
    while i < rows.len()
        invariant
            i <= rows@.len(),
            out@ == words_of(rows@.take(i as int)),
        decreases rows@.len() - i,
    {
        rows[i].write(&mut out);
        proof {
            assert(rows@.take(i + 1).drop_last() =~= rows@.take(i as int));
            assert(rows@.take(i + 1).last() == rows@[i as int]);
        }
        i = i + 1;
    }
    proof {
        assert(rows@.take(i as int) =~= rows@);
    }
    out
}

fn push_vec3(out: &mut Vec<u32>, v: Vec3)
    ensures
        final(out)@ == old(out)@ + seq![v.x.bits, v.y.bits, v.z.bits],
{
    let ghost before = out@;
    out.push(v.x.to_bits());
    out.push(v.y.to_bits());
    out.push(v.z.to_bits());
    proof {
        assert(out@ =~= before + seq![v.x.bits, v.y.bits, v.z.bits]);
    }
}

fn push_vec4(out: &mut Vec<u32>, v: Vec4)
    ensures
        final(out)@ == old(out)@ + seq![v.x.bits, v.y.bits, v.z.bits, v.w.bits],
{
    let ghost before = out@;
    out.push(v.x.to_bits());
    out.push(v.y.to_bits());
    out.push(v.z.to_bits());
    out.push(v.w.to_bits());
    proof {
        assert(out@ =~= before + seq![v.x.bits, v.y.bits, v.z.bits, v.w.bits]);
    }
}

impl GpuRow for BvhNodeGpu {
    open spec fn layout(self) -> Seq<u32> {
        seq![
            self.min.x.bits,
            self.min.y.bits,
            self.min.z.bits,
            self.left_or_start,
            self.max.x.bits,
            self.max.y.bits,
            self.max.z.bits,
            self.prim_count,
        ]
    }

    fn write(&self, out: &mut Vec<u32>)
    {
        let ghost before = out@;
        push_vec3(out, self.min);
        out.push(self.left_or_start);
        push_vec3(out, self.max);
        out.push(self.prim_count);
        proof {
            assert(out@ =~= before + self.layout());
        }
    }
}

impl GpuRow for TriangleGpu {
    open spec fn layout(self) -> Seq<u32> {
        seq![
            self.v0.x.bits,
            self.v0.y.bits,
            self.v0.z.bits,
            0,
            self.v1.x.bits,
            self.v1.y.bits,
            self.v1.z.bits,
            0,
            self.v2.x.bits,
            self.v2.y.bits,
            self.v2.z.bits,
            twos_complement(self.material_id),
        ]
    }

    fn write(&self, out: &mut Vec<u32>)
    {
        let ghost before = out@;
        push_vec3(out, self.v0);
        out.push(0);
        push_vec3(out, self.v1);
        out.push(0);
        push_vec3(out, self.v2);
        out.push(word_of(self.material_id));
        proof {
            assert(out@ =~= before + self.layout());
        }
    }
}

/// A signed number as a word.
pub open spec fn twos_complement(n: i32) -> u32 {
    if n >= 0 {
        n as u32
    } else {
        (n + 0x1_0000_0000) as u32
    }
}

fn word_of(n: i32) -> (r: u32)
    ensures
        r == twos_complement(n),
{
    if n >= 0 {
        n as u32
    } else {
        (n as i64 + 0x1_0000_0000) as u32
    }
}

impl GpuRow for MaterialGpu {
    open spec fn layout(self) -> Seq<u32> {
        seq![
            self.base_color.x.bits,
            self.base_color.y.bits,
            self.base_color.z.bits,
            self.metallic.bits,
            self.emissive.x.bits,
            self.emissive.y.bits,
            self.emissive.z.bits,
            self.roughness.bits,
            self.f0.x.bits,
            self.f0.y.bits,
            self.f0.z.bits,
            self.ior.bits,
        ]
    }

    fn write(&self, out: &mut Vec<u32>)
    {
        let ghost before = out@;
        push_vec3(out, self.base_color);
        out.push(self.metallic.to_bits());
        push_vec3(out, self.emissive);
        out.push(self.roughness.to_bits());
        push_vec3(out, self.f0);
        out.push(self.ior.to_bits());
        proof {
            assert(out@ =~= before + self.layout());
        }
    }
}

impl GpuRow for LightGpu {
    open spec fn layout(self) -> Seq<u32> {
        seq![
            self.kind,
            0,
            0,
            0,
            self.position.x.bits,
            self.position.y.bits,
            self.position.z.bits,
            0,
            self.params.x.bits,
            self.params.y.bits,
            self.params.z.bits,
            self.params.w.bits,
            self.extra.x.bits,
            self.extra.y.bits,
            self.extra.z.bits,
            self.extra.w.bits,
            self.size.x.bits,
            self.size.y.bits,
            0,
            0,
            self.emission.x.bits,
            self.emission.y.bits,
            self.emission.z.bits,
            0,
        ]
    }

    fn write(&self, out: &mut Vec<u32>)
    {
        let ghost before = out@;
        out.push(self.kind);
        out.push(0);
        out.push(0);
        out.push(0);
        push_vec3(out, self.position);
        out.push(0);
        push_vec4(out, self.params);
        push_vec4(out, self.extra);
        out.push(self.size.x.to_bits());
        out.push(self.size.y.to_bits());
        out.push(0);
        out.push(0);
        push_vec3(out, self.emission);
        out.push(0);
        proof {
            assert(out@ =~= before + self.layout());
        }
    }

}

impl LightGpu {
    /// A light as the shader takes it. A sun has its direction in place of a position;
    /// a light with a photometric profile is a point light as bright as the profile
    /// says straight down, by one candela at least.
    pub open spec fn of<U: Fn(Vec3) -> Vec3, G: Fn(Vec3, Single, Single) -> Vec3>(
        l: NativeLight,
        candela_down: Single,
        unit: U,
        glow: G,
    ) -> LightGpu {
        match l {
            NativeLight::Sun { direction, radiance, angular_radius_rad } => LightGpu {
                kind: 0,
                position: arithmetic::applied(unit, direction),
                params: Vec4 { x: angular_radius_rad, ..nil4() },
                extra: nil4(),
                size: nil2(),
                emission: radiance,
            },
            NativeLight::Point { position, intensity } => LightGpu {
                kind: 1,
                position,
                params: nil4(),
                extra: nil4(),
                size: nil2(),
                emission: intensity,
            },
            NativeLight::Area { position, normal, u_axis, v_axis, width, height, radiance } =>
                LightGpu {
                    kind: 2,
                    position,
                    params: Vec4 { x: u_axis.x, y: u_axis.y, z: u_axis.z, ..nil4() },
                    extra: Vec4 { x: v_axis.x, y: v_axis.y, z: v_axis.z, ..nil4() },
                    size: Vec2 { x: width, y: height },
                    emission: radiance,
                },
            NativeLight::Ies { position, forward, up, profile, intensity_scale, color } => LightGpu {
                kind: 1,
                position,
                params: nil4(),
                extra: nil4(),
                size: nil2(),
                emission: arithmetic::applied3(
                    glow,
                    color,
                    candela_down.greatest(Single { bits: 0x3f80_0000 }),
                    intensity_scale,
                ),
            },
        }
    }

    /// Whether `r` is a light as the shader takes it. Straight down is where both
    /// angles are 0.
    pub open spec fn stands_for<
        M: Fn(Single, Single) -> Single,
        P: Fn(Single, Single) -> Single,
        W: Fn(Single) -> Single,
        T: Fn(Single, Single, Single) -> Single,
        B: Fn(Blend) -> Single,
        U: Fn(Vec3) -> Vec3,
        G: Fn(Vec3, Single, Single) -> Vec3,
    >(
        l: NativeLight,
        angles: AngleArithmetic<M, P, W, T, B>,
        unit: U,
        glow: G,
        r: LightGpu,
    ) -> bool {
        match l {
            NativeLight::Ies { profile, .. } => exists|candela: Single| #[trigger]
                angles.candela_toward(
                    profile@,
                    Single { bits: 0 },
                    Single { bits: 0 },
                    candela,
                ) && r == LightGpu::of(l, candela, unit, glow),
            _ => r == LightGpu::of(l, Single { bits: 0 }, unit, glow),
        }
    }

    /// A light as the shader takes it.
    ///
    /// `angles` reads a photometric profile, `unit` makes a direction of length 1, and
    /// `glow` is a color times a brightness times a scale.
    pub fn from_native<
        M: Fn(Single, Single) -> Single,
        P: Fn(Single, Single) -> Single,
        W: Fn(Single) -> Single,
        T: Fn(Single, Single, Single) -> Single,
        B: Fn(Blend) -> Single,
        U: Fn(Vec3) -> Vec3,
        G: Fn(Vec3, Single, Single) -> Vec3,
    >(
        l: &NativeLight,
        angles: &AngleArithmetic<M, P, W, T, B>,
        unit: &U,
        glow: &G,
    ) -> (r: LightGpu)
        requires
            light_sampling::readable(*l),
            angles.wf(),
            arithmetic::steady(*unit),
            arithmetic::steady3(*glow),
        ensures
            LightGpu::stands_for(*l, *angles, *unit, *glow, r),
    {
        let zero: Single = Single::zero();
        let none4: Vec4 = Vec4 { x: zero, y: zero, z: zero, w: zero };
        let none2: Vec2 = Vec2 { x: zero, y: zero };
        match l {
            NativeLight::Sun { direction, radiance, angular_radius_rad } => {
                let position: Vec3 = unit(*direction);
                LightGpu {
                    kind: 0,
                    position,
                    params: Vec4 { x: *angular_radius_rad, y: zero, z: zero, w: zero },
                    extra: none4,
                    size: none2,
                    emission: *radiance,
                }
            },
            NativeLight::Point { position, intensity } => LightGpu {
                kind: 1,
                position: *position,
                params: none4,
                extra: none4,
                size: none2,
                emission: *intensity,
            },
            NativeLight::Area { position, u_axis, v_axis, width, height, radiance, .. } => LightGpu {
                kind: 2,
                position: *position,
                params: Vec4 { x: u_axis.x, y: u_axis.y, z: u_axis.z, w: zero },
                extra: Vec4 { x: v_axis.x, y: v_axis.y, z: v_axis.z, w: zero },
                size: Vec2 { x: *width, y: *height },
                emission: *radiance,
            },
            NativeLight::Ies { position, profile, intensity_scale, color, .. } => {
                let candela: Single = profile.candela_at(zero, zero, angles);
                let emission: Vec3 = glow(*color, candela.max(Single::one()), *intensity_scale);
                LightGpu {
                    kind: 1,
                    position: *position,
                    params: none4,
                    extra: none4,
                    size: none2,
                    emission,
                }
            },
        }
    }
}

/// Four zeros.
pub open spec fn nil4() -> Vec4 {
    Vec4 {
        x: Single { bits: 0 },
        y: Single { bits: 0 },
        z: Single { bits: 0 },
        w: Single { bits: 0 },
    }
}

/// Two zeros.
pub open spec fn nil2() -> Vec2 {
    Vec2 { x: Single { bits: 0 }, y: Single { bits: 0 } }
}

impl ParamsGpu {
    /// The words of the settings.
    pub open spec fn layout(self) -> Seq<u32> {
        seq![
            self.width,
            self.height,
            self.samples_per_pixel,
            self.max_bounces,
            self.tri_count,
            self.bvh_count,
            self.mat_count,
            self.light_count,
            self.camera_origin.x.bits,
            self.camera_origin.y.bits,
            self.camera_origin.z.bits,
            self.focal_half_h.bits,
            self.camera_right.x.bits,
            self.camera_right.y.bits,
            self.camera_right.z.bits,
            self.aspect.bits,
            self.camera_up.x.bits,
            self.camera_up.y.bits,
            self.camera_up.z.bits,
            0,
            self.camera_forward.x.bits,
            self.camera_forward.y.bits,
            self.camera_forward.z.bits,
            self.seed,
            self.sky_color.x.bits,
            self.sky_color.y.bits,
            self.sky_color.z.bits,
            self.sky_strength.bits,
            self.projection,
            0,
            0,
            0,
        ]
    }

    /// Appends the words of the settings.
    pub fn write(&self, out: &mut Vec<u32>)
        ensures
            final(out)@ == old(out)@ + self.layout(),
    {
        let ghost before = out@;
        out.push(self.width);
        out.push(self.height);
        out.push(self.samples_per_pixel);
        out.push(self.max_bounces);
        out.push(self.tri_count);
        out.push(self.bvh_count);
        out.push(self.mat_count);
        out.push(self.light_count);
        push_vec3(out, self.camera_origin);
        out.push(self.focal_half_h.to_bits());
        push_vec3(out, self.camera_right);
        out.push(self.aspect.to_bits());
        push_vec3(out, self.camera_up);
        out.push(0);
        push_vec3(out, self.camera_forward);
        out.push(self.seed);
        push_vec3(out, self.sky_color);
        out.push(self.sky_strength.to_bits());
        out.push(self.projection);
        out.push(0);
        out.push(0);
        out.push(0);
        proof {
            assert(out@ =~= before + self.layout());
        }
    }
}

// ---- the scene ---------------------------------------------------------

/// A scene as the shader takes it.
#[derive(Debug, PartialEq)]
pub struct GpuSceneBuffers {
    pub bvh_nodes: Vec<BvhNodeGpu>,
    /// In the order in which the leaves of the tree list them.
    pub triangles: Vec<TriangleGpu>,
    pub materials: Vec<MaterialGpu>,
    pub lights: Vec<LightGpu>,
    pub sky_color: Vec3,
    pub sky_strength: Single,
}

/// A node as the shader takes it.
pub open spec fn node_of(n: BvhNode) -> BvhNodeGpu {
    BvhNodeGpu {
        min: n.bounds.min,
        left_or_start: n.left_or_start,
        max: n.bounds.max,
        prim_count: n.prim_count,
    }
}

/// A triangle as the shader takes it.
pub open spec fn triangle_of(scene: PathTraceScene, i: int) -> TriangleGpu {
    TriangleGpu {
        v0: scene.triangles@[i].v0,
        v1: scene.triangles@[i].v1,
        v2: scene.triangles@[i].v2,
        material_id: scene.material_ids@[i],
    }
}

/// A material as the shader takes it.
pub open spec fn material_of<R: Fn(PathTraceMaterial) -> Vec3>(
    m: PathTraceMaterial,
    reflectance: R,
) -> MaterialGpu {
    MaterialGpu {
        base_color: m.base_color,
        metallic: m.metallic,
        emissive: m.emissive,
        roughness: m.roughness,
        f0: arithmetic::applied(reflectance, m),
        ior: m.ior,
    }
}

/// The order in which the shader finds the triangles: that of the tree, or that of
/// the scene where there is no tree.
pub open spec fn triangle_order(scene: PathTraceScene) -> Seq<u32> {
    if scene.bvh.prim_indices@.len() == 0 {
        Seq::new(scene.triangles@.len(), |i: int| i as u32)
    } else {
        scene.bvh.prim_indices@
    }
}

impl GpuSceneBuffers {
    /// A scene as the shader takes it.
    ///
    /// `reflectance` is how much a material reflects head on, `angles` reads a
    /// photometric profile, `unit` makes a direction of length 1, and `glow` is a color
    /// times a brightness times a scale.
    pub fn build<
        R: Fn(PathTraceMaterial) -> Vec3,
        M: Fn(Single, Single) -> Single,
        P: Fn(Single, Single) -> Single,
        W: Fn(Single) -> Single,
        T: Fn(Single, Single, Single) -> Single,
        B: Fn(Blend) -> Single,
        U: Fn(Vec3) -> Vec3,
        G: Fn(Vec3, Single, Single) -> Vec3,
    >(
        scene: &PathTraceScene,
        reflectance: R,
        angles: &AngleArithmetic<M, P, W, T, B>,
        unit: U,
        glow: G,
    ) -> (r: GpuSceneBuffers)
        requires
            scene.wf(),
            scene.triangles@.len() <= u32::MAX,
            arithmetic::steady(reflectance),
            angles.wf(),
            arithmetic::steady(unit),
            arithmetic::steady3(glow),
        ensures
            r.bvh_nodes@ == scene.bvh.nodes@.map_values(|n: BvhNode| node_of(n)),
            r.triangles@ == triangle_order(*scene).map_values(
                |i: u32| triangle_of(*scene, i as int),
            ),
            r.materials@ == scene.materials@.map_values(
                |m: PathTraceMaterial| material_of(m, reflectance),
            ),
            r.lights@.len() == scene.lights@.len(),
            forall|i: int|
                0 <= i < scene.lights@.len() ==> LightGpu::stands_for(
                    scene.lights@[i],
                    *angles,
                    unit,
                    glow,
                    #[trigger] r.lights@[i],
                ),
            r.sky_color == scene.sky.color,
            r.sky_strength == scene.sky.strength,
    {
        let mut bvh_nodes: Vec<BvhNodeGpu> = Vec::new();
        let mut i: usize = 0;
        while i < scene.bvh.nodes.len()
            invariant
                i <= scene.bvh.nodes@.len(),
                bvh_nodes@.len() == i,
                forall|j: int|
                    0 <= j < i ==> #[trigger] bvh_nodes@[j] == node_of(scene.bvh.nodes@[j]),
            decreases scene.bvh.nodes@.len() - i,
        {
            let n: BvhNode = scene.bvh.nodes[i];
            bvh_nodes.push(
                BvhNodeGpu {
                    min: n.bounds.min,
                    left_or_start: n.left_or_start,
                    max: n.bounds.max,
                    prim_count: n.prim_count,
                },
            );
            i = i + 1;
        }
        proof {
            assert(bvh_nodes@ =~= scene.bvh.nodes@.map_values(|n: BvhNode| node_of(n)));
        }
        let triangles: Vec<TriangleGpu> = ordered_triangles(scene);
        let mut materials: Vec<MaterialGpu> = Vec::new();
        let mut k: usize = 0;
        while k < scene.materials.len()
            invariant
                arithmetic::steady(reflectance),
                k <= scene.materials@.len(),
                materials@.len() == k,
                forall|j: int|
                    0 <= j < k ==> #[trigger] materials@[j] == material_of(
                        scene.materials@[j],
                        reflectance,
                    ),
            decreases scene.materials@.len() - k,
        {
            let m: PathTraceMaterial = scene.materials[k];
            let f0: Vec3 = reflectance(m);
            materials.push(
                MaterialGpu {
                    base_color: m.base_color,
                    metallic: m.metallic,
                    emissive: m.emissive,
                    roughness: m.roughness,
                    f0,
                    ior: m.ior,
                },
            );
            k = k + 1;
        }
        proof {
            assert(materials@ =~= scene.materials@.map_values(
                |m: PathTraceMaterial| material_of(m, reflectance),
            ));
        }
        let mut lights: Vec<LightGpu> = Vec::new();
        let mut l: usize = 0;
        while l < scene.lights.len()
            invariant
                arithmetic::steady(unit),
                arithmetic::steady3(glow),
                angles.wf(),
                forall|i: int|
                    0 <= i < scene.lights@.len() ==> light_sampling::readable(
                        #[trigger] scene.lights@[i],
                    ),
                l <= scene.lights@.len(),
                lights@.len() == l,
                forall|j: int|
                    0 <= j < l ==> LightGpu::stands_for(
                        scene.lights@[j],
                        *angles,
                        unit,
                        glow,
                        #[trigger] lights@[j],
                    ),
            decreases scene.lights@.len() - l,
        {
            lights.push(LightGpu::from_native(&scene.lights[l], angles, &unit, &glow));
            l = l + 1;
        }
        GpuSceneBuffers {
            bvh_nodes,
            triangles,
            materials,
            lights,
            sky_color: scene.sky.color,
            sky_strength: scene.sky.strength,
        }
    }

    pub fn bvh_node_count(&self) -> (r: usize)
        ensures
            r == self.bvh_nodes@.len(),
    {
        self.bvh_nodes.len()
    }

    pub fn triangle_count(&self) -> (r: usize)
        ensures
            r == self.triangles@.len(),
    {
        self.triangles.len()
    }

    pub fn material_count(&self) -> (r: usize)
        ensures
            r == self.materials@.len(),
    {
        self.materials.len()
    }

    pub fn light_count(&self) -> (r: usize)
        ensures
            r == self.lights@.len(),
    {
        self.lights.len()
    }

    /// The words of the nodes.
    pub fn node_words(&self) -> (r: Vec<u32>)
        ensures
            r@ == table(self.bvh_nodes@, stub_node()),
    {
        let zero: Vec3 = Vec3::splat(Single::zero());
        let stub = BvhNodeGpu { min: zero, left_or_start: 0, max: zero, prim_count: 0 };
        write_table(&self.bvh_nodes, stub)
    }

    /// The words of the triangles.
    pub fn triangle_words(&self) -> (r: Vec<u32>)
        ensures
            r@ == table(self.triangles@, stub_triangle()),
    {
        let zero: Vec3 = Vec3::splat(Single::zero());
        let stub = TriangleGpu { v0: zero, v1: zero, v2: zero, material_id: -1 };
        write_table(&self.triangles, stub)
    }

    /// The words of the materials.
    pub fn material_words(&self) -> (r: Vec<u32>)
        ensures
            r@ == table(self.materials@, stub_material()),
    {
        let half: Single = Single::from_bits(0x3f00_0000);  // 0.5
        let stub = MaterialGpu {
            base_color: Vec3::splat(half),
            metallic: Single::zero(),
            emissive: Vec3::splat(Single::zero()),
            roughness: half,
            f0: Vec3::splat(Single::from_bits(0x3d23_d70a)),  // 0.04
            ior: Single::from_bits(0x3fc0_0000),  // 1.5
        };
        write_table(&self.materials, stub)
    }

    /// The words of the lights.
    pub fn light_words(&self) -> (r: Vec<u32>)
        ensures
            r@ == table(self.lights@, stub_light()),
    {
        let zero: Single = Single::zero();
        let stub = LightGpu {
            kind: 1,
            position: Vec3::splat(zero),
            params: Vec4 { x: zero, y: zero, z: zero, w: zero },
            extra: Vec4 { x: zero, y: zero, z: zero, w: zero },
            size: Vec2 { x: zero, y: zero },
            emission: Vec3::splat(zero),
        };
        write_table(&self.lights, stub)
    }
}

/// A node that is not read.
pub open spec fn stub_node() -> BvhNodeGpu {
    BvhNodeGpu { min: geometry::zeros(), left_or_start: 0, max: geometry::zeros(), prim_count: 0 }
}

/// A triangle that is not read.
pub open spec fn stub_triangle() -> TriangleGpu {
    let zeros = geometry::zeros();
    TriangleGpu { v0: zeros, v1: zeros, v2: zeros, material_id: -1i32 }
}

/// A material that is not read.
pub open spec fn stub_material() -> MaterialGpu {
    let half = Single { bits: 0x3f00_0000 };  // 0.5
    let little = Single { bits: 0x3d23_d70a };  // 0.04
    MaterialGpu {
        base_color: Vec3 { x: half, y: half, z: half },
        metallic: Single { bits: 0 },
        emissive: geometry::zeros(),
        roughness: half,
        f0: Vec3 { x: little, y: little, z: little },
        ior: Single { bits: 0x3fc0_0000 },  // 1.5
    }
}

/// A light that is not read.
pub open spec fn stub_light() -> LightGpu {
    LightGpu {
        kind: 1,
        position: geometry::zeros(),
        params: nil4(),
        extra: nil4(),
        size: nil2(),
        emission: geometry::zeros(),
    }
}

fn ordered_triangles(scene: &PathTraceScene) -> (r: Vec<TriangleGpu>)
    requires
        scene.wf(),
        scene.triangles@.len() <= u32::MAX,
        forall|s: int|
            0 <= s < scene.bvh.prim_indices@.len() ==> (#[trigger] scene.bvh.prim_indices@[s])
                < scene.triangles@.len(),
    ensures
        r@ == triangle_order(*scene).map_values(|i: u32| triangle_of(*scene, i as int)),
{
    let flat: bool = scene.bvh.prim_indices.len() == 0;
    let count: usize = if flat {
        scene.triangles.len()
    } else {
        scene.bvh.prim_indices.len()
    };
    let ghost order = triangle_order(*scene);
    let mut out: Vec<TriangleGpu> = Vec::new();
    let mut i: usize = 0;
    while i < count
        invariant
            scene.wf(),
            scene.triangles@.len() <= u32::MAX,
            forall|s: int|
                0 <= s < scene.bvh.prim_indices@.len() ==> (#[trigger] scene.bvh.prim_indices@[s])
                    < scene.triangles@.len(),
            flat == (scene.bvh.prim_indices@.len() == 0),
            order == triangle_order(*scene),
            count == order.len(),
            i <= count,
            out@.len() == i,
            forall|j: int|
                0 <= j < i ==> #[trigger] out@[j] == triangle_of(*scene, order[j] as int),
        decreases count - i,
    {
        let at: usize = if flat {
            i
        } else {
            scene.bvh.prim_indices[i] as usize
        };
        let t: ShadingTriangle = scene.triangles[at];
        let material_id: i32 = scene.material_ids[at];
        out.push(TriangleGpu { v0: t.v0, v1: t.v1, v2: t.v2, material_id });
        i = i + 1;
    }
    proof {
        assert(out@ =~= order.map_values(|i: u32| triangle_of(*scene, i as int)));
    }
    out
}

// ---- the dispatch ------------------------------------------------------

/// The camera as the shader takes it.
#[derive(Clone, Copy, Debug, PartialEq)]
pub struct CameraFrame {
    pub origin: Vec3,
    pub forward: Vec3,
    pub right: Vec3,
    pub up: Vec3,
    pub focal_half_h: Single,
}

/// The camera as the shader takes it. `half` is half the height of what it sees at
/// distance 1, of its focal length.
pub fn build_camera_frame<
    S: Fn(Vec3) -> Vec3,
    T: Fn(Vec3, Vec3) -> Course,
    A: Fn(Vec3) -> Course,
    U: Fn(Vec3, Vec3) -> Vec3,
    H: Fn(Single) -> Single,
>(camera: &RenderCamera, numbers: &ViewArithmetic<S, T, A, U>, half: &H) -> (r: CameraFrame)
    requires
        numbers.is_steady(),
        arithmetic::steady(*half),
    ensures
        ({
            let view = numbers.view_of(*camera);
            r == CameraFrame {
                origin: view.origin,
                forward: view.forward,
                right: view.right,
                up: view.up,
                focal_half_h: path_trace::half_height_of(camera.focal_length_mm, *half),
            }
        }),
{
    let view: ViewFrame = path_trace::build_view(camera, numbers);
    CameraFrame {
        origin: view.origin,
        forward: view.forward,
        right: view.right,
        up: view.up,
        focal_half_h: path_trace::focal_to_half_height(camera.focal_length_mm, half),
    }
}

/// At least 1.
pub open spec fn positive(n: u32) -> u32 {
    if n == 0 {
        1
    } else {
        n
    }
}

/// What the shader is told of a render.
pub open spec fn params_of(
    config: PathTraceConfig,
    buffers: GpuSceneBuffers,
    frame: CameraFrame,
    aspect: Single,
) -> ParamsGpu {
    ParamsGpu {
        width: config.width,
        height: config.height,
        samples_per_pixel: positive(config.samples_per_pixel),
        max_bounces: positive(config.max_bounces),
        tri_count: buffers.triangles@.len() as u32,
        bvh_count: buffers.bvh_nodes@.len() as u32,
        mat_count: buffers.materials@.len() as u32,
        light_count: buffers.lights@.len() as u32,
        camera_origin: frame.origin,
        focal_half_h: frame.focal_half_h,
        camera_right: frame.right,
        aspect,
        camera_up: frame.up,
        camera_forward: frame.forward,
        seed: 0xC0FFEE,
        sky_color: buffers.sky_color,
        sky_strength: buffers.sky_strength,
        projection: match config.projection {
            CameraProjection::Perspective => 0,
            CameraProjection::Equirectangular => 1,
        },
    }
}

/// What is handed to the graphics adapter for a render.
#[derive(Debug, PartialEq)]
pub struct Dispatch {
    pub nodes: Vec<u32>,
    pub triangles: Vec<u32>,
    pub materials: Vec<u32>,
    pub lights: Vec<u32>,
    pub params: Vec<u32>,
    /// Groups of 8 by 8 pixels.
    pub workgroups_x: u32,
    pub workgroups_y: u32,
    /// Bytes of the light that comes back, 16 to a pixel.
    pub accumulator_bytes: u64,
}

/// Groups of eight that cover `n`.
pub open spec fn groups_of_eight(n: u32) -> int {
    (n + 7) / 8
}

fn count_groups(n: u32) -> (r: u32)
    ensures
        r == groups_of_eight(n),
{
    if n % 8 == 0 {
        n / 8
    } else {
        n / 8 + 1
    }
}

/// What is handed to the graphics adapter for a render; nothing when the render was
/// cancelled before. `aspect` is a width divided by a height, which is 1 at least.
pub fn plan_dispatch<R: Fn(u32, u32) -> Single>(
    buffers: &GpuSceneBuffers,
    config: &PathTraceConfig,
    frame: &CameraFrame,
    aspect: &R,
    cancelled: bool,
) -> (r: Option<Dispatch>)
    requires
        arithmetic::steady2(*aspect),
        buffers.triangles@.len() <= u32::MAX,
        buffers.bvh_nodes@.len() <= u32::MAX,
        buffers.materials@.len() <= u32::MAX,
        buffers.lights@.len() <= u32::MAX,
        config.width * config.height * 16 <= u64::MAX,
    ensures
        r is Some <==> !cancelled,
        r matches Some(d) ==> {
            &&& d.params@ == params_of(
                *config,
                *buffers,
                *frame,
                arithmetic::applied2(*aspect, config.width, positive(config.height)),
            ).layout()
            &&& d.workgroups_x == groups_of_eight(config.width)
            &&& d.workgroups_y == groups_of_eight(config.height)
            &&& d.accumulator_bytes == config.width * config.height * 16
            &&& d.nodes@ == table(buffers.bvh_nodes@, stub_node())
            &&& d.triangles@ == table(buffers.triangles@, stub_triangle())
            &&& d.materials@ == table(buffers.materials@, stub_material())
            &&& d.lights@ == table(buffers.lights@, stub_light())
        },
{
    if cancelled {
        return None;
    }
    let aspect: Single = aspect(
        config.width,
        if config.height == 0 {
            1
        } else {
            config.height
        },
    );
    let params = ParamsGpu {
        width: config.width,
        height: config.height,
        samples_per_pixel: if config.samples_per_pixel == 0 {
            1
        } else {
            config.samples_per_pixel
        },
        max_bounces: if config.max_bounces == 0 {
            1
        } else {
            config.max_bounces
        },
        tri_count: buffers.triangles.len() as u32,
        bvh_count: buffers.bvh_nodes.len() as u32,
        mat_count: buffers.materials.len() as u32,
        light_count: buffers.lights.len() as u32,
        camera_origin: frame.origin,
        focal_half_h: frame.focal_half_h,
        camera_right: frame.right,
        aspect,
        camera_up: frame.up,
        camera_forward: frame.forward,
        seed: 0xC0FFEE,
        sky_color: buffers.sky_color,
        sky_strength: buffers.sky_strength,
        projection: match config.projection {
            CameraProjection::Perspective => 0,
            CameraProjection::Equirectangular => 1,
        },
    };
    let mut words: Vec<u32> = Vec::new();
    params.write(&mut words);
    proof {
        assert(words@ =~= params.layout());
        assert(config.width * config.height <= 0xffff_ffff * 0xffff_ffff) by (nonlinear_arith)
            requires
                config.width <= 0xffff_ffff,
                config.height <= 0xffff_ffff,
        ;
    }
    Some(
        Dispatch {
            nodes: buffers.node_words(),
            triangles: buffers.triangle_words(),
            materials: buffers.material_words(),
            lights: buffers.light_words(),
            params: words,
            workgroups_x: count_groups(config.width),
            workgroups_y: count_groups(config.height),
            accumulator_bytes: config.width as u64 * config.height as u64 * 16,
        },
    )
}

/// The sums of a pixel, from the mean and the samples that the shader gives, which
/// are at least 1.
pub open spec fn summed<M: Fn(Single, Single) -> Single>(
    times: M,
    mean: Seq<Single>,
    i: int,
) -> Vec4 {
    let n = mean[4 * i + 3].greatest(Single { bits: 0x3f80_0000 });
    Vec4 {
        x: arithmetic::applied2(times, mean[4 * i], n),
        y: arithmetic::applied2(times, mean[4 * i + 1], n),
        z: arithmetic::applied2(times, mean[4 * i + 2], n),
        w: n,
    }
}

/// The light that came back from the shader, four numbers to a pixel: the mean color
/// and the number of samples. `times` multiplies two numbers.
pub fn collect_readback<M: Fn(Single, Single) -> Single>(
    width: u32,
    height: u32,
    floats: &Vec<Single>,
    times: M,
) -> (r: AccumulationBuffer)
    requires
        width * height * 4 == floats@.len(),
        arithmetic::steady2(times),
    ensures
        r.wf(),
        r.width == width,
        r.height == height,
        r.pixels@ == Seq::new(
            (width * height) as nat,
            |i: int| summed(times, floats@, i),
        ),
{
    let total: usize = floats.len();
    let count: usize = total / 4;
    let ghost area = width * height;
    proof {
        assert(4 * area == total);
        assert(count == area);
    }
    let mut pixels: Vec<Vec4> = Vec::new();
    let mut i: usize = 0;
    while i < count
        invariant
            arithmetic::steady2(times),
            total == floats@.len(),
            4 * count == total,
            area == count,
            i <= count,
            pixels@.len() == i,
            forall|j: int| 0 <= j < i ==> #[trigger] pixels@[j] == summed(times, floats@, j),
        decreases count - i,
    {
        let n: Single = floats[4 * i + 3].max(Single::one());
        let x: Single = times(floats[4 * i], n);
        let y: Single = times(floats[4 * i + 1], n);
        let z: Single = times(floats[4 * i + 2], n);
        pixels.push(Vec4 { x, y, z, w: n });
        i = i + 1;
    }
    proof {
        assert(pixels@ =~= Seq::new(area as nat, |i: int| summed(times, floats@, i)));
    }
    AccumulationBuffer { width, height, pixels }
}

/// Bytes of a table, at least 16.
pub fn storage_bytes(contents: Vec<u8>) -> (r: Vec<u8>)
    ensures
        contents@.len() > 0 ==> r@ == contents@,
        contents@.len() == 0 ==> r@ == Seq::new(16, |i: int| 0u8),
{
    let mut bytes: Vec<u8> = contents;
    if bytes.len() == 0 {
        let mut i: usize = 0;
        while i < 16
            invariant
                i <= 16,
                bytes@ == Seq::new(i as nat, |i: int| 0u8),
            decreases 16 - i,
        {
            bytes.push(0);
            i = i + 1;
            proof {
                assert(bytes@ =~= Seq::new(i as nat, |i: int| 0u8));
            }
        }
    }
    bytes
}

/// Storage buffers to a shader stage that an adapter must offer.
pub const STORAGE_BUFFERS: u32 = 8;

/// Whether an adapter that takes `storage_buffers` tables to a stage will do.
pub fn check_adapter(storage_buffers: u32) -> (r: Result<(), GpuTraceError>)
    ensures
        r is Ok <==> storage_buffers >= STORAGE_BUFFERS,
        r is Err ==> r->Err_0 == GpuTraceError::NoAdapter,
{
    if storage_buffers < STORAGE_BUFFERS {
        Err(GpuTraceError::NoAdapter)
    } else {
        Ok(())
    }
}

/// Who renders.
#[derive(Clone, Copy, Debug, PartialEq, Eq, Structural)]
pub enum Tracer {
    Gpu,
    /// The processor, with what guides the denoiser.
    CpuWithGuides,
    Cpu,
}

/// Who renders: the graphics adapter where there is one, which gives no guides.
pub fn choose_tracer(gpu_available: bool, capture_aux: bool) -> (r: Tracer)
    ensures
        r == if gpu_available {
            Tracer::Gpu
        } else if capture_aux {
            Tracer::CpuWithGuides
        } else {
            Tracer::Cpu
        },
{
    if gpu_available {
        Tracer::Gpu
    } else if capture_aux {
        Tracer::CpuWithGuides
    } else {
        Tracer::Cpu
    }
}

// ---- the shader --------------------------------------------------------

/// What the parser of the shading language finds wrong with a text.
pub uninterp spec fn parse_complaint(source: Seq<char>) -> Option<Seq<char>>;

/// What the validator finds wrong with a text that the parser takes.
pub uninterp spec fn validation_complaint(source: Seq<char>) -> Option<Seq<char>>;

/// What `naga::front::wgsl::parse_str` finds wrong with the tracing program: nothing, or
/// the message of its error. It depends on the text alone.
#[verifier::external_body]
fn parse_wgsl(source: &str) -> (r: Option<String>)
    requires
        source@ == SHADER_SOURCE@,
    ensures
        text::text_if_any(r) == parse_complaint(source@),
{
    naga::front::wgsl::parse_str(source).err().map(|e| e.to_string())
}

/// What `naga::valid::Validator::validate`, with all flags and capabilities, finds
/// wrong with the tracing program once it parses: nothing, or the message of its error.
/// It depends on the text alone.
#[verifier::external_body]
fn validate_wgsl(source: &str) -> (r: Option<String>)
    requires
        source@ == SHADER_SOURCE@,
        parse_complaint(source@) is None,
    ensures
        text::text_if_any(r) == validation_complaint(source@),
{
    let module = naga::front::wgsl::parse_str(source).unwrap();
    let flags = naga::valid::ValidationFlags::all();
    let capabilities = naga::valid::Capabilities::all();
    naga::valid::Validator::new(flags, capabilities).validate(&module).err().map(
        |e| e.to_string(),
    )
}

/// Whether a shader is sound, from what the parser and the validator find: the first
/// complaint stands.
pub fn shader_verdict(parse: Option<String>, validation: Option<String>) -> (r: Result<
    (),
    String,
>)
    ensures
        r == match parse {
            Some(e) => Err::<(), String>(e),
            None => match validation {
                Some(e) => Err::<(), String>(e),
                None => Ok(()),
            },
        },
{
    match parse {
        Some(e) => Err(e),
        None => match validation {
            Some(e) => Err(e),
            None => Ok(()),
        },
    }
}

/// Whether the tracing program is sound, without a graphics adapter.
pub fn validate_shader() -> (r: Result<(), String>)
    ensures
        r is Ok <==> parse_complaint(SHADER_SOURCE@) is None && validation_complaint(
            SHADER_SOURCE@,
        ) is None,
        r is Err ==> Some(r->Err_0@) == if parse_complaint(SHADER_SOURCE@) is Some {
            parse_complaint(SHADER_SOURCE@)
        } else {
            validation_complaint(SHADER_SOURCE@)
        },
{
    match parse_wgsl(SHADER_SOURCE) {
        Some(e) => shader_verdict(Some(e), None),
        None => shader_verdict(None, validate_wgsl(SHADER_SOURCE)),
    }
}

// ---- laws --------------------------------------------------------------

/// The tables have the strides that the shader reads them with: 8, 12, 12, 24 and 32
/// words.
pub proof fn layouts_have_the_strides_of_the_shader(
    n: BvhNodeGpu,
    t: TriangleGpu,
    m: MaterialGpu,
    l: LightGpu,
    p: ParamsGpu,
)
    ensures
        n.layout().len() == 8,
        t.layout().len() == 12,
        m.layout().len() == 12,
        l.layout().len() == 24,
        p.layout().len() == 32,
{
}

/// The groups of a dispatch cover the picture, and none lies outside of it.
pub proof fn groups_cover_the_picture(n: u32)
    ensures
        8 * groups_of_eight(n) >= n,
        8 * groups_of_eight(n) < n + 8,
{
}

/// Where every row of a table takes the same number of words, the words of each row stand at
/// its own place: after those of all rows before it.
pub proof fn rows_stand_at_their_stride<T: GpuRow>(rows: Seq<T>, stride: int, i: int)
    requires
        0 <= i < rows.len(),
        stride >= 0,
        forall|k: int| 0 <= k < rows.len() ==> (#[trigger] rows[k].layout()).len() == stride,
    ensures
        words_of(rows).len() == rows.len() * stride,
        0 <= i * stride,
        i * stride + stride <= words_of(rows).len(),
        words_of(rows).subrange(i * stride, i * stride + stride) == rows[i].layout(),
    decreases rows.len(),
{
    let fewer = rows.drop_last();
    let n = fewer.len() as int;
    assert((n + 1) * stride == n * stride + stride) by (nonlinear_arith);
    assert(0 <= i * stride && i * stride + stride <= (n + 1) * stride) by (nonlinear_arith)
        requires
            0 <= i,
            i + 1 <= n + 1,
            stride >= 0,
    ;
    assert forall|k: int| 0 <= k < fewer.len() implies (#[trigger] fewer[k].layout()).len()
        == stride by {
        assert(rows[k] == fewer[k]);
    }
    assert(rows[n].layout().len() == stride);
    if n == 0 {
        assert(words_of(fewer) =~= Seq::empty());
        assert(0 * stride == 0) by (nonlinear_arith);
        assert(words_of(rows).subrange(i * stride, i * stride + stride) =~= rows[i].layout());
    } else if i < n {
        rows_stand_at_their_stride(fewer, stride, i);
        assert(words_of(rows).subrange(i * stride, i * stride + stride) =~= words_of(
            fewer,
        ).subrange(i * stride, i * stride + stride));
    } else {
        rows_stand_at_their_stride(fewer, stride, 0);
        assert(words_of(rows).subrange(i * stride, i * stride + stride) =~= rows[i].layout());
    }
}

/// The words of a node and of a triangle at the offsets at which the shader reads them: two
/// corners of a box, the first child or triangle, and how many triangles; three corners, and
/// the material, none of it lost.
pub proof fn nodes_and_triangles_are_read_as_they_are(n: BvhNodeGpu, t: TriangleGpu)
    ensures
        n.layout().subrange(0, 3) == seq![n.min.x.bits, n.min.y.bits, n.min.z.bits],
        n.layout()[3] == n.left_or_start,
        n.layout().subrange(4, 7) == seq![n.max.x.bits, n.max.y.bits, n.max.z.bits],
        n.layout()[7] == n.prim_count,
        t.layout().subrange(0, 3) == seq![t.v0.x.bits, t.v0.y.bits, t.v0.z.bits],
        t.layout().subrange(4, 7) == seq![t.v1.x.bits, t.v1.y.bits, t.v1.z.bits],
        t.layout().subrange(8, 11) == seq![t.v2.x.bits, t.v2.y.bits, t.v2.z.bits],
        t.material_id >= 0 ==> t.layout()[11] == t.material_id,
        t.material_id < 0 ==> t.layout()[11] - 0x1_0000_0000 == t.material_id,
{
}

/// The words of a material and of a light at the offsets at which the shader reads them.
pub proof fn materials_and_lights_are_read_as_they_are(m: MaterialGpu, l: LightGpu)
    ensures
        m.layout().subrange(0, 3) == seq![
            m.base_color.x.bits,
            m.base_color.y.bits,
            m.base_color.z.bits,
        ],
        m.layout()[3] == m.metallic.bits,
        m.layout().subrange(4, 7) == seq![m.emissive.x.bits, m.emissive.y.bits, m.emissive.z.bits],
        m.layout()[7] == m.roughness.bits,
        m.layout().subrange(8, 11) == seq![m.f0.x.bits, m.f0.y.bits, m.f0.z.bits],
        m.layout()[11] == m.ior.bits,
        l.layout()[0] == l.kind,
        l.layout().subrange(4, 7) == seq![l.position.x.bits, l.position.y.bits, l.position.z.bits],
        l.layout().subrange(8, 12) == seq![
            l.params.x.bits,
            l.params.y.bits,
            l.params.z.bits,
            l.params.w.bits,
        ],
        l.layout().subrange(12, 16) == seq![
            l.extra.x.bits,
            l.extra.y.bits,
            l.extra.z.bits,
            l.extra.w.bits,
        ],
        l.layout().subrange(16, 18) == seq![l.size.x.bits, l.size.y.bits],
        l.layout().subrange(20, 23) == seq![
            l.emission.x.bits,
            l.emission.y.bits,
            l.emission.z.bits,
        ],
{
}

/// Rows that differ in anything have different words: the shader can tell them apart.
pub proof fn words_tell_rows_apart(
    n: BvhNodeGpu,
    o: BvhNodeGpu,
    t: TriangleGpu,
    u: TriangleGpu,
    m: MaterialGpu,
    k: MaterialGpu,
    l: LightGpu,
    j: LightGpu,
    p: ParamsGpu,
    q: ParamsGpu,
)
    ensures
        n.layout() == o.layout() ==> n == o,
        t.layout() == u.layout() ==> t == u,
        m.layout() == k.layout() ==> m == k,
        l.layout() == j.layout() ==> l == j,
        p.layout() == q.layout() ==> p == q,
{
    let (a, b) = (n.layout(), o.layout());
    if a == b {
        assert(a[0] == b[0] && a[1] == b[1] && a[2] == b[2] && a[3] == b[3]);
        assert(a[4] == b[4] && a[5] == b[5] && a[6] == b[6] && a[7] == b[7]);
    }
    let (a, b) = (t.layout(), u.layout());
    if a == b {
        assert(a[0] == b[0] && a[1] == b[1] && a[2] == b[2]);
        assert(a[4] == b[4] && a[5] == b[5] && a[6] == b[6]);
        assert(a[8] == b[8] && a[9] == b[9] && a[10] == b[10] && a[11] == b[11]);
    }
    let (a, b) = (m.layout(), k.layout());
    if a == b {
        assert(a[0] == b[0] && a[1] == b[1] && a[2] == b[2] && a[3] == b[3]);
        assert(a[4] == b[4] && a[5] == b[5] && a[6] == b[6] && a[7] == b[7]);
        assert(a[8] == b[8] && a[9] == b[9] && a[10] == b[10] && a[11] == b[11]);
    }
    let (a, b) = (l.layout(), j.layout());
    if a == b {
        assert(a[0] == b[0] && a[4] == b[4] && a[5] == b[5] && a[6] == b[6]);
        assert(a[8] == b[8] && a[9] == b[9] && a[10] == b[10] && a[11] == b[11]);
        assert(a[12] == b[12] && a[13] == b[13] && a[14] == b[14] && a[15] == b[15]);
        assert(a[16] == b[16] && a[17] == b[17]);
        assert(a[20] == b[20] && a[21] == b[21] && a[22] == b[22]);
    }
    let (a, b) = (p.layout(), q.layout());
    if a == b {
        assert(a[0] == b[0] && a[1] == b[1] && a[2] == b[2] && a[3] == b[3]);
        assert(a[4] == b[4] && a[5] == b[5] && a[6] == b[6] && a[7] == b[7]);
        assert(a[8] == b[8] && a[9] == b[9] && a[10] == b[10] && a[11] == b[11]);
        assert(a[12] == b[12] && a[13] == b[13] && a[14] == b[14] && a[15] == b[15]);
        assert(a[16] == b[16] && a[17] == b[17] && a[18] == b[18]);
        assert(a[20] == b[20] && a[21] == b[21] && a[22] == b[22] && a[23] == b[23]);
        assert(a[24] == b[24] && a[25] == b[25] && a[26] == b[26] && a[27] == b[27]);
        assert(a[28] == b[28]);
    }
}

/// The triangle that a leaf of the tree names at one of its places stands at that place in
/// the shader's list, with its own corners and material. Without a tree each stands where
/// it stands in the scene.
pub proof fn leaves_find_their_triangles(scene: PathTraceScene, s: int)
    requires
        scene.wf(),
        scene.triangles@.len() <= u32::MAX,
        0 <= s < triangle_order(scene).len(),
    ensures
        ({
            let list = triangle_order(scene).map_values(|i: u32| triangle_of(scene, i as int));
            let at = if scene.bvh.prim_indices@.len() > 0 {
                scene.bvh.prim_indices@[s] as int
            } else {
                s
            };
            &&& 0 <= at < scene.triangles@.len()
            &&& list[s].v0 == scene.triangles@[at].v0
            &&& list[s].v1 == scene.triangles@[at].v1
            &&& list[s].v2 == scene.triangles@[at].v2
            &&& list[s].material_id == scene.material_ids@[at]
        }),
{
}

/// The shader sees the boxes and children of the tree as they are, and of a material all
/// that it shades with: what it reflects head on is worked out from the material itself.
pub proof fn nodes_and_materials_are_handed_on<R: Fn(PathTraceMaterial) -> Vec3>(
    n: BvhNode,
    m: PathTraceMaterial,
    reflectance: R,
)
    ensures
        node_of(n).min == n.bounds.min,
        node_of(n).max == n.bounds.max,
        node_of(n).left_or_start == n.left_or_start,
        node_of(n).prim_count == n.prim_count,
        material_of(m, reflectance).base_color == m.base_color,
        material_of(m, reflectance).metallic == m.metallic,
        material_of(m, reflectance).roughness == m.roughness,
        material_of(m, reflectance).emissive == m.emissive,
        material_of(m, reflectance).ior == m.ior,
        material_of(m, reflectance).f0 == arithmetic::applied(reflectance, m),
{
}

/// The shader sees a sun by the way in which it shines, a rectangle by its middle, its two
/// sides and their lengths, and a point by where it is, each with what it sends. A luminaire
/// is to it a point as bright as its profile is straight down, by one candela at least.
pub proof fn lights_are_handed_on<
    M: Fn(Single, Single) -> Single,
    P: Fn(Single, Single) -> Single,
    W: Fn(Single) -> Single,
    T: Fn(Single, Single, Single) -> Single,
    B: Fn(Blend) -> Single,
    U: Fn(Vec3) -> Vec3,
    G: Fn(Vec3, Single, Single) -> Vec3,
>(l: NativeLight, angles: AngleArithmetic<M, P, W, T, B>, unit: U, glow: G, r: LightGpu)
    requires
        LightGpu::stands_for(l, angles, unit, glow, r),
    ensures
        match l {
            NativeLight::Sun { direction, radiance, angular_radius_rad } => {
                &&& r.kind == 0
                &&& r.position == arithmetic::applied(unit, direction)
                &&& r.params.x == angular_radius_rad
                &&& r.emission == radiance
            },
            NativeLight::Point { position, intensity } => {
                &&& r.kind == 1
                &&& r.position == position
                &&& r.emission == intensity
            },
            NativeLight::Area { position, u_axis, v_axis, width, height, radiance, .. } => {
                &&& r.kind == 2
                &&& r.position == position
                &&& r.params.x == u_axis.x && r.params.y == u_axis.y && r.params.z == u_axis.z
                &&& r.extra.x == v_axis.x && r.extra.y == v_axis.y && r.extra.z == v_axis.z
                &&& r.size.x == width && r.size.y == height
                &&& r.emission == radiance
            },
            NativeLight::Ies { position, profile, intensity_scale, color, .. } => {
                &&& r.kind == 1
                &&& r.position == position
                &&& exists|candela: Single| #[trigger]
                    angles.candela_toward(
                        profile@,
                        Single { bits: 0 },
                        Single { bits: 0 },
                        candela,
                    ) && r.emission == arithmetic::applied3(
                        glow,
                        color,
                        if candela.nan() || candela.below(Single { bits: 0x3f80_0000 }) {
                            Single { bits: 0x3f80_0000 }
                        } else {
                            candela
                        },
                        intensity_scale,
                    )
            },
        },
{
}

/// The shader is told the size of the picture, how many rows each table really has, the
/// camera and the sky, and at least one sample and one bounce.
pub proof fn the_shader_is_told_of_the_render(
    config: PathTraceConfig,
    buffers: GpuSceneBuffers,
    frame: CameraFrame,
    aspect: Single,
)
    ensures
        ({
            let p = params_of(config, buffers, frame, aspect);
            &&& p.width == config.width && p.height == config.height && p.aspect == aspect
            &&& p.samples_per_pixel >= 1 && p.max_bounces >= 1
            &&& config.samples_per_pixel >= 1 ==> p.samples_per_pixel == config.samples_per_pixel
            &&& config.max_bounces >= 1 ==> p.max_bounces == config.max_bounces
            &&& buffers.triangles@.len() <= u32::MAX ==> p.tri_count == buffers.triangles@.len()
            &&& buffers.bvh_nodes@.len() <= u32::MAX ==> p.bvh_count == buffers.bvh_nodes@.len()
            &&& buffers.materials@.len() <= u32::MAX ==> p.mat_count == buffers.materials@.len()
            &&& buffers.lights@.len() <= u32::MAX ==> p.light_count == buffers.lights@.len()
            &&& p.camera_origin == frame.origin && p.camera_right == frame.right && p.camera_up
                == frame.up && p.camera_forward == frame.forward && p.focal_half_h
                == frame.focal_half_h
            &&& p.sky_color == buffers.sky_color && p.sky_strength == buffers.sky_strength
            &&& p.projection == 1 <==> config.projection == CameraProjection::Equirectangular
        }),
{
}

/// What came back of a pixel is kept as sums over its samples, at least one: each part of
/// the mean times their number, so that the mean comes out again where multiplying and
/// dividing undo each other.
pub proof fn means_come_out_of_the_sums_again<
    M: Fn(Single, Single) -> Single,
    Q: Fn(Single, Single) -> Single,
>(times: M, over: Q, mean: Seq<Single>, i: int)
    requires
        0 <= i,
        4 * i + 3 < mean.len(),
        !mean[4 * i + 3].nan(),
        forall|c: int|
            0 <= c < 3 ==> arithmetic::applied2(
                over,
                arithmetic::applied2(
                    times,
                    #[trigger] mean[4 * i + c],
                    mean[4 * i + 3].greatest(Single { bits: 0x3f80_0000 }),
                ),
                mean[4 * i + 3].greatest(Single { bits: 0x3f80_0000 }),
            ) == mean[4 * i + c],
    ensures
        ({
            let p = summed(times, mean, i);
            &&& arithmetic::applied2(over, p.x, p.w) == mean[4 * i]
            &&& arithmetic::applied2(over, p.y, p.w) == mean[4 * i + 1]
            &&& arithmetic::applied2(over, p.z, p.w) == mean[4 * i + 2]
            &&& (Single { bits: 0x3f80_0000 }).at_most(p.w)
            &&& (Single { bits: 0x3f80_0000 }).at_most(mean[4 * i + 3]) ==> p.w == mean[4 * i + 3]
        }),
{
    assert(mean[4 * i + 0] == mean[4 * i]);
    assert(mean[4 * i + 1] == mean[4 * i + 1]);
    assert(mean[4 * i + 2] == mean[4 * i + 2]);
}

} // verus!
