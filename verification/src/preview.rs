//! The preview: how large it is rendered, which tiles it comes in, and what it shows
//! of a scene.
use vstd::prelude::*;

use crate::arithmetic;
use crate::catalog::Catalog;
use crate::geometry;
use crate::geometry::{Aabb, Mat4, Vec2, Vec3, Vec4};
use crate::light_sampling;
use crate::lighting::Curve;
use crate::preset::HardwareTier;
use crate::scene::{RenderCamera, RenderLight, RenderScene, SerializedMesh};
use crate::single::Single;
use crate::text;
use crate::tiles;
use crate::tiles::Tile;

verus! {

/// One tile of a preview.
#[derive(Debug, PartialEq)]
pub struct PreviewTile {
    pub x: u32,
    pub y: u32,
    pub width: u32,
    pub height: u32,
    pub pixels: Vec<u16>,
}

#[derive(Debug, PartialEq)]
pub struct PreviewFrameOutput {
    pub width: u32,
    pub height: u32,
    pub scale: Single,
    pub tiles: Vec<PreviewTile>,
    /// Whether nothing was rendered for want of a graphics adapter.
    pub dropped: bool,
}

#[derive(Clone, Copy, Debug, PartialEq, Eq, Structural)]
pub enum PreviewBuildError {
    MissingCamera,
    EmptyScene,
}

impl PreviewBuildError {
    /// What the error says.
    pub open spec fn wording(self) -> Seq<char> {
        match self {
            PreviewBuildError::MissingCamera => "scene has no camera"@,
            PreviewBuildError::EmptyScene => "scene has zero triangles"@,
        }
    }

    /// What the error says.
    pub fn message(self) -> (r: &'static str)
        ensures
            r@ == self.wording(),
    {
        match self {
            PreviewBuildError::MissingCamera => "scene has no camera",
            PreviewBuildError::EmptyScene => "scene has zero triangles",
        }
    }
}

/// The part of the full size that a preview is rendered at: 0.5, 0.75 or 1.
pub open spec fn scale_of(tier: HardwareTier) -> Single {
    match tier {
        HardwareTier::Low => Single { bits: 0x3f00_0000 },  // 0.5
        HardwareTier::Medium => Single { bits: 0x3f40_0000 },  // 0.75
        HardwareTier::High => Single { bits: 0x3f80_0000 },
        HardwareTier::Pro => Single { bits: 0x3f80_0000 },
    }
}

/// The part of the full size that a preview is rendered at.
pub fn tier_resolution_scale(tier: HardwareTier) -> (r: Single)
    ensures
        r == scale_of(tier),
{
    match tier {
        HardwareTier::Low => Single::from_bits(0x3f00_0000),  // 0.5
        HardwareTier::Medium => Single::from_bits(0x3f40_0000),  // 0.75
        HardwareTier::High => Single::one(),
        HardwareTier::Pro => Single::one(),
    }
}

/// The side of the tiles that a preview comes in.
pub open spec fn tile_side(tier: HardwareTier) -> u32 {
    match tier {
        HardwareTier::Low => 128,
        HardwareTier::Medium => 192,
        HardwareTier::High => 256,
        HardwareTier::Pro => 384,
    }
}

/// The side of the tiles that a preview comes in.
pub fn tier_tile_size(tier: HardwareTier) -> (r: u32)
    ensures
        r == tile_side(tier),
{
    match tier {
        HardwareTier::Low => 128,
        HardwareTier::Medium => 192,
        HardwareTier::High => 256,
        HardwareTier::Pro => 384,
    }
}

/// The sky over a preview.
#[derive(Clone, Copy, Debug, PartialEq)]
pub struct SkyState {
    pub sun_azimuth_deg: Single,
    pub sun_elevation_deg: Single,
    pub turbidity: Single,
    pub strength: Single,
    pub tint: Vec3,
}

/// A part of a color, from what it is out of 255.
pub open spec fn part_of<N: Fn(Single) -> Single>(of_255: N, v: Single) -> Single {
    arithmetic::applied(
        of_255,
        v.clamped(Single { bits: 0 }, Single { bits: 0x437f_0000 }),  // 255
    )
}

/// The color of a temperature in kelvin, held to 1000 to 20000.
pub open spec fn tint_of<
    H: Fn(Single) -> Single,
    C: Fn(Curve, Single) -> Single,
    N: Fn(Single) -> Single,
>(k: Single, hundredth: H, curve: C, of_255: N) -> Vec3 {
    let t = arithmetic::applied(
        hundredth,
        k.clamped(Single { bits: 0x447a_0000 }, Single { bits: 0x469c_4000 }),  // 1000, 20000
    );
    let turn = Single { bits: 0x4284_0000 };  // 66
    let full = Single { bits: 0x3f80_0000 };
    Vec3 {
        x: if t.at_most(turn) {
            full
        } else {
            part_of(of_255, arithmetic::applied2(curve, Curve::RedCool, t))
        },
        y: if t.at_most(turn) {
            part_of(of_255, arithmetic::applied2(curve, Curve::GreenWarm, t))
        } else {
            part_of(of_255, arithmetic::applied2(curve, Curve::GreenCool, t))
        },
        z: if turn.at_most(t) {
            full
        } else if t.at_most(Single { bits: 0x4198_0000 }) {  // 19
            Single { bits: 0 }
        } else {
            part_of(of_255, arithmetic::applied2(curve, Curve::BlueWarm, t))
        },
    }
}

fn part<N: Fn(Single) -> Single>(of_255: &N, v: Single) -> (r: Single)
    requires
        arithmetic::steady(*of_255),
    ensures
        r == part_of(*of_255, v),
{
    of_255(v.clamp(Single::zero(), Single::from_bits(0x437f_0000)))  // 255
}

/// The color of a temperature in kelvin. `hundredth` divides by 100, `curve` is the
/// value of a curve, `of_255` divides by 255.
pub fn kelvin_to_rgb<
    H: Fn(Single) -> Single,
    C: Fn(Curve, Single) -> Single,
    N: Fn(Single) -> Single,
>(k: Single, hundredth: &H, curve: &C, of_255: &N) -> (r: Vec3)
    requires
        arithmetic::steady(*hundredth),
        arithmetic::steady2(*curve),
        arithmetic::steady(*of_255),
    ensures
        r == tint_of(k, *hundredth, *curve, *of_255),
{
    let held: Single = k.clamp(Single::from_bits(0x447a_0000), Single::from_bits(0x469c_4000));
    let t: Single = hundredth(held);
    let turn: Single = Single::from_bits(0x4284_0000);  // 66
    let red: Single = if t.le(turn) {
        Single::one()
    } else {
        part(of_255, curve(Curve::RedCool, t))
    };
    let green: Single = if t.le(turn) {
        part(of_255, curve(Curve::GreenWarm, t))
    } else {
        part(of_255, curve(Curve::GreenCool, t))
    };
    let blue: Single = if turn.le(t) {
        Single::one()
    } else if t.le(Single::from_bits(0x4198_0000)) {  // 19
        Single::zero()
    } else {
        part(of_255, curve(Curve::BlueWarm, t))
    };
    Vec3::new(red, green, blue)
}

/// The sky that the first sun of a scene makes, with a turbidity of 2.5.
pub open spec fn sky_of<
    H: Fn(Single) -> Single,
    C: Fn(Curve, Single) -> Single,
    N: Fn(Single) -> Single,
>(lights: Seq<RenderLight>, hundredth: H, curve: C, of_255: N) -> Option<SkyState>
    decreases lights.len(),
{
    if lights.len() == 0 {
        None
    } else {
        match lights[0] {
            RenderLight::SunSky { azimuth_deg, elevation_deg, intensity, color_temperature_k } =>
                Some(
                    SkyState {
                        sun_azimuth_deg: azimuth_deg,
                        sun_elevation_deg: elevation_deg,
                        turbidity: Single { bits: 0x4020_0000 },  // 2.5
                        strength: intensity,
                        tint: tint_of(color_temperature_k, hundredth, curve, of_255),
                    },
                ),
            _ => sky_of(lights.drop_first(), hundredth, curve, of_255),
        }
    }
}

/// The sky that the first sun of a scene makes; `fallback` for a scene without a sun.
/// The functions are those of `kelvin_to_rgb`.
pub fn pick_sky_state<
    H: Fn(Single) -> Single,
    C: Fn(Curve, Single) -> Single,
    N: Fn(Single) -> Single,
>(scene: &RenderScene, fallback: SkyState, hundredth: &H, curve: &C, of_255: &N) -> (r: SkyState)
    requires
        arithmetic::steady(*hundredth),
        arithmetic::steady2(*curve),
        arithmetic::steady(*of_255),
    ensures
        r == (match sky_of(scene.lights@, *hundredth, *curve, *of_255) {
            Some(sky) => sky,
            None => fallback,
        }),
{
    let mut i: usize = 0;
    proof {
        assert(scene.lights@.skip(0) =~= scene.lights@);
    }
    while i < scene.lights.len()
        invariant
            arithmetic::steady(*hundredth),
            arithmetic::steady2(*curve),
            arithmetic::steady(*of_255),
            i <= scene.lights@.len(),
            sky_of(scene.lights@.skip(i as int), *hundredth, *curve, *of_255) == sky_of(
                scene.lights@,
                *hundredth,
                *curve,
                *of_255,
            ),
        decreases scene.lights@.len() - i,
    {
        proof {
            let rest = scene.lights@.skip(i as int);
            assert(rest[0] == scene.lights@[i as int]);
            assert(rest.drop_first() =~= scene.lights@.skip(i + 1));
        }
        if let RenderLight::SunSky { azimuth_deg, elevation_deg, intensity, color_temperature_k } =
            &scene.lights[i] {
            let tint: Vec3 = kelvin_to_rgb(*color_temperature_k, hundredth, curve, of_255);
            return SkyState {
                sun_azimuth_deg: *azimuth_deg,
                sun_elevation_deg: *elevation_deg,
                turbidity: Single::from_bits(0x4020_0000),  // 2.5
                strength: *intensity,
                tint,
            };
        }
        i = i + 1;
    }
    fallback
}

/// The camera of a preview.
#[derive(Clone, Copy, Debug, PartialEq)]
pub struct PreviewCamera {
    pub eye: Vec3,
    pub target: Vec3,
    pub up: Vec3,
    pub fov_y_deg: Single,
    pub aspect: Single,
    pub near: Single,
    pub far: Single,
}

/// The camera of a preview: its places in metres, z up, of a focal length and an
/// aspect of 0.1 at least, from 0.05 to 2000 metres.
pub open spec fn camera_of<M: Fn(Vec3) -> Vec3, F: Fn(Single) -> Single>(
    cam: RenderCamera,
    aspect: Single,
    to_metres: M,
    field_of_view: F,
) -> PreviewCamera {
    let least = Single { bits: 0x3dcc_cccd };  // 0.1
    PreviewCamera {
        eye: arithmetic::applied(to_metres, cam.position_mm),
        target: arithmetic::applied(to_metres, cam.target_mm),
        up: light_sampling::unit_z(),
        fov_y_deg: arithmetic::applied(field_of_view, cam.focal_length_mm.greatest(least)),
        aspect: aspect.greatest(least),
        near: Single { bits: 0x3d4c_cccd },  // 0.05
        far: Single { bits: 0x44fa_0000 },  // 2000
    }
}

/// The camera of a preview. `to_metres` turns a position in millimetres into one in
/// metres, and `field_of_view` is the angle in degrees that a focal length sees from
/// bottom to top.
pub fn camera_from_render<M: Fn(Vec3) -> Vec3, F: Fn(Single) -> Single>(
    cam: &RenderCamera,
    aspect: Single,
    to_metres: &M,
    field_of_view: &F,
) -> (r: PreviewCamera)
    requires
        arithmetic::steady(*to_metres),
        arithmetic::steady(*field_of_view),
    ensures
        r == camera_of(*cam, aspect, *to_metres, *field_of_view),
{
    let least: Single = Single::from_bits(0x3dcc_cccd);  // 0.1
    let eye: Vec3 = to_metres(cam.position_mm);
    let target: Vec3 = to_metres(cam.target_mm);
    let fov_y_deg: Single = field_of_view(cam.focal_length_mm.max(least));
    PreviewCamera {
        eye,
        target,
        up: Vec3::new(Single::zero(), Single::zero(), Single::one()),
        fov_y_deg,
        aspect: aspect.max(least),
        near: Single::from_bits(0x3d4c_cccd),  // 0.05
        far: Single::from_bits(0x44fa_0000),  // 2000
    }
}

/// The camera that a scene is previewed from: its first.
pub fn pick_camera<M: Fn(Vec3) -> Vec3, F: Fn(Single) -> Single>(
    scene: &RenderScene,
    aspect: Single,
    to_metres: &M,
    field_of_view: &F,
) -> (r: Option<PreviewCamera>)
    requires
        arithmetic::steady(*to_metres),
        arithmetic::steady(*field_of_view),
    ensures
        r == if scene.cameras@.len() == 0 {
            None
        } else {
            Some(camera_of(scene.cameras@[0], aspect, *to_metres, *field_of_view))
        },
{
    if scene.cameras.len() == 0 {
        None
    } else {
        Some(camera_from_render(&scene.cameras[0], aspect, to_metres, field_of_view))
    }
}

/// A transform whose shift is in metres, from one whose shift is in millimetres.
pub open spec fn shifted_in_metres<L: Fn(Single) -> Single>(t: Mat4, metres: L) -> Mat4 {
    Mat4 {
        row0: Vec4 { w: arithmetic::applied(metres, t.row0.w), ..t.row0 },
        row1: Vec4 { w: arithmetic::applied(metres, t.row1.w), ..t.row1 },
        row2: Vec4 { w: arithmetic::applied(metres, t.row2.w), ..t.row2 },
        row3: t.row3,
    }
}

/// A transform whose shift is in metres, from one whose shift is in millimetres.
/// `metres` turns a length in millimetres into one in metres.
pub fn transform_to_mat4<L: Fn(Single) -> Single>(t: Mat4, metres: &L) -> (r: Mat4)
    requires
        arithmetic::steady(*metres),
    ensures
        r == shifted_in_metres(t, *metres),
{
    let x: Single = metres(t.row0.w);
    let y: Single = metres(t.row1.w);
    let z: Single = metres(t.row2.w);
    Mat4 {
        row0: Vec4 { x: t.row0.x, y: t.row0.y, z: t.row0.z, w: x },
        row1: Vec4 { x: t.row1.x, y: t.row1.y, z: t.row1.z, w: y },
        row2: Vec4 { x: t.row2.x, y: t.row2.y, z: t.row2.z, w: z },
        row3: t.row3,
    }
}

/// A corner of a mesh as the preview draws it.
#[derive(Clone, Copy, Debug, PartialEq)]
pub struct PreviewVertex {
    pub position: Vec3,
    pub normal: Vec3,
    pub uv: Vec2,
}

/// A corner of a mesh as the preview draws it. A missing normal points up along z; a
/// missing texture coordinate is at the origin.
pub open spec fn vertex_of<M: Fn(Vec3) -> Vec3>(
    mesh: SerializedMesh,
    to_metres: M,
    i: int,
) -> PreviewVertex {
    PreviewVertex {
        position: arithmetic::applied(to_metres, mesh.positions@[i]),
        normal: if i < mesh.normals@.len() {
            mesh.normals@[i]
        } else {
            light_sampling::unit_z()
        },
        uv: if i < mesh.uvs@.len() {
            mesh.uvs@[i]
        } else {
            Vec2 { x: Single { bits: 0 }, y: Single { bits: 0 } }
        },
    }
}

/// The corners of a mesh as the preview draws them.
pub open spec fn vertices_of<M: Fn(Vec3) -> Vec3>(
    mesh: SerializedMesh,
    to_metres: M,
) -> Seq<PreviewVertex> {
    Seq::new(mesh.positions@.len(), |i: int| vertex_of(mesh, to_metres, i))
}

/// The corners of a mesh as the preview draws them.
///
/// `to_metres` turns a position in millimetres into one in metres.
pub fn mesh_to_vertices<M: Fn(Vec3) -> Vec3>(mesh: &SerializedMesh, to_metres: &M) -> (r: Vec<
    PreviewVertex,
>)
    requires
        arithmetic::steady(*to_metres),
    ensures
        r@ == vertices_of(*mesh, *to_metres),
{
    let mut out: Vec<PreviewVertex> = Vec::new();
    let mut i: usize = 0;
    while i < mesh.positions.len()
        invariant
            arithmetic::steady(*to_metres),
            i <= mesh.positions@.len(),
            out@.len() == i,
            forall|j: int| 0 <= j < i ==> #[trigger] out@[j] == vertex_of(*mesh, *to_metres, j),
        decreases mesh.positions@.len() - i,
    {
        let position: Vec3 = to_metres(mesh.positions[i]);
        let normal: Vec3 = if i < mesh.normals.len() {
            mesh.normals[i]
        } else {
            Vec3::new(Single::zero(), Single::zero(), Single::one())
        };
        let uv: Vec2 = if i < mesh.uvs.len() {
            mesh.uvs[i]
        } else {
            Vec2 { x: Single::zero(), y: Single::zero() }
        };
        out.push(PreviewVertex { position, normal, uv });
        i = i + 1;
    }
    proof {
        assert(out@ =~= vertices_of(*mesh, *to_metres));
    }
    out
}

/// A box stretched to hold the first `n` positions of a mesh, in the scene.
pub open spec fn grown_by<P: Fn(Mat4, Vec3) -> Vec3>(
    start: Aabb,
    mesh: SerializedMesh,
    place: P,
    n: nat,
) -> Aabb
    decreases n,
{
    if n == 0 {
        start
    } else {
        grown_by(start, mesh, place, (n - 1) as nat).grown(
            arithmetic::applied2(place, mesh.transform, mesh.positions@[n - 1]),
        )
    }
}

/// The box around the positions of meshes, in the scene.
pub open spec fn box_of<P: Fn(Mat4, Vec3) -> Vec3>(meshes: Seq<SerializedMesh>, place: P) -> Aabb
    decreases meshes.len(),
{
    if meshes.len() == 0 {
        geometry::nothing()
    } else {
        grown_by(
            box_of(meshes.drop_last(), place),
            meshes.last(),
            place,
            meshes.last().positions@.len(),
        )
    }
}

/// A ball.
#[derive(Clone, Copy, Debug, PartialEq)]
pub struct Sphere {
    pub center: Vec3,
    pub radius: Single,
}

/// Whether all coordinates are finite.
pub open spec fn finite(v: Vec3) -> bool {
    v.x.finite() && v.y.finite() && v.z.finite()
}

fn is_finite(v: Vec3) -> (r: bool)
    ensures
        r == finite(v),
{
    v.x.is_finite() && v.y.is_finite() && v.z.is_finite()
}

/// The ball around a box: of radius 10 at the origin for a box without an extent,
/// else that through its corners, of radius 1 at least.
pub open spec fn ball_around<S: Fn(Aabb) -> Sphere>(b: Aabb, ball: S) -> Sphere {
    if !finite(b.min) || !finite(b.max) {
        Sphere {
            center: Vec3 { x: Single { bits: 0 }, y: Single { bits: 0 }, z: Single { bits: 0 } },
            radius: Single { bits: 0x4120_0000 },  // 10
        }
    } else {
        let s = arithmetic::applied(ball, b);
        Sphere { center: s.center, radius: s.radius.greatest(Single { bits: 0x3f80_0000 }) }
    }
}

/// The ball around a scene.
///
/// `place` puts a position of a mesh into the scene, in metres, and `ball` is the
/// ball through the corners of a box.
pub fn scene_world_sphere<P: Fn(Mat4, Vec3) -> Vec3, S: Fn(Aabb) -> Sphere>(
    scene: &RenderScene,
    place: P,
    ball: S,
) -> (r: Sphere)
    requires
        arithmetic::steady2(place),
        arithmetic::steady(ball),
    ensures
        r == ball_around(box_of(scene.meshes@, place), ball),
{
    let mut b: Aabb = Aabb::empty();
    let mut m: usize = 0;
    proof {
        assert(scene.meshes@.take(0) =~= Seq::empty());
    }
    while m < scene.meshes.len()
        invariant
            arithmetic::steady2(place),
            m <= scene.meshes@.len(),
            b == box_of(scene.meshes@.take(m as int), place),
        decreases scene.meshes@.len() - m,
    {
        let mesh: &SerializedMesh = &scene.meshes[m];
        let ghost start = b;
        let mut i: usize = 0;
        while i < mesh.positions.len()
            invariant
                arithmetic::steady2(place),
                i <= mesh.positions@.len(),
                b == grown_by(start, *mesh, place, i as nat),
            decreases mesh.positions@.len() - i,
        {
            let p: Vec3 = place(mesh.transform, mesh.positions[i]);
            b.expand_point(p);
            i = i + 1;
        }
        proof {
            let longer = scene.meshes@.take(m + 1);
            assert(longer.drop_last() =~= scene.meshes@.take(m as int));
            assert(longer.last() == *mesh);
        }
        m = m + 1;
    }
    proof {
        assert(scene.meshes@.take(m as int) =~= scene.meshes@);
    }
    if !is_finite(b.min) || !is_finite(b.max) {
        return Sphere {
            center: Vec3::splat(Single::zero()),
            radius: Single::from_bits(0x4120_0000),  // 10
        };
    }
    let s: Sphere = ball(b);
    Sphere { center: s.center, radius: s.radius.max(Single::one()) }
}

/// The material of a mesh in a preview.
#[derive(Clone, Copy, Debug, PartialEq)]
pub struct PreviewMaterial {
    pub base_color: Vec3,
    pub metallic: Single,
    pub roughness: Single,
    pub ao: Single,
    pub emissive_strength: Single,
}

/// Matt light grey.
pub open spec fn plain_material() -> PreviewMaterial {
    PreviewMaterial {
        base_color: crate::materials::material::grey(0x3f47_ae14),  // 0.78
        metallic: Single { bits: 0 },
        roughness: Single { bits: 0x3f19_999a },  // 0.6
        ao: Single { bits: 0x3f80_0000 },
        emissive_strength: Single { bits: 0 },
    }
}

impl Default for PreviewMaterial {
    fn default() -> (r: PreviewMaterial)
        ensures
            r == plain_material(),
    {
        PreviewMaterial {
            base_color: Vec3::splat(Single::from_bits(0x3f47_ae14)),  // 0.78
            metallic: Single::zero(),
            roughness: Single::from_bits(0x3f19_999a),  // 0.6
            ao: Single::one(),
            emissive_strength: Single::zero(),
        }
    }
}

/// A mesh as the preview draws it.
#[derive(Debug, PartialEq)]
pub struct PreviewBatch {
    pub vertices: Vec<PreviewVertex>,
    pub indices: Vec<u32>,
    pub transform: Mat4,
    pub material: PreviewMaterial,
}

/// What a preview is rendered into.
#[derive(Clone, Copy, Debug, PartialEq, Eq, Structural)]
pub struct RenderTarget {
    pub width: u32,
    pub height: u32,
}

/// A preview of a size on hardware of a tier.
pub struct PreviewPipeline {
    /// Nothing without a graphics adapter.
    pub target: Option<RenderTarget>,
    pub tier: HardwareTier,
    pub logical_width: u32,
    pub logical_height: u32,
    pub material_overrides: Catalog<PreviewMaterial>,
}

/// The tiles that a preview comes in, without their pixels.
pub open spec fn preview_tile(t: Tile, p: PreviewTile) -> bool {
    &&& p.x == t.x_start
    &&& p.y == t.y_start
    &&& p.width == t.x_end - t.x_start
    &&& p.height == t.y_end - t.y_start
    &&& p.pixels@.len() == 0
}

impl PreviewPipeline {
    /// The overrides are in order.
    pub open spec fn wf(&self) -> bool {
        self.material_overrides.wf()
    }

    /// A preview of a size. It is rendered at the part of the size that the tier
    /// allows, where there is a graphics adapter.
    ///
    /// `scaled` is a length times a factor, rounded, at least 1.
    pub fn new<F: Fn(u32, Single) -> u32>(
        tier: HardwareTier,
        logical_width: u32,
        logical_height: u32,
        gpu_available: bool,
        scaled: F,
    ) -> (r: PreviewPipeline)
        requires
            arithmetic::steady2(scaled),
        ensures
            r.wf(),
            r.tier == tier,
            r.logical_width == logical_width,
            r.logical_height == logical_height,
            r.material_overrides@ == Map::<Seq<char>, PreviewMaterial>::empty(),
            r.target == if gpu_available {
                Some(
                    RenderTarget {
                        width: arithmetic::applied2(scaled, logical_width, scale_of(tier)),
                        height: arithmetic::applied2(scaled, logical_height, scale_of(tier)),
                    },
                )
            } else {
                None
            },
            r.target == target_for(scaled, tier, logical_width, logical_height, gpu_available),
    {
        let target: Option<RenderTarget> = if gpu_available {
            let scale: Single = tier_resolution_scale(tier);
            let width: u32 = scaled(logical_width, scale);
            let height: u32 = scaled(logical_height, scale);
            Some(RenderTarget { width, height })
        } else {
            None
        };
        PreviewPipeline {
            target,
            tier,
            logical_width,
            logical_height,
            material_overrides: Catalog::new(),
        }
    }

    pub fn is_gpu_available(&self) -> (r: bool)
        ensures
            r == (self.target is Some),
    {
        self.target.is_some()
    }

    pub fn tier(&self) -> (r: HardwareTier)
        ensures
            r == self.tier,
    {
        self.tier
    }

    pub fn logical_dimensions(&self) -> (r: (u32, u32))
        ensures
            r == (self.logical_width, self.logical_height),
    {
        (self.logical_width, self.logical_height)
    }

    /// The size that the preview is rendered at.
    pub open spec fn rendered(&self) -> (u32, u32) {
        match self.target {
            Some(t) => (t.width, t.height),
            None => (self.logical_width, self.logical_height),
        }
    }

    /// The size that the preview is rendered at.
    pub fn render_dimensions(&self) -> (r: (u32, u32))
        ensures
            r == self.rendered(),
    {
        match self.target {
            Some(t) => (t.width, t.height),
            None => (self.logical_width, self.logical_height),
        }
    }

    pub fn resolution_scale(&self) -> (r: Single)
        ensures
            r == scale_of(self.tier),
    {
        tier_resolution_scale(self.tier)
    }

    /// Gives the preview another size.
    pub fn resize<F: Fn(u32, Single) -> u32>(
        &mut self,
        logical_width: u32,
        logical_height: u32,
        scaled: F,
    )
        requires
            arithmetic::steady2(scaled),
        ensures
            final(self).logical_width == logical_width,
            final(self).logical_height == logical_height,
            final(self).tier == old(self).tier,
            final(self).material_overrides == old(self).material_overrides,
            final(self).target == if old(self).target is Some {
                Some(
                    RenderTarget {
                        width: arithmetic::applied2(
                            scaled,
                            logical_width,
                            scale_of(old(self).tier),
                        ),
                        height: arithmetic::applied2(
                            scaled,
                            logical_height,
                            scale_of(old(self).tier),
                        ),
                    },
                )
            } else {
                None
            },
            final(self).target == target_for(
                scaled,
                old(self).tier,
                logical_width,
                logical_height,
                old(self).target is Some,
            ),
    {
        self.logical_width = logical_width;
        self.logical_height = logical_height;
        if self.target.is_some() {
            let scale: Single = tier_resolution_scale(self.tier);
            let width: u32 = scaled(logical_width, scale);
            let height: u32 = scaled(logical_height, scale);
            self.target = Some(RenderTarget { width, height });
        }
    }

    /// Shows the meshes of a material id in another material.
    pub fn set_material_override(&mut self, material_id: String, mat: PreviewMaterial)
        requires
            old(self).wf(),
        ensures
            final(self).wf(),
            final(self).material_overrides@ == old(self).material_overrides@.insert(
                material_id@,
                mat,
            ),
            final(self).target == old(self).target,
            final(self).tier == old(self).tier,
            final(self).logical_width == old(self).logical_width,
            final(self).logical_height == old(self).logical_height,
    {
        self.material_overrides.insert(material_id, mat);
    }

    /// The material that a mesh is shown in.
    pub open spec fn shown_material(&self, mesh: SerializedMesh) -> PreviewMaterial {
        match mesh.material_id {
            Some(id) => if self.material_overrides@.dom().contains(id@) {
                self.material_overrides@[id@]
            } else {
                plain_material()
            },
            None => plain_material(),
        }
    }

    /// The material that a mesh is shown in: that set for its material id, or matt
    /// light grey.
    pub fn material_for(&self, mesh: &SerializedMesh) -> (r: PreviewMaterial)
        requires
            self.wf(),
        ensures
            r == self.shown_material(*mesh),
    {
        match &mesh.material_id {
            Some(id) => match self.material_overrides.get(id.as_str()) {
                Some(m) => *m,
                None => PreviewMaterial::default(),
            },
            None => PreviewMaterial::default(),
        }
    }

    /// Whether `b` is a mesh as the preview draws it.
    pub open spec fn draws<M: Fn(Vec3) -> Vec3, L: Fn(Single) -> Single>(
        &self,
        mesh: SerializedMesh,
        to_metres: M,
        metres: L,
        b: PreviewBatch,
    ) -> bool {
        &&& b.vertices@ == vertices_of(mesh, to_metres)
        &&& b.indices@ == mesh.indices@
        &&& b.transform == shifted_in_metres(mesh.transform, metres)
        &&& b.material == self.shown_material(mesh)
    }

    /// The meshes of a scene as the preview draws them. `to_metres` turns a position in
    /// millimetres into one in metres, `metres` a length.
    pub fn batches<M: Fn(Vec3) -> Vec3, L: Fn(Single) -> Single>(
        &self,
        scene: &RenderScene,
        to_metres: &M,
        metres: &L,
    ) -> (r: Vec<PreviewBatch>)
        requires
            self.wf(),
            arithmetic::steady(*to_metres),
            arithmetic::steady(*metres),
        ensures
            r@.len() == scene.meshes@.len(),
            forall|i: int|
                0 <= i < r@.len() ==> self.draws(
                    scene.meshes@[i],
                    *to_metres,
                    *metres,
                    #[trigger] r@[i],
                ),
    {
        let mut out: Vec<PreviewBatch> = Vec::new();
        let mut i: usize = 0;
        while i < scene.meshes.len()
            invariant
                self.wf(),
                arithmetic::steady(*to_metres),
                arithmetic::steady(*metres),
                i <= scene.meshes@.len(),
                out@.len() == i,
                forall|j: int|
                    0 <= j < i ==> self.draws(
                        scene.meshes@[j],
                        *to_metres,
                        *metres,
                        #[trigger] out@[j],
                    ),
            decreases scene.meshes@.len() - i,
        {
            let mesh: &SerializedMesh = &scene.meshes[i];
            let indices: Vec<u32> = mesh.indices.clone();
            proof {
                assert(indices@ =~= mesh.indices@);
            }
            out.push(
                PreviewBatch {
                    vertices: mesh_to_vertices(mesh, to_metres),
                    indices,
                    transform: transform_to_mat4(mesh.transform, metres),
                    material: self.material_for(mesh),
                },
            );
            i = i + 1;
        }
        out
    }

    /// The camera that a scene is previewed from; a scene without meshes or without a
    /// camera has no preview.
    pub fn check_scene<'a>(scene: &'a RenderScene) -> (r: Result<
        &'a RenderCamera,
        PreviewBuildError,
    >)
        ensures
            match r {
                Ok(camera) => scene.meshes@.len() > 0 && scene.cameras@.len() > 0 && *camera
                    == scene.cameras@[0],
                Err(PreviewBuildError::EmptyScene) => scene.meshes@.len() == 0,
                Err(PreviewBuildError::MissingCamera) => scene.meshes@.len() > 0
                    && scene.cameras@.len() == 0,
            },
    {
        if scene.meshes.len() == 0 {
            return Err(PreviewBuildError::EmptyScene);
        }
        if scene.cameras.len() == 0 {
            return Err(PreviewBuildError::MissingCamera);
        }
        Ok(&scene.cameras[0])
    }

    /// The frame that a preview of a scene comes in: its size and its tiles, without
    /// their pixels. Without a graphics adapter it is dropped.
    pub fn render(&self, scene: &RenderScene) -> (r: Result<PreviewFrameOutput, PreviewBuildError>)
        ensures
            r is Ok <==> scene.meshes@.len() > 0 && scene.cameras@.len() > 0,
            r is Err ==> r->Err_0 == if scene.meshes@.len() == 0 {
                PreviewBuildError::EmptyScene
            } else {
                PreviewBuildError::MissingCamera
            },
            r is Ok ==> {
                let f = r->Ok_0;
                &&& (f.width, f.height) == self.rendered()
                &&& f.scale == scale_of(self.tier)
                &&& f.dropped == (self.target is None)
                &&& f.dropped ==> f.tiles@.len() == 0
                &&& !f.dropped ==> {
                    let t = tiles::tiles_of(f.width, f.height, tile_side(self.tier));
                    &&& f.tiles@.len() == t.len()
                    &&& forall|i: int|
                        0 <= i < t.len() ==> preview_tile(#[trigger] t[i], f.tiles@[i])
                }
            },
    {
        match PreviewPipeline::check_scene(scene) {
            Err(e) => Err(e),
            Ok(_) => {
                let (width, height) = self.render_dimensions();
                let scale: Single = tier_resolution_scale(self.tier);
                if self.target.is_none() {
                    return Ok(
                        PreviewFrameOutput {
                            width,
                            height,
                            scale,
                            tiles: Vec::new(),
                            dropped: true,
                        },
                    );
                }
                let places: Vec<Tile> = tiles::generate_tiles(
                    width,
                    height,
                    tier_tile_size(self.tier),
                );
                let mut out: Vec<PreviewTile> = Vec::new();
                let mut i: usize = 0;
                while i < places.len()
                    invariant
                        i <= places@.len(),
                        places@ == tiles::tiles_of(width, height, tile_side(self.tier)),
                        out@.len() == i,
                        forall|j: int|
                            0 <= j < i ==> preview_tile(#[trigger] places@[j], out@[j]),
                    decreases places@.len() - i,
                {
                    let t: Tile = places[i];
                    proof {
                        tiles::tiles_stay_in_the_image(
                            width,
                            height,
                            tile_side(self.tier),
                            i as int,
                        );
                    }
                    out.push(
                        PreviewTile {
                            x: t.x_start,
                            y: t.y_start,
                            width: t.x_end - t.x_start,
                            height: t.y_end - t.y_start,
                            pixels: Vec::new(),
                        },
                    );
                    i = i + 1;
                }
                Ok(PreviewFrameOutput { width, height, scale, tiles: out, dropped: false })
            },
        }
    }
}

// ---- what a preview satisfies ------------------------------------------

/// Better hardware renders previews no smaller, and in larger tiles; none larger than asked.
pub proof fn better_hardware_shows_more(a: HardwareTier, b: HardwareTier)
    ensures
        scale_of(HardwareTier::Low).below(scale_of(HardwareTier::Medium)),
        scale_of(HardwareTier::Medium).below(scale_of(HardwareTier::High)),
        scale_of(HardwareTier::High) == scale_of(HardwareTier::Pro),
        (Single { bits: 0 }).below(scale_of(a)) && scale_of(a).at_most(
            Single { bits: 0x3f80_0000 },
        ),
        tile_side(HardwareTier::Low) < tile_side(HardwareTier::Medium) < tile_side(
            HardwareTier::High,
        ) < tile_side(HardwareTier::Pro),
        tile_side(a) % 64 == 0,
{
}

/// Warm light is all red and cool light all blue; the warmest has no blue. What a curve
/// gives is held to 0 to 255 before it is taken as a part. Temperatures past 1000 and 20000
/// kelvin shine as those two.
pub proof fn warm_light_is_red_and_cool_light_blue<
    H: Fn(Single) -> Single,
    C: Fn(Curve, Single) -> Single,
    N: Fn(Single) -> Single,
>(k: Single, hundredth: H, curve: C, of_255: N)
    ensures
        ({
            let t = arithmetic::applied(
                hundredth,
                k.clamped(Single { bits: 0x447a_0000 }, Single { bits: 0x469c_4000 }),
            );
            let turn = Single { bits: 0x4284_0000 };  // 66
            let full = Single { bits: 0x437f_0000 };  // 255
            let zero = Single { bits: 0 };
            let c = tint_of(k, hundredth, curve, of_255);
            let red = arithmetic::applied2(curve, Curve::RedCool, t);
            let warm_green = arithmetic::applied2(curve, Curve::GreenWarm, t);
            let cool_green = arithmetic::applied2(curve, Curve::GreenCool, t);
            let blue = arithmetic::applied2(curve, Curve::BlueWarm, t);
            &&& t.at_most(turn) ==> c.x.bits == 0x3f80_0000
            &&& turn.at_most(t) ==> c.z.bits == 0x3f80_0000
            &&& t.at_most(Single { bits: 0x4198_0000 }) ==> c.z.bits == 0
            &&& t.at_most(turn) ==> c.y == arithmetic::applied(
                of_255,
                warm_green.clamped(zero, full),
            )
            &&& turn.below(t) ==> c.y == arithmetic::applied(
                of_255,
                cool_green.clamped(zero, full),
            )
            &&& turn.below(t) ==> c.x == arithmetic::applied(of_255, red.clamped(zero, full))
            &&& (Single { bits: 0x4198_0000 }).below(t) && t.below(turn) ==> c.z
                == arithmetic::applied(of_255, blue.clamped(zero, full))
            &&& k.below(Single { bits: 0x447a_0000 }) ==> c == tint_of(
                Single { bits: 0x447a_0000 },
                hundredth,
                curve,
                of_255,
            )
            &&& (Single { bits: 0x469c_4000 }).below(k) ==> c == tint_of(
                Single { bits: 0x469c_4000 },
                hundredth,
                curve,
                of_255,
            )
        }),
{
}

/// The sky of a preview is that of the first sun of the scene: where it stands, how strong
/// it is and the color of its temperature. A scene without a sun has none.
pub proof fn the_first_sun_makes_the_sky<
    H: Fn(Single) -> Single,
    C: Fn(Curve, Single) -> Single,
    N: Fn(Single) -> Single,
>(lights: Seq<RenderLight>, hundredth: H, curve: C, of_255: N, i: int)
    requires
        0 <= i <= lights.len(),
        forall|j: int| 0 <= j < i ==> !(#[trigger] lights[j] is SunSky),
        i < lights.len() ==> lights[i] is SunSky,
    ensures
        i == lights.len() ==> sky_of(lights, hundredth, curve, of_255) is None,
        i < lights.len() ==> {
            &&& sky_of(lights, hundredth, curve, of_255) matches Some(sky)
            &&& sky.sun_azimuth_deg == lights[i]->SunSky_azimuth_deg
            &&& sky.sun_elevation_deg == lights[i]->SunSky_elevation_deg
            &&& sky.strength == lights[i]->SunSky_intensity
            &&& sky.tint == tint_of(
                lights[i]->SunSky_color_temperature_k,
                hundredth,
                curve,
                of_255,
            )
            &&& sky.turbidity.bits == 0x4020_0000
        },
    decreases lights.len(),
{
    if i > 0 {
        let rest = lights.drop_first();
        assert(!(lights[0] is SunSky));
        assert forall|j: int| 0 <= j < i - 1 implies !(#[trigger] rest[j] is SunSky) by {
            assert(rest[j] == lights[j + 1]);
        }
        if i < lights.len() {
            assert(rest[i - 1] == lights[i]);
        }
        the_first_sun_makes_the_sky(rest, hundredth, curve, of_255, i - 1);
    }
}

/// The camera of a preview stands at its position and looks at its target, both in metres,
/// with z up; focal lengths and aspects count as they are from 0.1 on, and as 0.1 below.
pub proof fn previews_look_where_their_camera_does<
    M: Fn(Vec3) -> Vec3,
    F: Fn(Single) -> Single,
>(cam: RenderCamera, aspect: Single, to_metres: M, field_of_view: F)
    ensures
        ({
            let c = camera_of(cam, aspect, to_metres, field_of_view);
            let least = Single { bits: 0x3dcc_cccd };  // 0.1
            &&& c.eye == arithmetic::applied(to_metres, cam.position_mm)
            &&& c.target == arithmetic::applied(to_metres, cam.target_mm)
            &&& c.up.x.bits == 0 && c.up.y.bits == 0 && c.up.z.bits == 0x3f80_0000
            &&& least.at_most(cam.focal_length_mm) ==> c.fov_y_deg == arithmetic::applied(
                field_of_view,
                cam.focal_length_mm,
            )
            &&& cam.focal_length_mm.below(least) ==> c.fov_y_deg == arithmetic::applied(
                field_of_view,
                least,
            )
            &&& least.at_most(aspect) ==> c.aspect == aspect
            &&& aspect.below(least) ==> c.aspect == least
            &&& (Single { bits: 0 }).below(c.near) && c.near.below(c.far)
        }),
{
}

/// A transform in metres turns and scales as before, and only shifts by metres in place of
/// millimetres: each of its three shifts on its own.
pub proof fn only_shifts_change_their_unit<L: Fn(Single) -> Single>(t: Mat4, metres: L)
    ensures
        ({
            let m = shifted_in_metres(t, metres);
            &&& m.row0.x == t.row0.x && m.row0.y == t.row0.y && m.row0.z == t.row0.z
            &&& m.row1.x == t.row1.x && m.row1.y == t.row1.y && m.row1.z == t.row1.z
            &&& m.row2.x == t.row2.x && m.row2.y == t.row2.y && m.row2.z == t.row2.z
            &&& m.row3 == t.row3
            &&& m.row0.w == arithmetic::applied(metres, t.row0.w)
            &&& m.row1.w == arithmetic::applied(metres, t.row1.w)
            &&& m.row2.w == arithmetic::applied(metres, t.row2.w)
        }),
{
}

/// The preview draws each corner of a mesh at its own position, in metres, with its own
/// normal and texture coordinate; where a mesh has too few of them, up along z and the
/// origin stand in.
pub proof fn corners_are_drawn_as_they_are<M: Fn(Vec3) -> Vec3>(
    mesh: SerializedMesh,
    to_metres: M,
    i: int,
)
    requires
        0 <= i < mesh.positions@.len(),
    ensures
        ({
            let v = vertices_of(mesh, to_metres);
            &&& v.len() == mesh.positions@.len()
            &&& v[i].position == arithmetic::applied(to_metres, mesh.positions@[i])
            &&& i < mesh.normals@.len() ==> v[i].normal == mesh.normals@[i]
            &&& i >= mesh.normals@.len() ==> v[i].normal.x.bits == 0 && v[i].normal.y.bits == 0
                && v[i].normal.z.bits == 0x3f80_0000
            &&& i < mesh.uvs@.len() ==> v[i].uv == mesh.uvs@[i]
            &&& i >= mesh.uvs@.len() ==> v[i].uv.x.bits == 0 && v[i].uv.y.bits == 0
        }),
{
}

/// The box of a scene holds every position of every mesh, in the scene, and is the smallest
/// that does: whatever covers all of the positions covers it.
pub proof fn the_box_of_a_scene_is_the_smallest_around_it<P: Fn(Mat4, Vec3) -> Vec3>(
    meshes: Seq<SerializedMesh>,
    place: P,
    c: Aabb,
)
    requires
        c.numeric(),
        forall|m: int, i: int|
            0 <= m < meshes.len() && 0 <= i < meshes[m].positions@.len() ==> c.covers(
                #[trigger] dot_at(meshes, place, m, i),
            ),
    ensures
        box_of(meshes, place).numeric(),
        forall|m: int, i: int|
            0 <= m < meshes.len() && 0 <= i < meshes[m].positions@.len() ==> box_of(
                meshes,
                place,
            ).covers(#[trigger] dot_at(meshes, place, m, i)),
        c.covers(box_of(meshes, place)),
    decreases meshes.len(),
{
    if meshes.len() > 0 {
        let fewer = meshes.drop_last();
        let last = meshes.len() - 1;
        assert forall|m: int, i: int|
            0 <= m < fewer.len() && 0 <= i < fewer[m].positions@.len() implies c.covers(
            #[trigger] dot_at(fewer, place, m, i),
        ) by {
            assert(dot_at(fewer, place, m, i) == dot_at(meshes, place, m, i));
        }
        the_box_of_a_scene_is_the_smallest_around_it(fewer, place, c);
        let start = box_of(fewer, place);
        let mesh = meshes.last();
        assert forall|i: int| 0 <= i < mesh.positions@.len() implies c.covers(
            (Aabb {
                min: arithmetic::applied2(place, mesh.transform, #[trigger] mesh.positions@[i]),
                max: arithmetic::applied2(place, mesh.transform, mesh.positions@[i]),
            }),
        ) by {
            assert(c.covers(dot_at(meshes, place, last, i)));
        }
        growing_holds_each_position(start, mesh, place, mesh.positions@.len(), c);
        assert forall|m: int, i: int|
            0 <= m < meshes.len() && 0 <= i < meshes[m].positions@.len() implies box_of(
            meshes,
            place,
        ).covers(#[trigger] dot_at(meshes, place, m, i)) by {
            if m < last {
                assert(dot_at(fewer, place, m, i) == dot_at(meshes, place, m, i));
                geometry::covering_is_transitive(
                    box_of(meshes, place),
                    start,
                    dot_at(meshes, place, m, i),
                );
            } else {
                assert(mesh.positions@[i] == meshes[m].positions@[i]);
            }
        }
    }
}

/// A position of a mesh, in the scene, as a box without extent.
pub open spec fn dot_at<P: Fn(Mat4, Vec3) -> Vec3>(
    meshes: Seq<SerializedMesh>,
    place: P,
    m: int,
    i: int,
) -> Aabb {
    let p = arithmetic::applied2(place, meshes[m].transform, meshes[m].positions@[i]);
    Aabb { min: p, max: p }
}

proof fn growing_holds_each_position<P: Fn(Mat4, Vec3) -> Vec3>(
    start: Aabb,
    mesh: SerializedMesh,
    place: P,
    n: nat,
    c: Aabb,
)
    requires
        start.numeric(),
        c.covers(start),
        n <= mesh.positions@.len(),
        forall|i: int|
            0 <= i < n ==> c.covers(
                (Aabb {
                    min: arithmetic::applied2(place, mesh.transform, #[trigger] mesh.positions@[i]),
                    max: arithmetic::applied2(place, mesh.transform, mesh.positions@[i]),
                }),
            ),
    ensures
        grown_by(start, mesh, place, n).numeric(),
        grown_by(start, mesh, place, n).covers(start),
        forall|i: int|
            0 <= i < n ==> grown_by(start, mesh, place, n).covers(
                (Aabb {
                    min: arithmetic::applied2(place, mesh.transform, #[trigger] mesh.positions@[i]),
                    max: arithmetic::applied2(place, mesh.transform, mesh.positions@[i]),
                }),
            ),
        c.covers(grown_by(start, mesh, place, n)),
    decreases n,
{
    if n > 0 {
        growing_holds_each_position(start, mesh, place, (n - 1) as nat, c);
        let before = grown_by(start, mesh, place, (n - 1) as nat);
        let after = grown_by(start, mesh, place, n);
        assert(after.covers(before));
        geometry::covering_is_transitive(after, before, start);
        assert forall|i: int| 0 <= i < n implies after.covers(
            (Aabb {
                min: arithmetic::applied2(place, mesh.transform, #[trigger] mesh.positions@[i]),
                max: arithmetic::applied2(place, mesh.transform, mesh.positions@[i]),
            }),
        ) by {
            let p = arithmetic::applied2(place, mesh.transform, mesh.positions@[i]);
            if i < n - 1 {
                geometry::covering_is_transitive(after, before, Aabb { min: p, max: p });
            }
        }
        assert(c.covers(
            Aabb {
                min: arithmetic::applied2(place, mesh.transform, mesh.positions@[n - 1]),
                max: arithmetic::applied2(place, mesh.transform, mesh.positions@[n - 1]),
            },
        ));
    }
}

/// The ball of a scene stands in the middle of its box, with a radius of 1 at least; a scene
/// that reaches nowhere, or to infinity, has one of radius 10 at the origin.
pub proof fn balls_stand_in_the_middle_of_their_box<S: Fn(Aabb) -> Sphere>(b: Aabb, ball: S)
    ensures
        finite(b.min) && finite(b.max) ==> ball_around(b, ball).center == arithmetic::applied(
            ball,
            b,
        ).center && (Single { bits: 0x3f80_0000 }).at_most(ball_around(b, ball).radius),
        finite(b.min) && finite(b.max) && (Single { bits: 0x3f80_0000 }).at_most(
            arithmetic::applied(ball, b).radius,
        ) ==> ball_around(b, ball).radius == arithmetic::applied(ball, b).radius,
        ball_around(geometry::nothing(), ball).radius.bits == 0x4120_0000,
        ball_around(geometry::nothing(), ball).center == geometry::zeros(),
{
}

/// A mesh is shown in the material that was set for its own material id, and in the plain
/// one where none was set: setting another id's does not change it.
pub proof fn overrides_count_for_their_own_id(
    before: PreviewPipeline,
    after: PreviewPipeline,
    id: Seq<char>,
    mat: PreviewMaterial,
    mesh: SerializedMesh,
)
    requires
        after.material_overrides@ == before.material_overrides@.insert(id, mat),
    ensures
        mesh.material_id is Some && mesh.material_id->0@ == id ==> after.shown_material(mesh)
            == mat,
        mesh.material_id is None || mesh.material_id->0@ != id ==> after.shown_material(mesh)
            == before.shown_material(mesh),
        mesh.material_id is None ==> before.shown_material(mesh) == plain_material(),
        mesh.material_id is Some && !before.material_overrides@.dom().contains(
            mesh.material_id->0@,
        ) ==> before.shown_material(mesh) == plain_material(),
{
}

/// What a preview is rendered into.
pub open spec fn target_for<F: Fn(u32, Single) -> u32>(
    scaled: F,
    tier: HardwareTier,
    width: u32,
    height: u32,
    gpu_available: bool,
) -> Option<RenderTarget> {
    if gpu_available {
        Some(
            RenderTarget {
                width: arithmetic::applied2(scaled, width, scale_of(tier)),
                height: arithmetic::applied2(scaled, height, scale_of(tier)),
            },
        )
    } else {
        None
    }
}

/// A preview is rendered into something exactly if there is a graphics adapter. Its width
/// comes of the width alone and its height of the height alone, each in the same way, and
/// the best hardware renders at full size.
pub proof fn targets_keep_their_sides<F: Fn(u32, Single) -> u32>(
    scaled: F,
    tier: HardwareTier,
    width: u32,
    height: u32,
    other: u32,
    gpu_available: bool,
)
    ensures
        target_for(scaled, tier, width, height, gpu_available) is Some <==> gpu_available,
        gpu_available ==> target_for(scaled, tier, width, height, true)->0.width == target_for(
            scaled,
            tier,
            width,
            other,
            true,
        )->0.width,
        gpu_available ==> target_for(scaled, tier, width, height, true)->0.height == target_for(
            scaled,
            tier,
            other,
            height,
            true,
        )->0.height,
        target_for(scaled, tier, width, height, true)->0.width == target_for(
            scaled,
            tier,
            height,
            width,
            true,
        )->0.height,
        (tier == HardwareTier::High || tier == HardwareTier::Pro) && arithmetic::applied2(
            scaled,
            width,
            Single { bits: 0x3f80_0000 },
        ) == width ==> target_for(scaled, tier, width, height, true)->0.width == width,
        tier == HardwareTier::Low ==> target_for(scaled, tier, width, height, true)->0.width
            == arithmetic::applied2(scaled, width, Single { bits: 0x3f00_0000 }),
        tier == HardwareTier::Medium ==> target_for(scaled, tier, width, height, true)->0.width
            == arithmetic::applied2(scaled, width, Single { bits: 0x3f40_0000 }),
{
}

impl PreviewPipeline {
    /// The preview draws a mesh as it is: a corner for each of its positions, its triangles
    /// in their order, in place of the material of its id the one that is set for that id,
    /// and placed as it is placed in the scene. Two pictures of one mesh differ in nothing.
    pub proof fn meshes_are_drawn_as_they_are<M: Fn(Vec3) -> Vec3, L: Fn(Single) -> Single>(
        &self,
        mesh: SerializedMesh,
        to_metres: M,
        metres: L,
        b: PreviewBatch,
        again: PreviewBatch,
        i: int,
    )
        requires
            self.draws(mesh, to_metres, metres, b),
            self.draws(mesh, to_metres, metres, again),
        ensures
            b.vertices@.len() == mesh.positions@.len(),
            0 <= i < mesh.positions@.len() ==> b.vertices@[i].position == arithmetic::applied(
                to_metres,
                mesh.positions@[i],
            ),
            b.indices@.len() == mesh.indices@.len(),
            0 <= i < mesh.indices@.len() ==> b.indices@[i] == mesh.indices@[i],
            mesh.material_id is Some && self.material_overrides@.dom().contains(
                mesh.material_id->0@,
            ) ==> b.material == self.material_overrides@[mesh.material_id->0@],
            b.transform == shifted_in_metres(mesh.transform, metres),
            b.vertices@ == again.vertices@ && b.indices@ == again.indices@ && b.transform
                == again.transform && b.material == again.material,
    {
    }
}

/// The tiles of a preview stand where the tiles of its picture do: a tile's far corner is
/// its near corner and its size, and it has no pixels yet.
pub proof fn preview_tiles_stand_where_they_belong(t: Tile, p: PreviewTile)
    requires
        t.wf(),
        preview_tile(t, p),
    ensures
        p.x + p.width == t.x_end && p.y + p.height == t.y_end,
        t.area() > 0 ==> t.holds(p.x as int, p.y as int),
        p.width * p.height == t.area(),
        p.pixels@.len() == 0,
{
    if t.area() > 0 {
        assert(t.x_end > t.x_start && t.y_end > t.y_start) by (nonlinear_arith)
            requires
                (t.x_end - t.x_start) * (t.y_end - t.y_start) > 0,
                t.x_end >= t.x_start,
                t.y_end >= t.y_start,
        ;
    }
}

} // verus!
