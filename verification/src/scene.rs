//! The scene that a render works on: meshes, cameras, lights.
use vstd::prelude::*;

use crate::geometry::{Mat4, Vec2, Vec3};
use crate::single::Single;
use crate::text;

verus! {

#[derive(Debug, PartialEq)]
pub struct SerializedMesh {
    pub id: String,
    /// Triangle indices packed [i0, i1, i2, i0, i1, i2, ...].
    pub indices: Vec<u32>,
    pub positions: Vec<Vec3>,
    pub normals: Vec<Vec3>,
    pub uvs: Vec<Vec2>,
    pub material_id: Option<String>,
    /// World transform (mm).
    pub transform: Mat4,
}

/// What a mesh holds.
pub struct MeshView {
    pub id: Seq<char>,
    pub indices: Seq<u32>,
    pub positions: Seq<Vec3>,
    pub normals: Seq<Vec3>,
    pub uvs: Seq<Vec2>,
    pub material_id: Option<Seq<char>>,
    pub transform: Mat4,
}

impl View for SerializedMesh {
    type V = MeshView;

    open spec fn view(&self) -> MeshView {
        MeshView {
            id: self.id@,
            indices: self.indices@,
            positions: self.positions@,
            normals: self.normals@,
            uvs: self.uvs@,
            material_id: text::text_if_any(self.material_id),
            transform: self.transform,
        }
    }
}

/// A tessellated mesh. Normals and texture coordinates may be missing.
#[derive(Debug, PartialEq)]
pub struct GeometryMesh {
    pub positions: Vec<Vec3>,
    pub normals: Vec<Vec3>,
    pub uvs: Vec<Vec2>,
    pub indices: Vec<u32>,
}

#[derive(Debug, PartialEq)]
pub struct RenderCamera {
    pub id: String,
    pub position_mm: Vec3,
    pub target_mm: Vec3,
    pub focal_length_mm: Single,
    pub exposure_ev: Single,
    pub white_balance_k: Single,
    pub aperture_f: Single,
}

impl Clone for RenderCamera {
    fn clone(&self) -> (r: RenderCamera)
        ensures
            r == *self,
    {
        RenderCamera {
            id: self.id.clone(),
            position_mm: self.position_mm,
            target_mm: self.target_mm,
            focal_length_mm: self.focal_length_mm,
            exposure_ev: self.exposure_ev,
            white_balance_k: self.white_balance_k,
            aperture_f: self.aperture_f,
        }
    }
}

#[derive(Clone, Copy, Debug, PartialEq, Eq, Structural)]
pub enum RenderLight {
    SunSky {
        azimuth_deg: Single,
        elevation_deg: Single,
        intensity: Single,
        color_temperature_k: Single,
    },
    Area {
        position_mm: Vec3,
        width_mm: Single,
        height_mm: Single,
        intensity: Single,
        color_temperature_k: Single,
    },
    Point { position_mm: Vec3, intensity: Single, color_temperature_k: Single },
}

#[derive(Debug, PartialEq)]
pub struct RenderScene {
    pub meshes: Vec<SerializedMesh>,
    pub cameras: Vec<RenderCamera>,
    pub lights: Vec<RenderLight>,
    pub ambient_strength: Single,
}

/// What a scene holds.
pub struct SceneView {
    pub meshes: Seq<MeshView>,
    pub cameras: Seq<RenderCamera>,
    pub lights: Seq<RenderLight>,
    pub ambient_strength: Single,
}

/// What each mesh of a list holds.
pub open spec fn mesh_views(meshes: Seq<SerializedMesh>) -> Seq<MeshView> {
    meshes.map_values(|m: SerializedMesh| m@)
}

impl View for RenderScene {
    type V = SceneView;

    open spec fn view(&self) -> SceneView {
        SceneView {
            meshes: mesh_views(self.meshes@),
            cameras: self.cameras@,
            lights: self.lights@,
            ambient_strength: self.ambient_strength,
        }
    }
}

/// The scene without anything in it.
pub open spec fn bare_scene() -> SceneView {
    SceneView {
        meshes: Seq::empty(),
        cameras: Seq::empty(),
        lights: Seq::empty(),
        ambient_strength: Single { bits: 0 },
    }
}

/// How many triangles the meshes have: three indices each, a remainder left out.
pub open spec fn triangles_in(meshes: Seq<MeshView>) -> nat
    decreases meshes.len(),
{
    if meshes.len() == 0 {
        0
    } else {
        triangles_in(meshes.drop_last()) + meshes.last().indices.len() / 3
    }
}

/// A list of one value, `n` times.
pub fn repeated<T: Copy>(value: T, n: usize) -> (r: Vec<T>)
    ensures
        r@ == Seq::new(n as nat, |i: int| value),
{
    let mut out: Vec<T> = Vec::new();
    let mut i: usize = 0;
    while i < n
        invariant
            i <= n,
            out@ == Seq::new(i as nat, |i: int| value),
        decreases n - i,
    {
        out.push(value);
        i = i + 1;
        proof {
            assert(out@ =~= Seq::new(i as nat, |i: int| value));
        }
    }
    out
}

impl Clone for SerializedMesh {
    fn clone(&self) -> (r: SerializedMesh)
        ensures
            r@ == self@,
    {
        let r = SerializedMesh {
            id: self.id.clone(),
            indices: self.indices.clone(),
            positions: self.positions.clone(),
            normals: self.normals.clone(),
            uvs: self.uvs.clone(),
            material_id: text::copy_if_any(&self.material_id),
            transform: self.transform,
        };
        proof {
            assert(r.indices@ =~= self.indices@);
            assert(r.positions@ =~= self.positions@);
            assert(r.normals@ =~= self.normals@);
            assert(r.uvs@ =~= self.uvs@);
        }
        r
    }
}

/// The direction that stands in for a missing normal.
pub open spec fn up() -> Vec3 {
    Vec3 { x: Single { bits: 0 }, y: Single { bits: 0x3f80_0000 }, z: Single { bits: 0 } }
}

/// What a mesh becomes in a scene: normals and texture coordinates that are not
/// one for each position are replaced, by the upward direction and by zeros.
pub open spec fn mesh_from_geometry(
    id: Seq<char>,
    mesh: GeometryMesh,
    material_id: Option<Seq<char>>,
    transform: Mat4,
) -> MeshView {
    let n = mesh.positions@.len();
    MeshView {
        id,
        indices: mesh.indices@,
        positions: mesh.positions@,
        normals: if mesh.normals@.len() == n {
            mesh.normals@
        } else {
            Seq::new(n, |i: int| up())
        },
        uvs: if mesh.uvs@.len() == n {
            mesh.uvs@
        } else {
            Seq::new(n, |i: int| Vec2 { x: Single { bits: 0 }, y: Single { bits: 0 } })
        },
        material_id,
        transform,
    }
}

impl SerializedMesh {
    /// A tessellated mesh as the scene holds it. The renderer needs a normal and
    /// a texture coordinate for each position, so missing ones are filled in.
    pub fn from_geometry_mesh(
        id: &str,
        mesh: &GeometryMesh,
        material_id: Option<String>,
        transform: Mat4,
    ) -> (r: SerializedMesh)
        ensures
            r@ == mesh_from_geometry(id@, *mesh, text::text_if_any(material_id), transform),
    {
        let count: usize = mesh.positions.len();
        let uvs: Vec<Vec2> = if mesh.uvs.len() == count {
            mesh.uvs.clone()
        } else {
            repeated(Vec2 { x: Single::zero(), y: Single::zero() }, count)
        };
        let normals: Vec<Vec3> = if mesh.normals.len() == count {
            mesh.normals.clone()
        } else {
            repeated(Vec3 { x: Single::zero(), y: Single::one(), z: Single::zero() }, count)
        };
        let r = SerializedMesh {
            id: id.to_owned(),
            indices: mesh.indices.clone(),
            positions: mesh.positions.clone(),
            normals,
            uvs,
            material_id,
            transform,
        };
        proof {
            let want = mesh_from_geometry(id@, *mesh, text::text_if_any(material_id), transform);
            assert(r.indices@ =~= mesh.indices@);
            assert(r.positions@ =~= mesh.positions@);
            assert(r.normals@ =~= want.normals);
            assert(r.uvs@ =~= want.uvs);
        }
        r
    }
}

/// A copy of a list of meshes.
fn copy_meshes(meshes: &Vec<SerializedMesh>) -> (r: Vec<SerializedMesh>)
    ensures
        mesh_views(r@) == mesh_views(meshes@),
{
    let mut out: Vec<SerializedMesh> = Vec::new();
    let mut i: usize = 0;
    while i < meshes.len()
        invariant
            i <= meshes.len(),
            mesh_views(out@) == mesh_views(meshes@).take(i as int),
        decreases meshes.len() - i,
    {
        out.push(meshes[i].clone());
        i = i + 1;
        proof {
            let seen = out@.drop_last();
            assert(mesh_views(out@) =~= mesh_views(seen).push(out@.last()@));
            assert(mesh_views(meshes@).take(i as int) =~= mesh_views(meshes@).take(i - 1).push(
                meshes@[i - 1]@,
            ));
            assert(out@ =~= seen.push(out@.last()));
        }
    }
    proof {
        assert(mesh_views(meshes@).take(i as int) =~= mesh_views(meshes@));
    }
    out
}

impl Clone for RenderScene {
    fn clone(&self) -> (r: RenderScene)
        ensures
            r@ == self@,
    {
        let cameras: Vec<RenderCamera> = self.cameras.clone();
        let lights: Vec<RenderLight> = self.lights.clone();
        proof {
            assert(cameras@ =~= self.cameras@);
            assert(lights@ =~= self.lights@);
        }
        RenderScene {
            meshes: copy_meshes(&self.meshes),
            cameras,
            lights,
            ambient_strength: self.ambient_strength,
        }
    }
}

impl Default for RenderScene {
    fn default() -> (r: RenderScene)
        ensures
            r@ == bare_scene(),
    {
        RenderScene::new()
    }
}

impl RenderScene {
    pub fn new() -> (r: RenderScene)
        ensures
            r@ == bare_scene(),
    {
        let r = RenderScene {
            meshes: Vec::new(),
            cameras: Vec::new(),
            lights: Vec::new(),
            ambient_strength: Single::zero(),
        };
        proof {
            assert(r@.meshes =~= Seq::empty());
        }
        r
    }

    pub fn push_mesh(&mut self, mesh: SerializedMesh)
        ensures
            final(self)@ == (SceneView { meshes: old(self)@.meshes.push(mesh@), ..old(self)@ }),
    {
        self.meshes.push(mesh);
        proof {
            assert(self@.meshes =~= old(self)@.meshes.push(mesh@));
        }
    }

    pub fn push_camera(&mut self, camera: RenderCamera)
        ensures
            final(self)@ == (SceneView { cameras: old(self)@.cameras.push(camera), ..old(self)@ }),
    {
        self.cameras.push(camera);
    }

    pub fn push_light(&mut self, light: RenderLight)
        ensures
            final(self)@ == (SceneView { lights: old(self)@.lights.push(light), ..old(self)@ }),
    {
        self.lights.push(light);
    }

    /// Puts a tessellated mesh into the scene, under a material and a transform.
    pub fn push_geometry_mesh(
        &mut self,
        id: &str,
        mesh: &GeometryMesh,
        material_id: Option<String>,
        transform: Mat4,
    )
        ensures
            final(self)@ == (SceneView {
                meshes: old(self)@.meshes.push(
                    mesh_from_geometry(id@, *mesh, text::text_if_any(material_id), transform),
                ),
                ..old(self)@
            }),
    {
        let packed: SerializedMesh = SerializedMesh::from_geometry_mesh(
            id,
            mesh,
            material_id,
            transform,
        );
        self.push_mesh(packed);
    }

    /// How many triangles the scene has.
    pub fn triangle_count(&self) -> (r: usize)
        requires
            triangles_in(self@.meshes) <= usize::MAX,
        ensures
            r == triangles_in(self@.meshes),
    {
        let mut n: usize = 0;
        let mut i: usize = 0;
        let ghost views = self@.meshes;
        proof {
            assert(views.take(0) =~= Seq::empty());
        }
        while i < self.meshes.len()
            invariant
                i <= self.meshes.len(),
                views == mesh_views(self.meshes@),
                triangles_in(views) <= usize::MAX,
                n == triangles_in(views.take(i as int)),
            decreases self.meshes.len() - i,
        {
            proof {
                assert(views.take(i + 1).drop_last() =~= views.take(i as int));
                assert(views.take(i + 1).last() == self.meshes@[i as int]@);
                triangles_grow(views, i + 1);
            }
            n = n + self.meshes[i].indices.len() / 3;
            i = i + 1;
        }
        proof {
            assert(views.take(i as int) =~= views);
        }
        n
    }
}

pub proof fn triangles_grow(meshes: Seq<MeshView>, k: int)
    requires
        0 <= k <= meshes.len(),
    ensures
        triangles_in(meshes.take(k)) <= triangles_in(meshes),
    decreases meshes.len() - k,
{
    if k < meshes.len() {
        triangles_grow(meshes, k + 1);
        assert(meshes.take(k + 1).drop_last() =~= meshes.take(k));
    } else {
        assert(meshes.take(k) =~= meshes);
    }
}

/// Every mesh that comes from geometry has a normal and a texture coordinate for
/// each of its positions.
pub proof fn geometry_mesh_is_complete(
    id: Seq<char>,
    mesh: GeometryMesh,
    material_id: Option<Seq<char>>,
    transform: Mat4,
)
    ensures
        ({
            let m = mesh_from_geometry(id, mesh, material_id, transform);
            m.normals.len() == m.positions.len() && m.uvs.len() == m.positions.len()
        }),
{
}

/// Adding a mesh adds its triangles, whatever is already in the scene.
pub proof fn pushed_mesh_adds_its_triangles(meshes: Seq<MeshView>, mesh: MeshView)
    ensures
        triangles_in(meshes.push(mesh)) == triangles_in(meshes) + mesh.indices.len() / 3,
{
    assert(meshes.push(mesh).drop_last() =~= meshes);
}

/// A mesh in a scene keeps what its geometry says: its corners, its triangles, and the
/// normals and texture coordinates that it has for each corner. A normal that it lacks
/// points along the second axis, and a texture coordinate that it lacks is zero.
pub proof fn meshes_keep_their_geometry(
    id: Seq<char>,
    mesh: GeometryMesh,
    material_id: Option<Seq<char>>,
    transform: Mat4,
    i: int,
)
    requires
        0 <= i < mesh.positions@.len(),
    ensures
        ({
            let m = mesh_from_geometry(id, mesh, material_id, transform);
            &&& m.id == id && m.material_id == material_id && m.transform == transform
            &&& m.positions == mesh.positions@ && m.indices == mesh.indices@
            &&& mesh.normals@.len() == mesh.positions@.len() ==> m.normals[i] == mesh.normals@[i]
            &&& mesh.uvs@.len() == mesh.positions@.len() ==> m.uvs[i] == mesh.uvs@[i]
            &&& mesh.normals@.len() != mesh.positions@.len() ==> m.normals[i].x.bits == 0
                && m.normals[i].y.bits == 0x3f80_0000 && m.normals[i].z.bits == 0
            &&& mesh.uvs@.len() != mesh.positions@.len() ==> m.uvs[i].x.bits == 0
                && m.uvs[i].y.bits == 0
        }),
{
}

/// Triangles are counted mesh by mesh, in whatever order the meshes come.
pub proof fn triangles_are_counted_mesh_by_mesh(a: Seq<MeshView>, b: Seq<MeshView>)
    ensures
        triangles_in(a + b) == triangles_in(a) + triangles_in(b),
        triangles_in(a + b) == triangles_in(b + a),
        a.len() == 1 ==> 3 * triangles_in(a) <= a[0].indices.len() < 3 * triangles_in(a) + 3,
    decreases a.len() + b.len(),
{
    parted_triangles(a, b);
    parted_triangles(b, a);
    if a.len() == 1 {
        assert(a.drop_last() =~= Seq::empty());
        assert(a.last() == a[0]);
        assert(triangles_in(a.drop_last()) == 0);
    }
}

proof fn parted_triangles(a: Seq<MeshView>, b: Seq<MeshView>)
    ensures
        triangles_in(a + b) == triangles_in(a) + triangles_in(b),
    decreases b.len(),
{
    if b.len() == 0 {
        assert(a + b =~= a);
    } else {
        parted_triangles(a, b.drop_last());
        assert((a + b).drop_last() =~= a + b.drop_last());
        assert((a + b).last() == b.last());
    }
}

} // verus!
