//! The scene in the form that the path tracer reads, and how a path goes on from
//! bounce to bounce.
use vstd::prelude::*;

use crate::arithmetic;
use crate::bvh;
use crate::bvh::{BuilderTriangle, Bvh, PrimInfo, SplitCandidate, MAX_PRIMS};
use crate::geometry::{Aabb, Mat4, Vec3, Vec4};
use crate::intersect::{Ray, ShadingTriangle};
use crate::light_sampling;
use crate::light_sampling::NativeLight;
use crate::lighting::SkyParams;
use crate::material;
use crate::material::{BsdfSample, PathTraceMaterial};
use crate::scene;
use crate::scene::{RenderCamera, RenderLight, RenderScene, SerializedMesh};
use crate::single::Single;

verus! {

/// The normals at the corners of a triangle.
#[derive(Clone, Copy, Debug, PartialEq)]
pub struct TriangleShading {
    pub n0: Vec3,
    pub n1: Vec3,
    pub n2: Vec3,
}

/// A scene in the form that the path tracer reads.
#[derive(Debug)]
pub struct PathTraceScene {
    pub bvh: Bvh,
    pub triangles: Vec<ShadingTriangle>,
    /// One entry for each triangle.
    pub shading_data: Vec<TriangleShading>,
    pub materials: Vec<PathTraceMaterial>,
    /// One entry for each triangle: an index into `materials`, or -1 for none.
    pub material_ids: Vec<i32>,
    pub lights: Vec<NativeLight>,
    pub sky: SkyParams,
}

/// A triangle with what shading it needs.
pub struct Compiled {
    pub triangle: ShadingTriangle,
    pub shading: TriangleShading,
    pub material: i32,
}

/// The index of corner `c` of triangle `t`.
pub open spec fn corner(mesh: SerializedMesh, t: int, c: int) -> int {
    mesh.indices@[3 * t + c] as int
}

/// Whether all corners of a triangle are positions of its mesh.
pub open spec fn kept(mesh: SerializedMesh, t: int) -> bool {
    corner(mesh, t, 0) < mesh.positions@.len() && corner(mesh, t, 1) < mesh.positions@.len()
        && corner(mesh, t, 2) < mesh.positions@.len()
}

/// A position of a mesh, in the scene.
pub open spec fn placed<P: Fn(Mat4, Vec3) -> Vec3>(
    mesh: SerializedMesh,
    place: P,
    i: int,
) -> Vec3 {
    arithmetic::applied2(place, mesh.transform, mesh.positions@[i])
}

/// A normal of a mesh, in the scene; up along z where the mesh has none for the
/// corner.
pub open spec fn turned<N: Fn(Mat4, Vec3) -> Vec3>(
    mesh: SerializedMesh,
    turn: N,
    i: int,
) -> Vec3 {
    if i < mesh.normals@.len() {
        arithmetic::applied2(turn, mesh.transform, mesh.normals@[i])
    } else {
        light_sampling::unit_z()
    }
}

/// A triangle of a mesh, in the scene. Without normals it is shaded flat.
pub open spec fn compiled<
    P: Fn(Mat4, Vec3) -> Vec3,
    N: Fn(Mat4, Vec3) -> Vec3,
    F: Fn(Vec3, Vec3, Vec3) -> Vec3,
>(
    mesh: SerializedMesh,
    place: P,
    turn: N,
    flat: F,
    object: int,
    material: i32,
    prim: int,
    t: int,
) -> Compiled {
    let v0 = placed(mesh, place, corner(mesh, t, 0));
    let v1 = placed(mesh, place, corner(mesh, t, 1));
    let v2 = placed(mesh, place, corner(mesh, t, 2));
    let g = arithmetic::applied3(flat, v0, v1, v2);
    Compiled {
        triangle: ShadingTriangle {
            v0,
            v1,
            v2,
            prim_id: prim as u32,
            object_id: object as u32,
        },
        shading: if mesh.normals@.len() == 0 {
            TriangleShading { n0: g, n1: g, n2: g }
        } else {
            TriangleShading {
                n0: turned(mesh, turn, corner(mesh, t, 0)),
                n1: turned(mesh, turn, corner(mesh, t, 1)),
                n2: turned(mesh, turn, corner(mesh, t, 2)),
            }
        },
        material,
    }
}

/// The first `n` triangles of a mesh, in the scene, those left out that lack a
/// corner; `first` triangles stand before them.
pub open spec fn mesh_part<
    P: Fn(Mat4, Vec3) -> Vec3,
    N: Fn(Mat4, Vec3) -> Vec3,
    F: Fn(Vec3, Vec3, Vec3) -> Vec3,
>(
    mesh: SerializedMesh,
    place: P,
    turn: N,
    flat: F,
    object: int,
    material: i32,
    first: int,
    n: nat,
) -> Seq<Compiled>
    decreases n,
{
    if n == 0 {
        Seq::empty()
    } else {
        let before = mesh_part(mesh, place, turn, flat, object, material, first, (n - 1) as nat);
        if kept(mesh, n - 1) {
            before.push(
                compiled(
                    mesh,
                    place,
                    turn,
                    flat,
                    object,
                    material,
                    first + before.len(),
                    n - 1,
                ),
            )
        } else {
            before
        }
    }
}

/// Whether a lookup finds no index past the end of a list.
pub open spec fn finds_below<L: Fn(String) -> Option<usize>>(lookup: L, count: int) -> bool {
    forall|id: String, r: Option<usize>| #[trigger]
        lookup.ensures((id,), r) && r is Some ==> r->0 < count
}

/// The material of a mesh: the index that it is found under, or -1.
pub open spec fn material_index<L: Fn(String) -> Option<usize>>(
    mesh: SerializedMesh,
    lookup: L,
) -> i32 {
    match mesh.material_id {
        Some(id) => match arithmetic::applied(lookup, id) {
            Some(i) => i as i32,
            None => -1i32,
        },
        None => -1i32,
    }
}

/// The materials of meshes.
pub open spec fn indices_by<L: Fn(String) -> Option<usize>>(
    meshes: Seq<SerializedMesh>,
    lookup: L,
) -> Seq<i32> {
    meshes.map_values(|m: SerializedMesh| material_index(m, lookup))
}

/// Whether what a lookup gives for the meshes is what it gave when it was called.
pub open spec fn looked_up<L: Fn(String) -> Option<usize>>(
    meshes: Seq<SerializedMesh>,
    lookup: L,
) -> bool {
    forall|i: int|
        0 <= i < meshes.len() && (#[trigger] meshes[i]).material_id is Some ==> lookup.ensures(
            (meshes[i].material_id->0,),
            arithmetic::applied(lookup, meshes[i].material_id->0),
        )
}

/// The triangles of meshes, in the scene, one mesh after the other, each mesh in its
/// material.
pub open spec fn scene_part<
    P: Fn(Mat4, Vec3) -> Vec3,
    N: Fn(Mat4, Vec3) -> Vec3,
    F: Fn(Vec3, Vec3, Vec3) -> Vec3,
>(meshes: Seq<SerializedMesh>, materials: Seq<i32>, place: P, turn: N, flat: F) -> Seq<Compiled>
    decreases meshes.len(),
{
    if meshes.len() == 0 {
        Seq::empty()
    } else {
        let before = scene_part(meshes.drop_last(), materials, place, turn, flat);
        let mesh = meshes.last();
        before + mesh_part(
            mesh,
            place,
            turn,
            flat,
            meshes.len() - 1,
            materials[meshes.len() - 1],
            before.len() as int,
            mesh.indices@.len() / 3,
        )
    }
}

/// Triangles side by side with their shading and materials.
pub open spec fn zipped(
    triangles: Seq<ShadingTriangle>,
    shading: Seq<TriangleShading>,
    materials: Seq<i32>,
) -> Seq<Compiled> {
    Seq::new(
        triangles.len(),
        |i: int|
            Compiled { triangle: triangles[i], shading: shading[i], material: materials[i] },
    )
}

/// The triangles as the tree is built over them.
pub open spec fn builders(triangles: Seq<ShadingTriangle>) -> Seq<BuilderTriangle> {
    triangles.map_values(
        |t: ShadingTriangle|
            BuilderTriangle { v0: t.v0, v1: t.v1, v2: t.v2, prim_id: t.prim_id },
    )
}

/// Whether a tree is the one over triangles.
pub open spec fn tree_over<
    M: Fn(BuilderTriangle) -> Vec3,
    B: Fn(Aabb, Vec3) -> usize,
    C: Fn(Aabb, SplitCandidate) -> Single,
>(
    tree: Bvh,
    triangles: Seq<BuilderTriangle>,
    centroid_of: M,
    bucket_of: B,
    cost_of: C,
) -> bool {
    exists|prims: Seq<PrimInfo>| #[trigger]
        bvh::triangle_prims(centroid_of, triangles, prims) && bvh::built(
            bucket_of,
            cost_of,
            prims,
            tree,
        )
}

/// Triangles under way into a scene.
struct Compilation {
    triangles: Vec<ShadingTriangle>,
    shading: Vec<TriangleShading>,
    material_ids: Vec<i32>,
}

impl Compilation {
    spec fn wf(&self) -> bool {
        self.triangles@.len() == self.shading@.len() && self.triangles@.len()
            == self.material_ids@.len()
    }

    spec fn all(&self) -> Seq<Compiled> {
        zipped(self.triangles@, self.shading@, self.material_ids@)
    }

    fn push(&mut self, triangle: ShadingTriangle, shading: TriangleShading, material: i32)
        requires
            old(self).wf(),
        ensures
            final(self).wf(),
            final(self).all() == old(self).all().push((Compiled { triangle, shading, material })),
    {
        let ghost before = self.all();
        self.triangles.push(triangle);
        self.shading.push(shading);
        self.material_ids.push(material);
        proof {
            assert(self.all() =~= before.push(Compiled { triangle, shading, material }));
        }
    }
}

fn place_positions<P: Fn(Mat4, Vec3) -> Vec3>(mesh: &SerializedMesh, place: &P) -> (r: Vec<Vec3>)
    requires
        arithmetic::steady2(*place),
    ensures
        r@.len() == mesh.positions@.len(),
        forall|i: int| 0 <= i < r@.len() ==> #[trigger] r@[i] == placed(*mesh, *place, i),
{
    let mut out: Vec<Vec3> = Vec::new();
    let mut i: usize = 0;
    while i < mesh.positions.len()
        invariant
            arithmetic::steady2(*place),
            i <= mesh.positions@.len(),
            out@.len() == i,
            forall|j: int| 0 <= j < i ==> #[trigger] out@[j] == placed(*mesh, *place, j),
        decreases mesh.positions@.len() - i,
    {
        let v: Vec3 = place(mesh.transform, mesh.positions[i]);
        out.push(v);
        i = i + 1;
    }
    out
}

fn turn_normals<N: Fn(Mat4, Vec3) -> Vec3>(mesh: &SerializedMesh, turn: &N) -> (r: Vec<Vec3>)
    requires
        arithmetic::steady2(*turn),
    ensures
        r@.len() == mesh.normals@.len(),
        forall|i: int| 0 <= i < r@.len() ==> #[trigger] r@[i] == turned(*mesh, *turn, i),
{
    let mut out: Vec<Vec3> = Vec::new();
    let mut i: usize = 0;
    while i < mesh.normals.len()
        invariant
            arithmetic::steady2(*turn),
            i <= mesh.normals@.len(),
            out@.len() == i,
            forall|j: int| 0 <= j < i ==> #[trigger] out@[j] == turned(*mesh, *turn, j),
        decreases mesh.normals@.len() - i,
    {
        let n: Vec3 = turn(mesh.transform, mesh.normals[i]);
        out.push(n);
        i = i + 1;
    }
    out
}

fn normal_or_up(normals: &Vec<Vec3>, i: usize) -> (r: Vec3)
    ensures
        r == if i < normals@.len() {
            normals@[i as int]
        } else {
            light_sampling::unit_z()
        },
{
    if i < normals.len() {
        normals[i]
    } else {
        Vec3::new(Single::zero(), Single::zero(), Single::one())
    }
}

fn compile_mesh<
    P: Fn(Mat4, Vec3) -> Vec3,
    N: Fn(Mat4, Vec3) -> Vec3,
    F: Fn(Vec3, Vec3, Vec3) -> Vec3,
>(
    mesh: &SerializedMesh,
    object: u32,
    material: i32,
    place: &P,
    turn: &N,
    flat: &F,
    out: &mut Compilation,
)
    requires
        old(out).wf(),
        arithmetic::steady2(*place),
        arithmetic::steady2(*turn),
        arithmetic::steady3(*flat),
        old(out).all().len() + mesh.indices@.len() / 3 <= MAX_PRIMS,
    ensures
        final(out).wf(),
        final(out).all() == old(out).all() + mesh_part(
            *mesh,
            *place,
            *turn,
            *flat,
            object as int,
            material,
            old(out).all().len() as int,
            mesh.indices@.len() / 3,
        ),
        final(out).all().len() <= old(out).all().len() + mesh.indices@.len() / 3,
{
    let positions: Vec<Vec3> = place_positions(mesh, place);
    let normals: Vec<Vec3> = turn_normals(mesh, turn);
    let total: usize = mesh.indices.len();
    let n: usize = total / 3;
    let ghost before = out.all();
    let ghost first = before.len() as int;
    let mut t: usize = 0;
    proof {
        assert(before + Seq::<Compiled>::empty() =~= before);
    }
    while t < n
        invariant
            out.wf(),
            arithmetic::steady2(*place),
            arithmetic::steady2(*turn),
            arithmetic::steady3(*flat),
            first == before.len(),
            total == mesh.indices@.len(),
            n == total / 3,
            first + n <= MAX_PRIMS,
            t <= n,
            positions@.len() == mesh.positions@.len(),
            forall|i: int|
                0 <= i < positions@.len() ==> #[trigger] positions@[i] == placed(*mesh, *place, i),
            normals@.len() == mesh.normals@.len(),
            forall|i: int|
                0 <= i < normals@.len() ==> #[trigger] normals@[i] == turned(*mesh, *turn, i),
            out.all() == before + mesh_part(
                *mesh,
                *place,
                *turn,
                *flat,
                object as int,
                material,
                first,
                t as nat,
            ),
            out.all().len() <= first + t,
        decreases n - t,
    {
        let ghost so_far = mesh_part(
            *mesh,
            *place,
            *turn,
            *flat,
            object as int,
            material,
            first,
            t as nat,
        );
        let i0: usize = mesh.indices[3 * t] as usize;
        let i1: usize = mesh.indices[3 * t + 1] as usize;
        let i2: usize = mesh.indices[3 * t + 2] as usize;
        if i0 < positions.len() && i1 < positions.len() && i2 < positions.len() {
            let v0: Vec3 = positions[i0];
            let v1: Vec3 = positions[i1];
            let v2: Vec3 = positions[i2];
            let shading: TriangleShading = if normals.len() == 0 {
                let g: Vec3 = flat(v0, v1, v2);
                TriangleShading { n0: g, n1: g, n2: g }
            } else {
                TriangleShading {
                    n0: normal_or_up(&normals, i0),
                    n1: normal_or_up(&normals, i1),
                    n2: normal_or_up(&normals, i2),
                }
            };
            let prim_id: u32 = out.triangles.len() as u32;
            let triangle = ShadingTriangle { v0, v1, v2, prim_id, object_id: object };
            out.push(triangle, shading, material);
            proof {
                let next = Compiled { triangle, shading, material };
                assert(kept(*mesh, t as int));
                assert(next == compiled(
                    *mesh,
                    *place,
                    *turn,
                    *flat,
                    object as int,
                    material,
                    first + so_far.len(),
                    t as int,
                ));
                assert((before + so_far).push(next) =~= before + so_far.push(next));
            }
        }
        t = t + 1;
    }
}

fn find_index<L: Fn(String) -> Option<usize>>(
    mesh: &SerializedMesh,
    lookup: &L,
    count: usize,
) -> (r: i32)
    requires
        arithmetic::steady(*lookup),
        count <= i32::MAX,
        finds_below(*lookup, count as int),
    ensures
        r == material_index(*mesh, *lookup),
        -1 <= r < count,
        mesh.material_id is Some ==> lookup.ensures(
            (mesh.material_id->0,),
            arithmetic::applied(*lookup, mesh.material_id->0),
        ),
{
    match &mesh.material_id {
        Some(id) => match lookup(id.clone()) {
            Some(i) => {
                proof {
                    assert(arithmetic::applied(*lookup, *id) == Some(i));
                }
                i as i32
            },
            None => -1,
        },
        None => -1,
    }
}

proof fn part_is_short<
    P: Fn(Mat4, Vec3) -> Vec3,
    N: Fn(Mat4, Vec3) -> Vec3,
    F: Fn(Vec3, Vec3, Vec3) -> Vec3,
>(meshes: Seq<SerializedMesh>, materials: Seq<i32>, place: P, turn: N, flat: F)
    ensures
        scene_part(meshes, materials, place, turn, flat).len() <= scene::triangles_in(
            scene::mesh_views(meshes),
        ),
    decreases meshes.len(),
{
    if meshes.len() > 0 {
        part_is_short(meshes.drop_last(), materials, place, turn, flat);
        let before = scene_part(meshes.drop_last(), materials, place, turn, flat);
        mesh_part_is_short(
            meshes.last(),
            place,
            turn,
            flat,
            meshes.len() - 1,
            materials[meshes.len() - 1],
            before.len() as int,
            meshes.last().indices@.len() / 3,
        );
        let views = scene::mesh_views(meshes);
        assert(views.drop_last() =~= scene::mesh_views(meshes.drop_last()));
        assert(views.last() == meshes.last()@);
    }
}

proof fn mesh_part_is_short<
    P: Fn(Mat4, Vec3) -> Vec3,
    N: Fn(Mat4, Vec3) -> Vec3,
    F: Fn(Vec3, Vec3, Vec3) -> Vec3,
>(
    mesh: SerializedMesh,
    place: P,
    turn: N,
    flat: F,
    object: int,
    material: i32,
    first: int,
    n: nat,
)
    ensures
        mesh_part(mesh, place, turn, flat, object, material, first, n).len() <= n,
    decreases n,
{
    if n > 0 {
        mesh_part_is_short(mesh, place, turn, flat, object, material, first, (n - 1) as nat);
    }
}

fn convert_lights<D: Fn(Single, Single) -> Vec3, E: Fn(Single, Single) -> Vec3>(
    lights: &Vec<RenderLight>,
    sun_direction: &D,
    emission: &E,
) -> (r: Vec<NativeLight>)
    requires
        arithmetic::steady2(*sun_direction),
        arithmetic::steady2(*emission),
    ensures
        r@ == lights@.map_values(
            |l: RenderLight| light_sampling::native(l, *sun_direction, *emission),
        ),
{
    let mut out: Vec<NativeLight> = Vec::new();
    let mut i: usize = 0;
    while i < lights.len()
        invariant
            arithmetic::steady2(*sun_direction),
            arithmetic::steady2(*emission),
            i <= lights@.len(),
            out@.len() == i,
            forall|j: int|
                0 <= j < i ==> #[trigger] out@[j] == light_sampling::native(
                    lights@[j],
                    *sun_direction,
                    *emission,
                ),
        decreases lights@.len() - i,
    {
        out.push(NativeLight::from_render_light(&lights[i], sun_direction, emission));
        i = i + 1;
    }
    proof {
        assert(out@ =~= lights@.map_values(
            |l: RenderLight| light_sampling::native(l, *sun_direction, *emission),
        ));
    }
    out
}

/// A point under a transform: its first three coordinates, divided by the fourth
/// unless that is below 1e-12 either way. `product` is the transform times the point,
/// and `over` divides by a number.
pub fn transform_point<H: Fn(Mat4, Vec3) -> Vec4, Q: Fn(Vec3, Single) -> Vec3>(
    m: Mat4,
    p: Vec3,
    product: &H,
    over: &Q,
) -> (r: Vec3)
    requires
        arithmetic::steady2(*product),
        arithmetic::steady2(*over),
    ensures
        ({
            let v = arithmetic::applied2(*product, m, p);
            let xyz = Vec3 { x: v.x, y: v.y, z: v.z };
            r == if (Single { bits: v.w.magnitude() as u32 }).below(Single { bits: 0x2b8c_bccc }) {
                xyz
            } else {
                arithmetic::applied2(*over, xyz, v.w)
            }
        }),
        r == moved_point(*product, *over, m, p),
{
    let v: Vec4 = product(m, p);
    let xyz: Vec3 = Vec3::new(v.x, v.y, v.z);
    if v.w.abs().lt(Single::from_bits(0x2b8c_bccc)) {  // 1e-12
        xyz
    } else {
        over(xyz, v.w)
    }
}

/// The arithmetic that a scene is compiled with.
pub struct SceneArithmetic<P, N, F, M, B, C, D, E> {
    /// A position under the transform of its mesh.
    pub place: P,
    /// A normal under the transform of its mesh, of length 1.
    pub turn: N,
    /// The normal of a flat triangle.
    pub flat: F,
    /// The middle of a triangle.
    pub centroid_of: M,
    /// The bucket of a middle among the buckets of a box.
    pub bucket_of: B,
    /// What it costs to split a box.
    pub cost_of: C,
    /// The way from the sun at an azimuth and an elevation.
    pub sun_direction: D,
    /// The color of a temperature times an intensity.
    pub emission: E,
}

impl PathTraceScene {
    /// The shading data and materials go with the triangles, every triangle knows its
    /// place, and no triangle or material is missing.
    pub open spec fn wf(&self) -> bool {
        &&& self.bvh.wf()
        &&& self.shading_data@.len() == self.triangles@.len()
        &&& self.material_ids@.len() == self.triangles@.len()
        &&& forall|s: int|
            0 <= s < self.bvh.prim_indices@.len() ==> (#[trigger] self.bvh.prim_indices@[s])
                < self.triangles@.len()
        &&& forall|i: int|
            0 <= i < self.triangles@.len() ==> (#[trigger] self.triangles@[i]).prim_id == i
        &&& forall|i: int|
            0 <= i < self.material_ids@.len() ==> -1 <= #[trigger] self.material_ids@[i]
                && self.material_ids@[i] < self.materials@.len()
        &&& forall|i: int|
            0 <= i < self.lights@.len() ==> light_sampling::readable(#[trigger] self.lights@[i])
    }

    /// Compiles a scene. `material_lookup` gives the index of a material id among
    /// `materials`.
    pub fn from_render_scene<
        L: Fn(String) -> Option<usize>,
        P: Fn(Mat4, Vec3) -> Vec3,
        N: Fn(Mat4, Vec3) -> Vec3,
        F: Fn(Vec3, Vec3, Vec3) -> Vec3,
        M: Fn(BuilderTriangle) -> Vec3,
        B: Fn(Aabb, Vec3) -> usize,
        C: Fn(Aabb, SplitCandidate) -> Single,
        D: Fn(Single, Single) -> Vec3,
        E: Fn(Single, Single) -> Vec3,
    >(
        scene: &RenderScene,
        materials: Vec<PathTraceMaterial>,
        material_lookup: L,
        sky: SkyParams,
        numbers: SceneArithmetic<P, N, F, M, B, C, D, E>,
    ) -> (r: PathTraceScene)
        requires
            scene::triangles_in(scene@.meshes) <= MAX_PRIMS,
            scene.meshes@.len() <= u32::MAX,
            materials@.len() <= i32::MAX,
            arithmetic::steady(material_lookup),
            finds_below(material_lookup, materials@.len() as int),
            arithmetic::steady2(numbers.place),
            arithmetic::steady2(numbers.turn),
            arithmetic::steady3(numbers.flat),
            forall|t: BuilderTriangle| #[trigger] numbers.centroid_of.requires((t,)),
            forall|a: Aabb, v: Vec3| #[trigger] numbers.bucket_of.requires((a, v)),
            forall|a: Aabb, c: SplitCandidate| #[trigger] numbers.cost_of.requires((a, c)),
            arithmetic::steady2(numbers.sun_direction),
            arithmetic::steady2(numbers.emission),
        ensures
            r.wf(),
            zipped(r.triangles@, r.shading_data@, r.material_ids@) == scene_part(
                scene.meshes@,
                indices_by(scene.meshes@, material_lookup),
                numbers.place,
                numbers.turn,
                numbers.flat,
            ),
            looked_up(scene.meshes@, material_lookup),
            tree_over(
                r.bvh,
                builders(r.triangles@),
                numbers.centroid_of,
                numbers.bucket_of,
                numbers.cost_of,
            ),
            r.bvh.prim_indices@.to_multiset() == Seq::new(
                r.triangles@.len(),
                |i: int| i as u32,
            ).to_multiset(),
            r.materials == materials,
            r.lights@ == scene.lights@.map_values(
                |l: RenderLight|
                    light_sampling::native(l, numbers.sun_direction, numbers.emission),
            ),
            r.sky == sky,
    {
        let mut parts = Compilation {
            triangles: Vec::new(),
            shading: Vec::new(),
            material_ids: Vec::new(),
        };
        let count: usize = materials.len();
        let ghost materials_by = indices_by(scene.meshes@, material_lookup);
        let mut m: usize = 0;
        proof {
            assert(scene.meshes@.take(0) =~= Seq::empty());
            assert(parts.all() =~= Seq::empty());
        }
        while m < scene.meshes.len()
            invariant
                scene::triangles_in(scene@.meshes) <= MAX_PRIMS,
                scene.meshes@.len() <= u32::MAX,
                count == materials@.len(),
                count <= i32::MAX,
                arithmetic::steady(material_lookup),
                finds_below(material_lookup, count as int),
                arithmetic::steady2(numbers.place),
                arithmetic::steady2(numbers.turn),
                arithmetic::steady3(numbers.flat),
                m <= scene.meshes@.len(),
                parts.wf(),
                materials_by == indices_by(scene.meshes@, material_lookup),
                looked_up(scene.meshes@.take(m as int), material_lookup),
                parts.all() == scene_part(
                    scene.meshes@.take(m as int),
                    materials_by,
                    numbers.place,
                    numbers.turn,
                    numbers.flat,
                ),
                forall|i: int|
                    0 <= i < parts.all().len() ==> -1 <= (#[trigger] parts.all()[i]).material
                        && parts.all()[i].material < count && parts.all()[i].triangle.prim_id == i,
            decreases scene.meshes@.len() - m,
        {
            let mesh: &SerializedMesh = &scene.meshes[m];
            let material: i32 = find_index(mesh, &material_lookup, count);
            let ghost so_far = scene.meshes@.take(m as int);
            let ghost longer = scene.meshes@.take(m + 1);
            let ghost before = parts.all();
            proof {
                assert(longer.drop_last() =~= so_far);
                assert(longer.last() == *mesh);
                part_is_short(so_far, materials_by, numbers.place, numbers.turn, numbers.flat);
                assert(materials_by[m as int] == material);
                assert forall|i: int|
                    0 <= i < longer.len() && (#[trigger] longer[i]).material_id is Some implies
                    material_lookup.ensures(
                    (longer[i].material_id->0,),
                    arithmetic::applied(material_lookup, longer[i].material_id->0),
                ) by {
                    if i < m {
                        assert(longer[i] == so_far[i]);
                    }
                }
                let views = scene::mesh_views(longer);
                assert(views.drop_last() =~= scene::mesh_views(so_far));
                assert(views.last() == mesh@);
                assert(scene::mesh_views(longer) =~= scene@.meshes.take(m + 1));
                scene::triangles_grow(scene@.meshes, m + 1);
            }
            compile_mesh(
                mesh,
                m as u32,
                material,
                &numbers.place,
                &numbers.turn,
                &numbers.flat,
                &mut parts,
            );
            proof {
                let added = mesh_part(
                    *mesh,
                    numbers.place,
                    numbers.turn,
                    numbers.flat,
                    m as int,
                    material,
                    before.len() as int,
                    mesh.indices@.len() / 3,
                );
                mesh_part_numbers(
                    *mesh,
                    numbers.place,
                    numbers.turn,
                    numbers.flat,
                    m as int,
                    material,
                    before.len() as int,
                    mesh.indices@.len() / 3,
                );
                assert forall|i: int| 0 <= i < parts.all().len() implies -1 <= (
                #[trigger] parts.all()[i]).material && parts.all()[i].material < count
                    && parts.all()[i].triangle.prim_id == i by {
                    if i < before.len() {
                        assert(parts.all()[i] == before[i]);
                    } else {
                        assert(parts.all()[i] == added[i - before.len()]);
                    }
                }
            }
            m = m + 1;
        }
        proof {
            assert(scene.meshes@.take(m as int) =~= scene.meshes@);
            part_is_short(
                scene.meshes@,
                materials_by,
                numbers.place,
                numbers.turn,
                numbers.flat,
            );
            assert(scene::mesh_views(scene.meshes@) == scene@.meshes);
        }
        let tree_triangles: Vec<BuilderTriangle> = builder_triangles(&parts.triangles);
        let bvh: Bvh = Bvh::build(
            &tree_triangles,
            numbers.centroid_of,
            numbers.bucket_of,
            numbers.cost_of,
        );
        let lights: Vec<NativeLight> = convert_lights(
            &scene.lights,
            &numbers.sun_direction,
            &numbers.emission,
        );
        proof {
            let all = Seq::new(parts.triangles@.len(), |i: int| i as u32);
            assert forall|s: int| 0 <= s < bvh.prim_indices@.len() implies (
            #[trigger] bvh.prim_indices@[s]) < parts.triangles@.len() by {
                broadcast use vstd::seq_lib::group_to_multiset_ensures;

                assert(bvh.prim_indices@.contains(bvh.prim_indices@[s]));
                assert(bvh.prim_indices@.to_multiset().count(bvh.prim_indices@[s]) > 0);
                assert(all.contains(bvh.prim_indices@[s]));
            }
            assert forall|i: int| 0 <= i < parts.triangles@.len() implies (
            #[trigger] parts.triangles@[i]).prim_id == i by {
                assert(parts.all()[i].triangle == parts.triangles@[i]);
            }
            assert forall|i: int| 0 <= i < parts.material_ids@.len() implies -1
                <= #[trigger] parts.material_ids@[i] && parts.material_ids@[i]
                < materials@.len() by {
                assert(parts.all()[i].material == parts.material_ids@[i]);
            }
        }
        PathTraceScene {
            bvh,
            triangles: parts.triangles,
            shading_data: parts.shading,
            materials,
            material_ids: parts.material_ids,
            lights,
            sky,
        }
    }

    /// The material of a triangle; grey for one without.
    pub fn material_for(&self, prim_id: u32) -> (r: PathTraceMaterial)
        requires
            self.wf(),
        ensures
            r == if prim_id < self.material_ids@.len() && self.material_ids@[prim_id as int] >= 0 {
                self.materials@[self.material_ids@[prim_id as int] as int]
            } else {
                material::grey()
            },
    {
        let at: usize = prim_id as usize;
        if at < self.material_ids.len() {
            let index: i32 = self.material_ids[at];
            if index >= 0 {
                return self.materials[index as usize];
            }
        }
        PathTraceMaterial::default_grey()
    }
}

fn builder_triangles(triangles: &Vec<ShadingTriangle>) -> (r: Vec<BuilderTriangle>)
    ensures
        r@ == builders(triangles@),
{
    let mut out: Vec<BuilderTriangle> = Vec::new();
    let mut i: usize = 0;
    while i < triangles.len()
        invariant
            i <= triangles@.len(),
            out@.len() == i,
            forall|j: int| 0 <= j < i ==> #[trigger] out@[j] == builders(triangles@)[j],
        decreases triangles@.len() - i,
    {
        let t: ShadingTriangle = triangles[i];
        out.push(BuilderTriangle { v0: t.v0, v1: t.v1, v2: t.v2, prim_id: t.prim_id });
        i = i + 1;
    }
    proof {
        assert(out@ =~= builders(triangles@));
    }
    out
}

/// The triangles of a mesh are numbered on from those before, and share its
/// material.
proof fn mesh_part_numbers<
    P: Fn(Mat4, Vec3) -> Vec3,
    N: Fn(Mat4, Vec3) -> Vec3,
    F: Fn(Vec3, Vec3, Vec3) -> Vec3,
>(
    mesh: SerializedMesh,
    place: P,
    turn: N,
    flat: F,
    object: int,
    material: i32,
    first: int,
    n: nat,
)
    requires
        0 <= first,
        first + n <= MAX_PRIMS,
    ensures
        ({
            let part = mesh_part(mesh, place, turn, flat, object, material, first, n);
            forall|i: int|
                0 <= i < part.len() ==> (#[trigger] part[i]).material == material
                    && part[i].triangle.prim_id == first + i
        }),
    decreases n,
{
    if n > 0 {
        mesh_part_numbers(mesh, place, turn, flat, object, material, first, (n - 1) as nat);
        mesh_part_is_short(mesh, place, turn, flat, object, material, first, (n - 1) as nat);
    }
}

/// How a pixel looks into the scene.
#[derive(Clone, Copy, Debug, PartialEq, Eq, Structural)]
pub enum CameraProjection {
    Perspective,
    /// All around: pixels from left to right span longitude, from top to bottom
    /// latitude.
    Equirectangular,
}

impl Default for CameraProjection {
    fn default() -> (r: CameraProjection)
        ensures
            r == CameraProjection::Perspective,
    {
        CameraProjection::Perspective
    }
}

#[derive(Clone, Copy, Debug, PartialEq, Eq, Structural)]
pub struct PathTraceConfig {
    pub width: u32,
    pub height: u32,
    pub samples_per_pixel: u32,
    pub max_bounces: u32,
    pub tile_size: u32,
    pub russian_roulette_min_bounces: u32,
    /// Noise at which a tile counts as done; 0 never.
    pub adaptive_threshold: Single,
    pub projection: CameraProjection,
}

impl PathTraceConfig {
    pub fn preview() -> (r: PathTraceConfig)
        ensures
            r == (PathTraceConfig {
                width: 640,
                height: 480,
                samples_per_pixel: 16,
                max_bounces: 4,
                tile_size: 64,
                russian_roulette_min_bounces: 3,
                adaptive_threshold: Single { bits: 0 },
                projection: CameraProjection::Perspective,
            }),
    {
        PathTraceConfig {
            width: 640,
            height: 480,
            samples_per_pixel: 16,
            max_bounces: 4,
            tile_size: 64,
            russian_roulette_min_bounces: 3,
            adaptive_threshold: Single::zero(),
            projection: CameraProjection::Perspective,
        }
    }

    pub fn final_quality() -> (r: PathTraceConfig)
        ensures
            r == (PathTraceConfig {
                width: 1920,
                height: 1080,
                samples_per_pixel: 256,
                max_bounces: 8,
                tile_size: 64,
                russian_roulette_min_bounces: 3,
                adaptive_threshold: Single { bits: 0x3c23_d70a },  // 0.01
                projection: CameraProjection::Perspective,
            }),
    {
        PathTraceConfig {
            width: 1920,
            height: 1080,
            samples_per_pixel: 256,
            max_bounces: 8,
            tile_size: 64,
            russian_roulette_min_bounces: 3,
            adaptive_threshold: Single::from_bits(0x3c23_d70a),  // 0.01
            projection: CameraProjection::Perspective,
        }
    }

    /// All around, twice as wide as high.
    pub fn panorama() -> (r: PathTraceConfig)
        ensures
            r == (PathTraceConfig {
                width: 4096,
                height: 2048,
                samples_per_pixel: 512,
                max_bounces: 8,
                tile_size: 128,
                russian_roulette_min_bounces: 3,
                adaptive_threshold: Single { bits: 0x3c23_d70a },  // 0.01
                projection: CameraProjection::Equirectangular,
            }),
    {
        PathTraceConfig {
            width: 4096,
            height: 2048,
            samples_per_pixel: 512,
            max_bounces: 8,
            tile_size: 128,
            russian_roulette_min_bounces: 3,
            adaptive_threshold: Single::from_bits(0x3c23_d70a),  // 0.01
            projection: CameraProjection::Equirectangular,
        }
    }
}

// ---- one path ----------------------------------------------------------

/// Where a path stands between two bounces.
#[derive(Clone, Copy, Debug, PartialEq, Eq, Structural)]
pub struct PathState {
    /// Bounces so far.
    pub bounce: u32,
    /// Whether the last bounce was a mirror's, or there was none yet. What the path
    /// then meets has not been counted by next-event estimation.
    pub last_was_specular: bool,
}

/// What a ray met.
#[derive(Clone, Copy, Debug, PartialEq, Eq, Structural)]
pub enum RayEvent {
    Surface,
    Nothing,
}

/// What a path takes in after a ray.
#[derive(Clone, Copy, Debug, PartialEq, Eq, Structural)]
pub struct Intake {
    /// The light of the surroundings.
    pub environment: bool,
    /// The lights that the ray runs into.
    pub visible_lights: bool,
    /// The light that the surface gives off.
    pub emission: bool,
    /// The light that lamps throw on the surface.
    pub direct_light: bool,
    /// Whether the path ends here.
    pub ends: bool,
}

/// What becomes of a path after a bounce.
#[derive(Clone, Copy, Debug, PartialEq, Eq, Structural)]
pub enum Bounce {
    /// The surface swallowed the light.
    Absorbed,
    /// The path goes on, after a round of roulette where `roulette` says so.
    Onward { next: PathState, roulette: bool },
}

impl PathState {
    /// A path at the camera.
    pub fn start() -> (r: PathState)
        ensures
            r == (PathState { bounce: 0, last_was_specular: true }),
    {
        PathState { bounce: 0, last_was_specular: true }
    }

    /// Whether the path may send another ray.
    pub fn may_go_on(&self, config: &PathTraceConfig) -> (r: bool)
        ensures
            r == (self.bounce < config.max_bounces),
    {
        self.bounce < config.max_bounces
    }

    /// What a path takes in after a ray.
    pub open spec fn intake_of(self, event: RayEvent) -> Intake {
        match event {
            RayEvent::Nothing => Intake {
                environment: true,
                visible_lights: self.last_was_specular,
                emission: false,
                direct_light: false,
                ends: true,
            },
            RayEvent::Surface => Intake {
                environment: false,
                visible_lights: false,
                emission: self.last_was_specular,
                direct_light: true,
                ends: false,
            },
        }
    }

    /// What the path takes in after a ray. Light that next-event estimation counts is
    /// not counted again.
    pub fn intake(&self, event: RayEvent) -> (r: Intake)
        ensures
            r == self.intake_of(event),
    {
        match event {
            RayEvent::Nothing => Intake {
                environment: true,
                visible_lights: self.last_was_specular,
                emission: false,
                direct_light: false,
                ends: true,
            },
            RayEvent::Surface => Intake {
                environment: false,
                visible_lights: false,
                emission: self.last_was_specular,
                direct_light: true,
                ends: false,
            },
        }
    }

    /// What becomes of a path after a bounce.
    pub open spec fn bounced(self, sample: Option<BsdfSample>, min_bounces: u32) -> Bounce {
        match sample {
            None => Bounce::Absorbed,
            Some(s) => Bounce::Onward {
                next: PathState {
                    bounce: (self.bounce + 1) as u32,
                    last_was_specular: s.is_specular,
                },
                roulette: self.bounce >= min_bounces,
            },
        }
    }

    /// What becomes of the path after a bounce.
    pub fn after_bounce(&self, sample: &Option<BsdfSample>, config: &PathTraceConfig) -> (r: Bounce)
        requires
            self.bounce < config.max_bounces,
        ensures
            r == self.bounced(*sample, config.russian_roulette_min_bounces),
    {
        match sample {
            None => Bounce::Absorbed,
            Some(s) => Bounce::Onward {
                next: PathState { bounce: self.bounce + 1, last_was_specular: s.is_specular },
                roulette: self.bounce >= config.russian_roulette_min_bounces,
            },
        }
    }
}

/// The chance that a path of a strength lives on: its strength, held to 0.05 to
/// 0.95.
pub open spec fn survival(strength: Single) -> Single {
    strength.clamped(Single { bits: 0x3d4c_cccd }, Single { bits: 0x3f73_3333 })  // 0.05, 0.95
}

/// A round of roulette: the chance that the path had, where it lives on.
pub fn roulette(strength: Single, draw: Single) -> (r: Option<Single>)
    ensures
        r == if survival(strength).below(draw) {
            None::<Single>
        } else {
            Some(survival(strength))
        },
{
    let chance: Single = strength.clamp(
        Single::from_bits(0x3d4c_cccd),  // 0.05
        Single::from_bits(0x3f73_3333),  // 0.95
    );
    if chance.lt(draw) {
        None
    } else {
        Some(chance)
    }
}

/// Whether the light of a lamp counts: it comes from above the surface, on a way
/// that can be sampled.
pub fn lamp_counts(cos_at_surface: Single, pdf: Single) -> (r: bool)
    ensures
        r == (material::passes(cos_at_surface) && material::passes(pdf)),
{
    !(cos_at_surface.le(Single::zero()) || pdf.le(Single::zero()))
}

/// How far a shadow ray goes: to just before the lamp, but at least 0.001.
pub fn shadow_reach(just_before_lamp: Single) -> (r: Single)
    ensures
        r == just_before_lamp.greatest(Single { bits: 0x3a83_126f }),  // 0.001
{
    just_before_lamp.max(Single::from_bits(0x3a83_126f))  // 0.001
}

/// The weight of a lamp's light against light that scattering finds: 1 for lamps
/// that scattering cannot find.
pub fn lamp_weight(light: &NativeLight, heuristic: Single) -> (r: Single)
    ensures
        r == if light_sampling::delta(*light) {
            Single { bits: 0x3f80_0000 }
        } else {
            heuristic
        },
{
    if light_sampling::is_delta(light) {
        Single::one()
    } else {
        heuristic
    }
}

/// A direction, or another in place of one that has no length: whose square is
/// below 0.00000001.
pub fn or_when_short(v: Vec3, length_squared: Single, other: Vec3) -> (r: Vec3)
    ensures
        r == if length_squared.below(Single { bits: 0x322b_cc77 }) {  // 1e-08
            other
        } else {
            v
        },
{
    if length_squared.lt(Single::from_bits(0x322b_cc77)) {  // 1e-08
        other
    } else {
        v
    }
}

/// A direction at unit length, and the square of its length.
#[derive(Clone, Copy, Debug, PartialEq)]
pub struct Course {
    pub unit: Vec3,
    pub length_squared: Single,
}

/// Where a camera stands, and its directions.
#[derive(Clone, Copy, Debug, PartialEq, Eq, Structural)]
pub struct ViewFrame {
    pub origin: Vec3,
    pub right: Vec3,
    pub up: Vec3,
    pub forward: Vec3,
}

/// The arithmetic of a camera's directions.
pub struct ViewArithmetic<S, T, A, U> {
    /// A point in metres, from millimetres.
    pub metres: S,
    /// The way from one point to another.
    pub toward: T,
    /// The way across a direction and the vertical.
    pub across: A,
    /// The direction that stands on two others.
    pub above: U,
}

/// Ahead along z, where a camera looks that looks nowhere.
pub open spec fn ahead() -> Vec3 {
    Vec3 { x: Single { bits: 0 }, y: Single { bits: 0 }, z: Single { bits: 0xbf80_0000 } }
}

/// A direction, or another in place of one that has no length.
pub open spec fn unless_short(c: Course, other: Vec3) -> Vec3 {
    if c.length_squared.below(Single { bits: 0x322b_cc77 }) {  // 1e-08
        other
    } else {
        c.unit
    }
}

impl<
    S: Fn(Vec3) -> Vec3,
    T: Fn(Vec3, Vec3) -> Course,
    A: Fn(Vec3) -> Course,
    U: Fn(Vec3, Vec3) -> Vec3,
> ViewArithmetic<S, T, A, U> {
    /// Whether each part gives one result for one input.
    pub open spec fn is_steady(&self) -> bool {
        &&& arithmetic::steady(self.metres)
        &&& arithmetic::steady2(self.toward)
        &&& arithmetic::steady(self.across)
        &&& arithmetic::steady2(self.above)
    }

    /// Where a camera stands, and its directions: forward to its target, or ahead
    /// along z where the target is where it stands; right across that, or along x
    /// where it looks straight up or down; and up from the two.
    pub open spec fn view_of(&self, camera: RenderCamera) -> ViewFrame {
        let origin = arithmetic::applied(self.metres, camera.position_mm);
        let target = arithmetic::applied(self.metres, camera.target_mm);
        let forward = unless_short(arithmetic::applied2(self.toward, origin, target), ahead());
        let right = unless_short(
            arithmetic::applied(self.across, forward),
            light_sampling::unit_x(),
        );
        ViewFrame { origin, right, up: arithmetic::applied2(self.above, right, forward), forward }
    }
}

/// Where a camera stands, and its directions.
pub fn build_view<
    S: Fn(Vec3) -> Vec3,
    T: Fn(Vec3, Vec3) -> Course,
    A: Fn(Vec3) -> Course,
    U: Fn(Vec3, Vec3) -> Vec3,
>(camera: &RenderCamera, numbers: &ViewArithmetic<S, T, A, U>) -> (r: ViewFrame)
    requires
        numbers.is_steady(),
    ensures
        r == numbers.view_of(*camera),
{
    let zero: Single = Single::zero();
    let origin: Vec3 = (numbers.metres)(camera.position_mm);
    let target: Vec3 = (numbers.metres)(camera.target_mm);
    let way: Course = (numbers.toward)(origin, target);
    let forward: Vec3 = or_when_short(
        way.unit,
        way.length_squared,
        Vec3::new(zero, zero, Single::from_bits(0xbf80_0000)),
    );
    let side: Course = (numbers.across)(forward);
    let right: Vec3 = or_when_short(
        side.unit,
        side.length_squared,
        Vec3::new(Single::one(), zero, zero),
    );
    let up: Vec3 = (numbers.above)(right, forward);
    ViewFrame { origin, right, up, forward }
}

/// Half the height of what a camera sees at distance 1, of a focal length of 1 at
/// least.
pub open spec fn half_height_of<H: Fn(Single) -> Single>(focal_mm: Single, half: H) -> Single {
    arithmetic::applied(half, focal_mm.greatest(Single { bits: 0x3f80_0000 }))
}

/// Half the height of what a camera sees at distance 1. `half` is it for a focal
/// length.
pub fn focal_to_half_height<H: Fn(Single) -> Single>(focal_mm: Single, half: &H) -> (r: Single)
    requires
        arithmetic::steady(*half),
    ensures
        r == half_height_of(focal_mm, *half),
{
    half(focal_mm.max(Single::one()))
}

/// The numbers of a ray that may run into a light.
#[derive(Clone, Copy, Debug, PartialEq)]
pub struct Meeting {
    /// Cosine between the ray and the way to a sun.
    pub cos_angle: Single,
    /// Cosine of the angular radius of a sun.
    pub cos_cone: Single,
    /// Cosine between the ray and the normal of an area light.
    pub slant: Single,
    /// Distance along the ray to the plane of an area light.
    pub t: Single,
    /// Where the ray crosses that plane, from the middle of the light.
    pub u: Single,
    pub v: Single,
    /// Half the width and the height of an area light.
    pub half_width: Single,
    pub half_height: Single,
}

/// Whether a ray runs into a light: into the disk of a sun, or through the
/// rectangle of an area light within its reach. Point lights have no extent.
pub open spec fn runs_into(l: NativeLight, ray: Ray, m: Meeting) -> bool {
    match l {
        NativeLight::Sun { .. } => m.cos_cone.at_most(m.cos_angle),
        NativeLight::Area { .. } => {
            &&& !(Single { bits: m.slant.magnitude() as u32 }).below(Single { bits: 0x3586_37bd })
            &&& !m.t.below(ray.t_min)
            &&& !ray.t_max.below(m.t)
            &&& (Single { bits: m.u.magnitude() as u32 }).at_most(m.half_width)
            &&& (Single { bits: m.v.magnitude() as u32 }).at_most(m.half_height)
        },
        _ => false,
    }
}

/// The light that a ray takes in from a light, where it runs into it.
pub open spec fn met(l: NativeLight, ray: Ray, m: Meeting) -> Option<Vec3> {
    if !runs_into(l, ray, m) {
        None
    } else {
        match l {
            NativeLight::Sun { radiance, .. } => Some(radiance),
            NativeLight::Area { radiance, .. } => Some(radiance),
            _ => None,
        }
    }
}

/// The light that a ray takes in from a light, where it runs into it.
pub fn direct_visible_light(light: &NativeLight, ray: &Ray, meeting: Meeting) -> (r: Option<Vec3>)
    ensures
        r == met(*light, *ray, meeting),
{
    match light {
        NativeLight::Sun { radiance, .. } => if meeting.cos_cone.le(meeting.cos_angle) {
            Some(*radiance)
        } else {
            None
        },
        NativeLight::Area { radiance, .. } => {
            if meeting.slant.abs().lt(Single::from_bits(0x3586_37bd)) {  // 1e-06
                return None;
            }
            if meeting.t.lt(ray.t_min) || ray.t_max.lt(meeting.t) {
                return None;
            }
            if meeting.u.abs().le(meeting.half_width) && meeting.v.abs().le(meeting.half_height) {
                Some(*radiance)
            } else {
                None
            }
        },
        _ => None,
    }
}

/// Light that a surface gives off is taken in once: at the camera's ray or behind a
/// mirror, where no lamp was sampled.
pub proof fn emission_is_not_counted_twice(s: PathState)
    ensures
        s.intake_of(RayEvent::Surface).emission == s.last_was_specular,
        s.intake_of(RayEvent::Nothing).visible_lights == s.last_was_specular,
        !(s.intake_of(RayEvent::Nothing).direct_light),
{
}

/// Every bounce takes a path one step nearer to its end, and roulette is not played
/// before the set number of bounces.
pub proof fn paths_come_to_an_end(s: PathState, sample: Option<BsdfSample>, config: PathTraceConfig)
    requires
        s.bounce < config.max_bounces,
    ensures
        s.bounced(sample, config.russian_roulette_min_bounces) matches Bounce::Onward {
            next,
            roulette,
        } ==> config.max_bounces - next.bounce < config.max_bounces - s.bounce && (roulette
            ==> s.bounce >= config.russian_roulette_min_bounces),
{
}

// ---- what becomes of meshes --------------------------------------------

/// The triangles of a mesh whose corners are all positions of it, in the mesh's order.
pub open spec fn whole_triangles(mesh: SerializedMesh, n: nat) -> Seq<int> {
    Seq::new(n, |t: int| t).filter(
        |t: int|
            forall|c: int|
                0 <= c < 3 ==> (#[trigger] mesh.indices@[3 * t + c]) < mesh.positions@.len(),
    )
}

/// The triangles of a mesh come into a scene in the mesh's order, those left out that lack
/// a corner: each with its three positions under the mesh's transform, in its own order of
/// corners, numbered on from what stands before. Each corner has its own normal under the
/// transform; one without, that along z; a mesh without normals, that of its flat triangle.
pub proof fn meshes_keep_their_triangles<
    P: Fn(Mat4, Vec3) -> Vec3,
    N: Fn(Mat4, Vec3) -> Vec3,
    F: Fn(Vec3, Vec3, Vec3) -> Vec3,
>(
    mesh: SerializedMesh,
    place: P,
    turn: N,
    flat: F,
    object: int,
    material: i32,
    first: int,
    n: nat,
)
    ensures
        ({
            let part = mesh_part(mesh, place, turn, flat, object, material, first, n);
            let whole = whole_triangles(mesh, n);
            &&& part.len() == whole.len()
            &&& forall|i: int|
                0 <= i < part.len() ==> {
                    let t = whole[i];
                    let c = #[trigger] part[i];
                    let i0 = mesh.indices@[3 * t + 0] as int;
                    let i1 = mesh.indices@[3 * t + 1] as int;
                    let i2 = mesh.indices@[3 * t + 2] as int;
                    let level = Vec3 {
                        x: Single { bits: 0 },
                        y: Single { bits: 0 },
                        z: Single { bits: 0x3f80_0000 },
                    };
                    let g = arithmetic::applied3(
                        flat,
                        c.triangle.v0,
                        c.triangle.v1,
                        c.triangle.v2,
                    );
                    &&& c.triangle.v0 == arithmetic::applied2(
                        place,
                        mesh.transform,
                        mesh.positions@[i0],
                    )
                    &&& c.triangle.v1 == arithmetic::applied2(
                        place,
                        mesh.transform,
                        mesh.positions@[i1],
                    )
                    &&& c.triangle.v2 == arithmetic::applied2(
                        place,
                        mesh.transform,
                        mesh.positions@[i2],
                    )
                    &&& c.triangle.prim_id == (first + i) as u32
                    &&& c.triangle.object_id == object as u32
                    &&& c.material == material
                    &&& mesh.normals@.len() == 0 ==> c.shading.n0 == g && c.shading.n1 == g
                        && c.shading.n2 == g
                    &&& mesh.normals@.len() > 0 ==> {
                        &&& c.shading.n0 == if i0 < mesh.normals@.len() {
                            arithmetic::applied2(turn, mesh.transform, mesh.normals@[i0])
                        } else {
                            level
                        }
                        &&& c.shading.n1 == if i1 < mesh.normals@.len() {
                            arithmetic::applied2(turn, mesh.transform, mesh.normals@[i1])
                        } else {
                            level
                        }
                        &&& c.shading.n2 == if i2 < mesh.normals@.len() {
                            arithmetic::applied2(turn, mesh.transform, mesh.normals@[i2])
                        } else {
                            level
                        }
                    }
                }
        }),
    decreases n,
{
    let keeps = |t: int|
        forall|c: int|
            0 <= c < 3 ==> (#[trigger] mesh.indices@[3 * t + c]) < mesh.positions@.len();
    let all = Seq::new(n, |t: int| t);
    reveal(Seq::filter);
    if n > 0 {
        meshes_keep_their_triangles(
            mesh,
            place,
            turn,
            flat,
            object,
            material,
            first,
            (n - 1) as nat,
        );
        let fewer = Seq::new((n - 1) as nat, |t: int| t);
        assert(all.drop_last() =~= fewer);
        assert(all.last() == n - 1);
        if kept(mesh, n - 1) {
            assert(keeps(n - 1));
        } else {
            assert(!keeps(n - 1)) by {
                if keeps(n - 1) {
                    assert(mesh.indices@[3 * (n - 1) + 0] < mesh.positions@.len());
                    assert(mesh.indices@[3 * (n - 1) + 1] < mesh.positions@.len());
                    assert(mesh.indices@[3 * (n - 1) + 2] < mesh.positions@.len());
                }
            }
        }
    }
}

/// The meshes of a scene bring their triangles one mesh after the other: between one start
/// and the next stand those of one mesh, under the mesh's own number and in its own
/// material, and nothing else.
pub proof fn meshes_come_one_after_the_other<
    P: Fn(Mat4, Vec3) -> Vec3,
    N: Fn(Mat4, Vec3) -> Vec3,
    F: Fn(Vec3, Vec3, Vec3) -> Vec3,
>(meshes: Seq<SerializedMesh>, materials: Seq<i32>, place: P, turn: N, flat: F)
    ensures
        exists|starts: Seq<int>| #[trigger]
            starts_hold(meshes, materials, place, turn, flat, starts),
    decreases meshes.len(),
{
    if meshes.len() == 0 {
        let starts = seq![0int];
        assert(starts_hold(meshes, materials, place, turn, flat, starts));
    } else {
        let fewer = meshes.drop_last();
        meshes_come_one_after_the_other(fewer, materials, place, turn, flat);
        let before = choose|starts: Seq<int>| #[trigger]
            starts_hold(fewer, materials, place, turn, flat, starts);
        let all = scene_part(meshes, materials, place, turn, flat);
        let some = scene_part(fewer, materials, place, turn, flat);
        let starts = before.push(all.len() as int);
        assert forall|m: int| 0 <= m < meshes.len() implies {
            let part = mesh_part(
                meshes[m],
                place,
                turn,
                flat,
                m,
                materials[m],
                starts[m],
                meshes[m].indices@.len() / 3,
            );
            &&& 0 <= #[trigger] starts[m] <= all.len()
            &&& starts[m] + part.len() == starts[m + 1] <= all.len()
            &&& all.subrange(starts[m], starts[m + 1]) == part
        } by {
            let part = mesh_part(
                meshes[m],
                place,
                turn,
                flat,
                m,
                materials[m],
                starts[m],
                meshes[m].indices@.len() / 3,
            );
            if m < fewer.len() {
                assert(before[m] == starts[m] && before[m + 1] == starts[m + 1]);
                assert(meshes[m] == fewer[m]);
                assert(all.subrange(starts[m], starts[m + 1]) =~= some.subrange(
                    before[m],
                    before[m + 1],
                ));
            } else {
                assert(starts[m] == some.len());
                assert(meshes[m] == meshes.last());
                assert(all.subrange(starts[m], starts[m + 1]) =~= part);
            }
        }
        assert(starts_hold(meshes, materials, place, turn, flat, starts));
    }
}

/// Whether the triangles of each mesh stand between two starts, the first of all at 0 and
/// the last start behind all.
pub open spec fn starts_hold<
    P: Fn(Mat4, Vec3) -> Vec3,
    N: Fn(Mat4, Vec3) -> Vec3,
    F: Fn(Vec3, Vec3, Vec3) -> Vec3,
>(
    meshes: Seq<SerializedMesh>,
    materials: Seq<i32>,
    place: P,
    turn: N,
    flat: F,
    starts: Seq<int>,
) -> bool {
    let all = scene_part(meshes, materials, place, turn, flat);
    &&& starts.len() == meshes.len() + 1
    &&& starts[0] == 0
    &&& starts[meshes.len() as int] == all.len()
    &&& forall|m: int|
        0 <= m < meshes.len() ==> {
            let part = mesh_part(
                meshes[m],
                place,
                turn,
                flat,
                m,
                materials[m],
                starts[m],
                meshes[m].indices@.len() / 3,
            );
            &&& 0 <= #[trigger] starts[m] <= all.len()
            &&& starts[m] + part.len() == starts[m + 1] <= all.len()
            &&& all.subrange(starts[m], starts[m + 1]) == part
        }
}

/// A mesh has the material that its id is found under; without an id, or where nothing is
/// found, none.
pub proof fn meshes_have_the_material_of_their_id<L: Fn(String) -> Option<usize>>(
    mesh: SerializedMesh,
    lookup: L,
)
    ensures
        mesh.material_id is None ==> material_index(mesh, lookup) == -1,
        mesh.material_id matches Some(id) ==> match arithmetic::applied(lookup, id) {
            Some(i) => i <= i32::MAX ==> material_index(mesh, lookup) == i,
            None => material_index(mesh, lookup) == -1,
        },
{
}

/// The tree is built over the triangles as they are: corner by corner, under their numbers.
pub proof fn trees_stand_on_the_triangles(triangles: Seq<ShadingTriangle>, i: int)
    requires
        0 <= i < triangles.len(),
    ensures
        builders(triangles).len() == triangles.len(),
        builders(triangles)[i].v0 == triangles[i].v0,
        builders(triangles)[i].v1 == triangles[i].v1,
        builders(triangles)[i].v2 == triangles[i].v2,
        builders(triangles)[i].prim_id == triangles[i].prim_id,
{
}

/// A path lives on by its strength, but never surely and never hardly at all: the chance
/// is its strength between 0.05 and 0.95, and the nearer of the two past them.
pub proof fn chances_lie_between_their_bounds(strength: Single)
    requires
        !strength.nan(),
    ensures
        ({
            let low = Single { bits: 0x3d4c_cccd };
            let high = Single { bits: 0x3f73_3333 };
            &&& low.at_most(survival(strength)) && survival(strength).at_most(high)
            &&& low.at_most(strength) && strength.at_most(high) ==> survival(strength) == strength
            &&& strength.below(low) ==> survival(strength) == low
            &&& high.below(strength) ==> survival(strength) == high
        }),
{
}

/// A ray takes in the radiance of a sun that it points into, and of an area light whose
/// rectangle it goes through within its reach, from either side but not along it. Points
/// and luminaires have no extent to run into.
pub proof fn rays_run_into_suns_and_rectangles(l: NativeLight, ray: Ray, m: Meeting)
    ensures
        match l {
            NativeLight::Sun { radiance, .. } => met(l, ray, m) == if m.cos_cone.at_most(
                m.cos_angle,
            ) {
                Some(radiance)
            } else {
                None
            },
            NativeLight::Area { radiance, .. } => {
                let across = Single { bits: m.u.magnitude() as u32 };
                let along = Single { bits: m.v.magnitude() as u32 };
                let slant = Single { bits: m.slant.magnitude() as u32 };
                &&& met(l, ray, m) is Some ==> met(l, ray, m) == Some(radiance)
                &&& (Single { bits: 0x3586_37bd }).at_most(slant) && ray.t_min.at_most(m.t)
                    && m.t.at_most(ray.t_max) && across.at_most(m.half_width) && along.at_most(
                    m.half_height,
                ) ==> met(l, ray, m) == Some(radiance)
                &&& slant.below(Single { bits: 0x3586_37bd }) || m.t.below(ray.t_min)
                    || ray.t_max.below(m.t) || m.half_width.below(across) || m.half_height.below(
                    along,
                ) ==> met(l, ray, m) is None
            },
            _ => met(l, ray, m) is None,
        },
{
}

impl<
    S: Fn(Vec3) -> Vec3,
    T: Fn(Vec3, Vec3) -> Course,
    A: Fn(Vec3) -> Course,
    U: Fn(Vec3, Vec3) -> Vec3,
> ViewArithmetic<S, T, A, U> {
    /// A camera stands at its position and looks from there to its target; one whose target
    /// is where it stands looks ahead along z. What is right of it lies across the way it
    /// looks, along x where that is straight up or down; up stands on the two.
    pub proof fn cameras_look_at_their_target(&self, camera: RenderCamera)
        ensures
            ({
                let v = self.view_of(camera);
                let there = arithmetic::applied(self.metres, camera.target_mm);
                let way = arithmetic::applied2(self.toward, v.origin, there);
                let side = arithmetic::applied(self.across, v.forward);
                let short = Single { bits: 0x322b_cc77 };  // 1e-08
                let zero = Single { bits: 0 };
                &&& v.origin == arithmetic::applied(self.metres, camera.position_mm)
                &&& short.at_most(way.length_squared) ==> v.forward == way.unit
                &&& way.length_squared.below(short) ==> v.forward.x == zero && v.forward.y == zero
                    && v.forward.z.bits == 0xbf80_0000
                &&& short.at_most(side.length_squared) ==> v.right == side.unit
                &&& side.length_squared.below(short) ==> v.right.x.bits == 0x3f80_0000
                    && v.right.y == zero && v.right.z == zero
                &&& v.up == arithmetic::applied2(self.above, v.right, v.forward)
            }),
    {
    }
}

/// A focal length counts as it is from 1 on, and as 1 below.
pub proof fn short_focal_lengths_count_as_one<H: Fn(Single) -> Single>(focal_mm: Single, half: H)
    ensures
        (Single { bits: 0x3f80_0000 }).at_most(focal_mm) ==> half_height_of(focal_mm, half)
            == arithmetic::applied(half, focal_mm),
        focal_mm.below(Single { bits: 0x3f80_0000 }) ==> half_height_of(focal_mm, half)
            == arithmetic::applied(half, Single { bits: 0x3f80_0000 }),
{
}

/// The state of a path after a bounce counts one bounce more and remembers whether that one
/// was mirror-like; without a sample the light was swallowed.
pub proof fn bounces_are_counted_and_remembered(s: PathState, b: BsdfSample, min_bounces: u32)
    requires
        s.bounce < u32::MAX,
    ensures
        s.bounced(None, min_bounces) == Bounce::Absorbed,
        s.bounced(Some(b), min_bounces) matches Bounce::Onward { next, roulette } && next.bounce
            == s.bounce + 1 && next.last_was_specular == b.is_specular && (roulette <==> s.bounce
            >= min_bounces),
        s.intake_of(RayEvent::Nothing).environment,
        s.intake_of(RayEvent::Nothing).ends,
        !s.intake_of(RayEvent::Nothing).emission,
        s.intake_of(RayEvent::Surface).direct_light,
        !s.intake_of(RayEvent::Surface).environment,
        !s.intake_of(RayEvent::Surface).visible_lights,
        !s.intake_of(RayEvent::Surface).ends,
{
}

/// A point under a transform.
pub open spec fn moved_point<H: Fn(Mat4, Vec3) -> Vec4, Q: Fn(Vec3, Single) -> Vec3>(
    product: H,
    over: Q,
    m: Mat4,
    p: Vec3,
) -> Vec3 {
    let v = arithmetic::applied2(product, m, p);
    let xyz = Vec3 { x: v.x, y: v.y, z: v.z };
    if (Single { bits: v.w.magnitude() as u32 }).below(Single { bits: 0x2b8c_bccc }) {
        xyz
    } else {
        arithmetic::applied2(over, xyz, v.w)
    }
}

/// The fourth coordinate of a moved point times any other of its coordinates is what the
/// transform gave for that one, where the division is exact. Where the fourth is 1e-12 or
/// less either way it does not count.
pub proof fn moved_points_are_divided_by_their_fourth<
    H: Fn(Mat4, Vec3) -> Vec4,
    Q: Fn(Vec3, Single) -> Vec3,
>(product: H, over: Q, m: Mat4, p: Vec3, value: spec_fn(Single) -> int)
    requires
        ({
            let v = arithmetic::applied2(product, m, p);
            let d = arithmetic::applied2(over, Vec3 { x: v.x, y: v.y, z: v.z }, v.w);
            &&& value(d.x) * value(v.w) == value(v.x)
            &&& value(d.y) * value(v.w) == value(v.y)
            &&& value(d.z) * value(v.w) == value(v.z)
        }),
    ensures
        ({
            let v = arithmetic::applied2(product, m, p);
            let r = moved_point(product, over, m, p);
            if v.w.magnitude() < 0x2b8c_bccc {
                r.x == v.x && r.y == v.y && r.z == v.z
            } else {
                value(r.x) * value(v.w) == value(v.x) && value(r.y) * value(v.w) == value(v.y)
                    && value(r.z) * value(v.w) == value(v.z)
            }
        }),
{
}

} // verus!
