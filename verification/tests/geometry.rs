//! Boxes, the bounding volume hierarchy, and rays through it.
use aec_render::bvh::{BuilderTriangle, Bvh, CostArithmetic, SplitCandidate};
use aec_render::geometry::{Aabb, Vec3};
use aec_render::intersect::{
    any_hit, closest_hit, ray_aabb_t, Intersection, Ray, ShadingTriangle, Slabs, TriangleTest,
};
use aec_render::single::Single;

fn num(x: f32) -> Single {
    Single::from_bits(x.to_bits())
}

fn val(x: Single) -> f32 {
    f32::from_bits(x.to_bits())
}

fn lib(v: glam::Vec3) -> Vec3 {
    Vec3::new(num(v.x), num(v.y), num(v.z))
}

fn gl(v: Vec3) -> glam::Vec3 {
    glam::Vec3::new(val(v.x), val(v.y), val(v.z))
}

fn at(x: f32, y: f32, z: f32) -> glam::Vec3 {
    glam::Vec3::new(x, y, z)
}

fn minus(a: Vec3, b: Vec3) -> Vec3 {
    lib(gl(a) - gl(b))
}

fn area(b: Aabb) -> Single {
    let e = gl(b.max) - gl(b.min);
    num(2.0 * e.x.mul_add(e.y, e.x.mul_add(e.z, e.y * e.z)))
}

fn box_of(min: glam::Vec3, max: glam::Vec3) -> Aabb {
    Aabb { min: lib(min), max: lib(max) }
}

fn centroid(t: BuilderTriangle) -> Vec3 {
    lib((gl(t.v0) + gl(t.v1) + gl(t.v2)) * (1.0 / 3.0))
}

fn middle(b: Aabb) -> Vec3 {
    lib((gl(b.min) + gl(b.max)) * 0.5)
}

fn bucket(bounds: Aabb, centroid: Vec3) -> usize {
    let axis = bounds.longest_axis(&minus);
    let low = gl(bounds.min)[axis];
    let extent = (gl(bounds.max)[axis] - low).max(1e-20);
    let t = (gl(centroid)[axis] - low) / extent;
    (t * 12.0) as usize
}

fn cost(total: Aabb, c: SplitCandidate) -> Single {
    let parent = val(total.surface_area(&area)).max(1e-20);
    let left = val(c.left.surface_area(&area)) * c.left_count as f32;
    let right = val(c.right.surface_area(&area)) * c.right_count as f32;
    num(1.0 + (left + right) / parent)
}

fn build(triangles: &Vec<BuilderTriangle>) -> Bvh {
    Bvh::build(triangles, centroid, bucket, cost)
}

fn safe_inverse(x: f32) -> f32 {
    if x.abs() < 1e-20 {
        if x >= 0.0 {
            1e20
        } else {
            -1e20
        }
    } else {
        1.0 / x
    }
}

fn slabs(ray: Ray, b: Aabb) -> Slabs {
    let d = gl(ray.dir);
    let inv = at(safe_inverse(d.x), safe_inverse(d.y), safe_inverse(d.z));
    let o = gl(ray.origin);
    Slabs { t0: lib((gl(b.min) - o) * inv), t1: lib((gl(b.max) - o) * inv) }
}

fn box_near(ray: Ray, b: Aabb) -> Option<Single> {
    ray_aabb_t(&ray, &b, &slabs).map(|stretch| stretch.0)
}

fn moeller_trumbore(t: ShadingTriangle, ray: Ray) -> TriangleTest {
    let edge1 = gl(t.v1) - gl(t.v0);
    let edge2 = gl(t.v2) - gl(t.v0);
    let d = gl(ray.dir);
    let h = d.cross(edge2);
    let a = edge1.dot(h);
    let f = 1.0 / a;
    let s = gl(ray.origin) - gl(t.v0);
    let u = f * s.dot(h);
    let q = s.cross(edge1);
    let v = f * d.dot(q);
    TriangleTest {
        a: num(a),
        u: num(u),
        v: num(v),
        u_plus_v: num(u + v),
        t: num(f * edge2.dot(q)),
    }
}

fn tri_hit(t: ShadingTriangle, ray: Ray) -> Option<Intersection> {
    t.intersect(&ray, &moeller_trumbore)
}

fn unit_triangle(prim_id: u32, origin: glam::Vec3) -> BuilderTriangle {
    BuilderTriangle {
        v0: lib(origin),
        v1: lib(origin + glam::Vec3::X),
        v2: lib(origin + glam::Vec3::Y),
        prim_id,
    }
}

// ---- boxes -------------------------------------------------------------

#[test]
fn aabb_surface_area_unit_cube_is_six() {
    let b = box_of(glam::Vec3::ZERO, glam::Vec3::ONE);
    assert!((val(b.surface_area(&area)) - 6.0).abs() < 1e-6);
}

#[test]
fn aabb_empty_surface_area_is_zero() {
    let b = Aabb::empty();
    assert_eq!(val(b.surface_area(&area)), 0.0);
}

#[test]
fn aabb_longest_axis_picks_largest_extent() {
    let b = box_of(glam::Vec3::ZERO, at(2.0, 5.0, 3.0));
    assert_eq!(b.longest_axis(&minus), 1);
    assert_eq!(box_of(glam::Vec3::ZERO, at(6.0, 5.0, 3.0)).longest_axis(&minus), 0);
    assert_eq!(box_of(glam::Vec3::ZERO, glam::Vec3::ONE).longest_axis(&minus), 2);
}

#[test]
fn aabb_transformed_translates_correctly() {
    let b = box_of(glam::Vec3::ZERO, glam::Vec3::ONE);
    let m = glam::Mat4::from_translation(at(10.0, 0.0, 0.0));
    let t = b.transformed(&|c: Vec3| lib(m.transform_point3(gl(c))));
    assert!((val(t.min.x) - 10.0).abs() < 1e-5);
    assert!((val(t.max.x) - 11.0).abs() < 1e-5);
    let none = Aabb::empty();
    assert_eq!(none.transformed(&|c: Vec3| c), none);
}

#[test]
fn aabb_turned_box_is_wrapped_anew() {
    let b = box_of(at(-1.0, -1.0, 0.0), at(1.0, 1.0, 0.0));
    let m = glam::Mat4::from_rotation_z(std::f32::consts::FRAC_PI_4);
    let t = b.transformed(&|c: Vec3| lib(m.transform_point3(gl(c))));
    assert!((val(t.max.x) - 2.0_f32.sqrt()).abs() < 1e-5);
}

#[test]
fn union_covers_both_boxes() {
    let a = box_of(at(0.0, 0.0, 0.0), at(1.0, 1.0, 1.0));
    let b = box_of(at(-1.0, 0.5, 2.0), at(0.5, 3.0, 4.0));
    let u = Aabb::union(&a, &b);
    assert_eq!(u, box_of(at(-1.0, 0.0, 0.0), at(1.0, 3.0, 4.0)));
    let mut merged = Aabb::empty();
    assert!(merged.is_empty());
    merged.merge(&a);
    merged.merge(&b);
    assert_eq!(merged, u);
    let points = vec![lib(at(0.0, 0.0, 0.0)), lib(at(1.0, -2.0, 3.0))];
    assert_eq!(Aabb::from_points(&points), box_of(at(0.0, -2.0, 0.0), at(1.0, 0.0, 3.0)));
}

// ---- the tree ----------------------------------------------------------

#[test]
fn bvh_empty_is_empty() {
    let bvh = build(&vec![]);
    assert!(bvh.nodes.is_empty());
    assert!(bvh.prim_indices.is_empty());
    assert!(bvh.root_bounds().is_empty());
}

#[test]
fn bvh_single_triangle_makes_leaf() {
    let bvh = build(&vec![unit_triangle(0, glam::Vec3::ZERO)]);
    assert_eq!(bvh.nodes.len(), 1);
    assert!(bvh.nodes[0].is_leaf());
    assert_eq!(bvh.nodes[0].prim_count, 1);
    assert_eq!(bvh.prim_indices, vec![0]);
}

#[test]
fn bvh_root_bounds_cover_all_triangles() {
    let tris: Vec<_> =
        (0..16).map(|i| unit_triangle(i, at(i as f32 * 10.0, 0.0, 0.0))).collect();
    let bvh = build(&tris);
    let b = bvh.root_bounds();
    assert!(val(b.min.x) <= 0.0 + 1e-5);
    assert!(val(b.max.x) >= 15.0 * 10.0 + 1.0 - 1e-5);
}

#[test]
fn bvh_prim_indices_permutation_is_complete() {
    let tris: Vec<_> = (0..32)
        .map(|i| {
            let f = i as f32;
            unit_triangle(i, at((f * 1.7).sin() * 5.0, (f * 0.9).cos() * 5.0, f))
        })
        .collect();
    let bvh = build(&tris);
    let mut sorted = bvh.prim_indices.clone();
    sorted.sort_unstable();
    let expected: Vec<u32> = (0..32).collect();
    assert_eq!(sorted, expected);
}

#[test]
fn bvh_internal_node_bounds_cover_children() {
    let tris: Vec<_> = (0..64)
        .map(|i| {
            unit_triangle(
                i,
                at((i % 8) as f32 * 5.0, ((i / 8) % 8) as f32 * 5.0, (i / 64) as f32 * 5.0),
            )
        })
        .collect();
    let bvh = build(&tris);
    for n in &bvh.nodes {
        if !n.is_leaf() {
            let l = &bvh.nodes[n.left_or_start as usize];
            let r = &bvh.nodes[n.left_or_start as usize + 1];
            let union = Aabb::union(&l.bounds, &r.bounds);
            let parent = n.bounds;
            assert!(val(parent.min.x) <= val(union.min.x) + 1e-4);
            assert!(val(parent.min.y) <= val(union.min.y) + 1e-4);
            assert!(val(parent.min.z) <= val(union.min.z) + 1e-4);
            assert!(val(parent.max.x) >= val(union.max.x) - 1e-4);
            assert!(val(parent.max.y) >= val(union.max.y) - 1e-4);
            assert!(val(parent.max.z) >= val(union.max.z) - 1e-4);
        }
    }
}

fn tree_cost(bvh: &Bvh) -> f32 {
    val(bvh.sah_cost(&CostArithmetic {
        area,
        add_leaf: |sum: Single, sa: Single, n: u32| num(val(sum) + val(sa) * n as f32),
        add_inner: |sum: Single, sa: Single| num(val(sum) + val(sa) * 1.5),
        over: |sum: Single, root: Single| num(val(sum) / val(root)),
    }))
}

#[test]
fn bvh_sah_cost_is_finite_and_positive() {
    let tris: Vec<_> = (0..128)
        .map(|i| {
            let f = i as f32;
            unit_triangle(i, at((f * 0.3).sin() * 10.0, (f * 0.5).cos() * 10.0, f * 0.1))
        })
        .collect();
    let bvh = build(&tris);
    let cost = tree_cost(&bvh);
    assert!(cost.is_finite());
    assert!(cost > 0.0);
    assert_eq!(tree_cost(&build(&vec![])), 0.0);
    // A single leaf of three primitives costs three.
    let three: Vec<_> = (0..3).map(|i| unit_triangle(i, at(i as f32, 0.0, i as f32))).collect();
    assert!((tree_cost(&build(&three)) - 3.0).abs() < 1e-5);
}

#[test]
fn bvh_two_well_separated_clusters_split_first() {
    let mut tris = Vec::new();
    for i in 0..8 {
        tris.push(unit_triangle(i, at(i as f32, 0.0, 0.0)));
    }
    for i in 0..8 {
        tris.push(unit_triangle(8 + i, at(1000.0 + i as f32, 0.0, 0.0)));
    }
    let bvh = build(&tris);
    assert!(!bvh.nodes[0].is_leaf());
    let l = &bvh.nodes[bvh.nodes[0].left_or_start as usize];
    let r = &bvh.nodes[bvh.nodes[0].left_or_start as usize + 1];
    assert!(
        val(l.bounds.max.x) < val(r.bounds.min.x) || val(r.bounds.max.x) < val(l.bounds.min.x)
    );
}

#[test]
fn bvh_from_aabbs_builds_tlas() {
    let items: Vec<_> = (0..16)
        .map(|i| {
            (i, box_of(at(i as f32 * 2.0, 0.0, 0.0), at(i as f32 * 2.0 + 1.0, 1.0, 1.0)))
        })
        .collect();
    let bvh = Bvh::build_from_aabbs(&items, middle, bucket, cost);
    assert!(!bvh.nodes.is_empty());
    let mut sorted = bvh.prim_indices.clone();
    sorted.sort_unstable();
    assert_eq!(sorted, (0..16u32).collect::<Vec<_>>());
}

#[test]
fn bvh_large_mesh_uses_parallel_path() {
    let tris: Vec<_> = (0..5000u32)
        .map(|i| {
            let f = i as f32;
            unit_triangle(i, at((f * 0.13).sin() * 100.0, (f * 0.27).cos() * 100.0, f * 0.05))
        })
        .collect();
    let bvh = build(&tris);
    assert_eq!(bvh.prim_indices.len(), 5000);
    assert!(bvh.leaf_count() > 0);
    assert_eq!(bvh.node_count(), 2 * bvh.leaf_count() - 1);
}

#[test]
fn bvh_up_to_four_primitives_make_one_leaf() {
    let tris: Vec<_> =
        (0..4).map(|i| unit_triangle(i, at(i as f32 * 100.0, 0.0, 0.0))).collect();
    assert_eq!(build(&tris).node_count(), 1);
}

// ---- rays --------------------------------------------------------------

fn build_bvh_and_triangles(
    tris: Vec<(glam::Vec3, glam::Vec3, glam::Vec3)>,
) -> (Bvh, Vec<ShadingTriangle>) {
    let builder: Vec<_> = tris
        .iter()
        .enumerate()
        .map(|(i, (a, b, c))| BuilderTriangle {
            v0: lib(*a),
            v1: lib(*b),
            v2: lib(*c),
            prim_id: i as u32,
        })
        .collect();
    let shading: Vec<_> = builder
        .iter()
        .map(|t| ShadingTriangle {
            v0: t.v0,
            v1: t.v1,
            v2: t.v2,
            prim_id: t.prim_id,
            object_id: 0,
        })
        .collect();
    (build(&builder), shading)
}

fn corner_triangle() -> ShadingTriangle {
    ShadingTriangle {
        v0: lib(at(0.0, 0.0, 0.0)),
        v1: lib(at(1.0, 0.0, 0.0)),
        v2: lib(at(0.0, 1.0, 0.0)),
        prim_id: 0,
        object_id: 0,
    }
}

fn ray(origin: glam::Vec3, dir: glam::Vec3) -> Ray {
    Ray::new(lib(origin), lib(dir))
}

#[test]
fn ray_triangle_basic_hit() {
    let r = ray(at(0.25, 0.25, 1.0), at(0.0, 0.0, -1.0));
    let h = corner_triangle().intersect(&r, &moeller_trumbore).expect("hit");
    assert!((val(h.t) - 1.0).abs() < 1e-5);
    assert!((val(h.u) - 0.25).abs() < 1e-5);
    assert!((val(h.v) - 0.25).abs() < 1e-5);
}

#[test]
fn ray_triangle_miss_outside_uv() {
    let r = ray(at(2.0, 2.0, 1.0), at(0.0, 0.0, -1.0));
    assert!(corner_triangle().intersect(&r, &moeller_trumbore).is_none());
}

#[test]
fn ray_triangle_miss_behind() {
    let r = ray(at(0.1, 0.1, -1.0), at(0.0, 0.0, -1.0));
    assert!(corner_triangle().intersect(&r, &moeller_trumbore).is_none());
}

#[test]
fn ray_triangle_parallel() {
    let r = ray(at(0.1, 0.1, 1.0), at(1.0, 0.0, 0.0));
    assert!(corner_triangle().intersect(&r, &moeller_trumbore).is_none());
}

#[test]
fn ray_aabb_inside_box_returns_hit() {
    let b = box_of(glam::Vec3::splat(-1.0), glam::Vec3::splat(1.0));
    let r = ray(glam::Vec3::ZERO, glam::Vec3::Z);
    let by_division = |r: Ray, b: Aabb| {
        let inv = glam::Vec3::ONE / gl(r.dir);
        Slabs {
            t0: lib((gl(b.min) - gl(r.origin)) * inv),
            t1: lib((gl(b.max) - gl(r.origin)) * inv),
        }
    };
    let hit = ray_aabb_t(&r, &b, &by_division).unwrap();
    assert!(val(hit.0) <= 1.0 && val(hit.1) >= 0.0);
}

#[test]
fn ray_aabb_axis_aligned_miss() {
    let b = box_of(at(10.0, 0.0, 0.0), at(11.0, 1.0, 1.0));
    let r = ray(glam::Vec3::ZERO, glam::Vec3::Y);
    assert!(ray_aabb_t(&r, &b, &slabs).is_none());
}

#[test]
fn bvh_traversal_finds_closest_hit() {
    let (bvh, tris) = build_bvh_and_triangles(vec![
        (at(-5.0, -5.0, 10.0), at(5.0, -5.0, 10.0), at(-5.0, 5.0, 10.0)),
        (at(-5.0, -5.0, 2.0), at(5.0, -5.0, 2.0), at(-5.0, 5.0, 2.0)),
    ]);
    let r = ray(glam::Vec3::ZERO, glam::Vec3::Z);
    let hit = closest_hit(&bvh, &tris, &r, box_near, tri_hit).expect("hit");
    assert!((val(hit.t) - 2.0).abs() < 1e-4, "got t={}", val(hit.t));
    assert_eq!(hit.prim_id, 1);
}

#[test]
fn bvh_traversal_misses_empty_space() {
    let (bvh, tris) = build_bvh_and_triangles(vec![(
        at(10.0, 10.0, 10.0),
        at(11.0, 10.0, 10.0),
        at(10.0, 11.0, 10.0),
    )]);
    let r = ray(glam::Vec3::ZERO, glam::Vec3::X);
    assert!(closest_hit(&bvh, &tris, &r, box_near, tri_hit).is_none());
}

#[test]
fn shadow_ray_finds_occlusion_early() {
    let (bvh, tris) =
        build_bvh_and_triangles(vec![(at(-1.0, -1.0, 5.0), at(1.0, -1.0, 5.0), at(0.0, 1.0, 5.0))]);
    let mut r = ray(glam::Vec3::ZERO, glam::Vec3::Z);
    r.t_max = num(10.0);
    assert!(any_hit(&bvh, &tris, &r, box_near, tri_hit));
}

#[test]
fn shadow_ray_no_occlusion_when_target_closer_than_geometry() {
    let (bvh, tris) =
        build_bvh_and_triangles(vec![(at(-1.0, -1.0, 5.0), at(1.0, -1.0, 5.0), at(0.0, 1.0, 5.0))]);
    let mut r = ray(glam::Vec3::ZERO, glam::Vec3::Z);
    r.t_max = num(3.0);
    assert!(!any_hit(&bvh, &tris, &r, box_near, tri_hit));
}

#[test]
fn shorter_rays_meet_what_they_reach() {
    let mut r = ray(at(0.25, 0.25, 1.0), at(0.0, 0.0, -1.0));
    let whole = corner_triangle().intersect(&r, &moeller_trumbore).expect("hit");
    r.t_max = num(1.5);
    assert_eq!(corner_triangle().intersect(&r, &moeller_trumbore), Some(whole));
    r.t_max = num(0.5);
    assert_eq!(corner_triangle().intersect(&r, &moeller_trumbore), None);
}

#[test]
fn any_hit_answers_as_closest_hit_along_the_ray() {
    let (bvh, tris) =
        build_bvh_and_triangles(vec![(at(-1.0, -1.0, 5.0), at(1.0, -1.0, 5.0), at(0.0, 1.0, 5.0))]);
    for (end, barred) in [(0.5, false), (4.9, false), (5.0, false), (5.1, true), (50.0, true)] {
        let mut r = ray(glam::Vec3::ZERO, glam::Vec3::Z);
        r.t_max = num(end);
        let closest = closest_hit(&bvh, &tris, &r, box_near, tri_hit);
        assert_eq!(any_hit(&bvh, &tris, &r, box_near, tri_hit), barred);
        assert_eq!(closest.is_some(), barred);
        assert!(closest.map_or(true, |hit| val(hit.t) < end));
    }
}

#[test]
fn barred_rays_have_a_closest_hit() {
    let (bvh, tris) =
        build_bvh_and_triangles(vec![(at(-1.0, -1.0, 5.0), at(1.0, -1.0, 5.0), at(0.0, 1.0, 5.0))]);
    for (end, barred) in [(10.0, true), (3.0, false)] {
        let mut r = ray(glam::Vec3::ZERO, glam::Vec3::Z);
        r.t_max = num(end);
        assert_eq!(any_hit(&bvh, &tris, &r, box_near, tri_hit), barred);
        assert_eq!(closest_hit(&bvh, &tris, &r, box_near, tri_hit).is_some(), barred);
    }
}

#[test]
fn bvh_traversal_finds_one_of_many() {
    let mut tris = Vec::new();
    for i in 0..10 {
        for j in 0..10 {
            let x = i as f32 * 2.0;
            let y = j as f32 * 2.0;
            tris.push((at(x, y, 5.0), at(x + 1.0, y, 5.0), at(x, y + 1.0, 5.0)));
        }
    }
    let (bvh, tris) = build_bvh_and_triangles(tris);
    let r = ray(at(6.25, 6.25, 0.0), glam::Vec3::Z);
    let hit = closest_hit(&bvh, &tris, &r, box_near, tri_hit).expect("hit");
    assert!((val(hit.t) - 5.0).abs() < 1e-3);
    assert_eq!(hit.prim_id, 33);
}

#[test]
fn walk_agrees_with_trying_every_triangle() {
    let mut corners = Vec::new();
    for i in 0..60 {
        let f = i as f32;
        let o = at((f * 0.7).sin() * 4.0, (f * 1.3).cos() * 4.0, 3.0 + (f * 0.37).sin());
        corners.push((o, o + glam::Vec3::X * 2.0, o + glam::Vec3::Y * 2.0));
    }
    let (bvh, tris) = build_bvh_and_triangles(corners);
    for k in 0..50 {
        let g = k as f32 * 0.05;
        let r = ray(at(g - 1.0, 1.0 - g, 0.0), at(0.1, 0.05, 1.0).normalize());
        let walked = closest_hit(&bvh, &tris, &r, box_near, tri_hit).map(|h| val(h.t));
        let tried = tris
            .iter()
            .filter_map(|t| tri_hit(*t, r))
            .map(|h| val(h.t))
            .fold(None, |best: Option<f32>, t| Some(best.map_or(t, |b| b.min(t))));
        assert_eq!(walked, tried);
        assert_eq!(any_hit(&bvh, &tris, &r, box_near, tri_hit), tried.is_some());
    }
}
