//! The program that traces pictures on a graphics adapter.
use vstd::prelude::*;

verus! {

/// The tracing program, in WGSL. It reads the tables that `gpu_trace` lays out at the
/// bindings 0 to 4 and writes the mean color and the number of samples of each pixel at
/// the binding 5.
pub const SHADER_SOURCE: &'static str = "
const PI: f32 = 3.14159265;
const FAR: f32 = 1.0e30;
const NEAR: f32 = 1.0e-4;
const STACK_SIZE: u32 = 64u;

struct BvhNode {
    lo: vec3<f32>,
    left_or_start: u32,
    hi: vec3<f32>,
    prim_count: u32,
}

struct Triangle {
    v0: vec3<f32>,
    pad0: u32,
    v1: vec3<f32>,
    pad1: u32,
    v2: vec3<f32>,
    material_id: i32,
}

struct Material {
    base_color: vec3<f32>,
    metallic: f32,
    emissive: vec3<f32>,
    roughness: f32,
    f0: vec3<f32>,
    ior: f32,
}

struct Light {
    kind: u32,
    pad0: u32,
    pad1: u32,
    pad2: u32,
    position: vec3<f32>,
    pad3: u32,
    params: vec4<f32>,
    extra: vec4<f32>,
    size: vec2<f32>,
    pad4: u32,
    pad5: u32,
    emission: vec3<f32>,
    pad6: u32,
}

struct Params {
    width: u32,
    height: u32,
    samples_per_pixel: u32,
    max_bounces: u32,
    tri_count: u32,
    bvh_count: u32,
    mat_count: u32,
    light_count: u32,
    camera_origin: vec3<f32>,
    focal_half_h: f32,
    camera_right: vec3<f32>,
    aspect: f32,
    camera_up: vec3<f32>,
    pad0: u32,
    camera_forward: vec3<f32>,
    seed: u32,
    sky_color: vec3<f32>,
    sky_strength: f32,
    projection: u32,
    pad1: u32,
    pad2: u32,
    pad3: u32,
}

@group(0) @binding(0) var<storage, read> bvh_nodes: array<BvhNode>;
@group(0) @binding(1) var<storage, read> triangles: array<Triangle>;
@group(0) @binding(2) var<storage, read> materials: array<Material>;
@group(0) @binding(3) var<storage, read> lights: array<Light>;
@group(0) @binding(4) var<uniform> params: Params;
@group(0) @binding(5) var<storage, read_write> accumulator: array<vec4<f32>>;

struct Hit {
    t: f32,
    index: i32,
}

struct LightSample {
    toward: vec3<f32>,
    distance: f32,
    radiance: vec3<f32>,
}

fn next_random(state: ptr<function, u32>) -> f32 {
    let old_state = *state;
    *state = old_state * 747796405u + 2891336453u;
    let word = ((old_state >> ((old_state >> 28u) + 4u)) ^ old_state) * 277803737u;
    let mixed = (word >> 22u) ^ word;
    return f32(mixed >> 8u) / 16777216.0;
}

fn box_entry(node: BvhNode, origin: vec3<f32>, inverse: vec3<f32>, reach: f32) -> f32 {
    let a = (node.lo - origin) * inverse;
    let b = (node.hi - origin) * inverse;
    let lower = min(a, b);
    let upper = max(a, b);
    let enter = max(max(lower.x, lower.y), max(lower.z, NEAR));
    let leave = min(min(upper.x, upper.y), min(upper.z, reach));
    if (enter <= leave) {
        return enter;
    }
    return -1.0;
}

fn triangle_distance(tri: Triangle, origin: vec3<f32>, dir: vec3<f32>, reach: f32) -> f32 {
    let e1 = tri.v1 - tri.v0;
    let e2 = tri.v2 - tri.v0;
    let p = cross(dir, e2);
    let det = dot(e1, p);
    if (abs(det) < 1.0e-8) {
        return -1.0;
    }
    let inv = 1.0 / det;
    let s = origin - tri.v0;
    let u = dot(s, p) * inv;
    if (u < 0.0 || u > 1.0) {
        return -1.0;
    }
    let q = cross(s, e1);
    let v = dot(dir, q) * inv;
    if (v < 0.0 || u + v > 1.0) {
        return -1.0;
    }
    let t = dot(e2, q) * inv;
    if (t > NEAR && t < reach) {
        return t;
    }
    return -1.0;
}

fn trace(origin: vec3<f32>, dir: vec3<f32>, limit: f32, any: bool) -> Hit {
    var hit: Hit;
    hit.t = limit;
    hit.index = -1;
    if (params.bvh_count == 0u) {
        return hit;
    }
    let inverse = vec3<f32>(1.0, 1.0, 1.0) / dir;
    var stack: array<u32, 64>;
    var depth: u32 = 0u;
    var at: u32 = 0u;
    if (box_entry(bvh_nodes[0], origin, inverse, hit.t) < 0.0) {
        return hit;
    }
    loop {
        let node = bvh_nodes[at];
        var descended = false;
        if (node.prim_count > 0u) {
            for (var i: u32 = 0u; i < node.prim_count; i = i + 1u) {
                let index = node.left_or_start + i;
                let t = triangle_distance(triangles[index], origin, dir, hit.t);
                if (t > 0.0) {
                    hit.t = t;
                    hit.index = i32(index);
                    if (any) {
                        return hit;
                    }
                }
            }
        } else {
            let left = node.left_or_start;
            let right = left + 1u;
            let l = box_entry(bvh_nodes[left], origin, inverse, hit.t);
            let r = box_entry(bvh_nodes[right], origin, inverse, hit.t);
            if (l >= 0.0 && r >= 0.0) {
                var first = left;
                var second = right;
                if (r < l) {
                    first = right;
                    second = left;
                }
                if (depth < STACK_SIZE) {
                    stack[depth] = second;
                    depth = depth + 1u;
                }
                at = first;
                descended = true;
            } else if (l >= 0.0) {
                at = left;
                descended = true;
            } else if (r >= 0.0) {
                at = right;
                descended = true;
            }
        }
        if (!descended) {
            if (depth == 0u) {
                break;
            }
            depth = depth - 1u;
            at = stack[depth];
        }
    }
    return hit;
}

fn visible_lights(origin: vec3<f32>, dir: vec3<f32>) -> vec3<f32> {
    var total = vec3<f32>(0.0, 0.0, 0.0);
    for (var i: u32 = 0u; i < params.light_count; i = i + 1u) {
        let light = lights[i];
        if (light.kind == 0u) {
            if (dot(dir, -light.position) >= cos(light.params.x)) {
                total = total + light.emission;
            }
        } else if (light.kind == 2u) {
            let normal = cross(light.params.xyz, light.extra.xyz);
            let denom = dot(normal, dir);
            if (abs(denom) >= 1.0e-6) {
                let t = dot(light.position - origin, normal) / denom;
                let local = origin + dir * t - light.position;
                let inside = abs(dot(local, light.params.xyz)) <= light.size.x * 0.5
                    && abs(dot(local, light.extra.xyz)) <= light.size.y * 0.5;
                if (t >= NEAR && inside) {
                    total = total + light.emission;
                }
            }
        }
    }
    return total;
}

fn sample_light(light: Light, at: vec3<f32>, state: ptr<function, u32>) -> LightSample {
    var s: LightSample;
    if (light.kind == 0u) {
        let to_sun = -light.position;
        let cap = 1.0 - cos(light.params.x);
        s.toward = around(to_sun, 1.0 - next_random(state) * cap, next_random(state));
        s.distance = FAR;
        s.radiance = light.emission * 2.0 * PI * cap;
    } else {
        var place = light.position;
        var scale = 1.0;
        if (light.kind == 2u) {
            let a = (next_random(state) - 0.5) * light.size.x;
            let b = (next_random(state) - 0.5) * light.size.y;
            place = place + light.params.xyz * a + light.extra.xyz * b;
            let normal = cross(light.params.xyz, light.extra.xyz);
            scale = abs(dot(normalize(at - place), normal)) * light.size.x * light.size.y;
        }
        let offset = place - at;
        let square = max(dot(offset, offset), 1.0e-6);
        s.distance = sqrt(square);
        s.toward = offset / s.distance;
        s.radiance = light.emission * scale / square;
    }
    return s;
}

fn around(axis: vec3<f32>, cos_angle: f32, turn: f32) -> vec3<f32> {
    var helper = vec3<f32>(1.0, 0.0, 0.0);
    if (abs(axis.x) > 0.9) {
        helper = vec3<f32>(0.0, 1.0, 0.0);
    }
    let tangent = normalize(cross(helper, axis));
    let bitangent = cross(axis, tangent);
    let sin_angle = sqrt(max(1.0 - cos_angle * cos_angle, 0.0));
    let phi = 2.0 * PI * turn;
    return normalize(
        tangent * (sin_angle * cos(phi)) + bitangent * (sin_angle * sin(phi)) + axis * cos_angle
    );
}

fn half_density(m: Material, n_h: f32) -> f32 {
    let alpha = max(m.roughness * m.roughness, 1.0e-3);
    let a2 = alpha * alpha;
    let d = n_h * n_h * (a2 - 1.0) + 1.0;
    return a2 / (PI * d * d);
}

fn scattered(m: Material, n: vec3<f32>, wo: vec3<f32>, wi: vec3<f32>) -> vec3<f32> {
    let n_l = dot(n, wi);
    let n_v = dot(n, wo);
    if (n_l <= 0.0 || n_v <= 0.0) {
        return vec3<f32>(0.0, 0.0, 0.0);
    }
    let h = normalize(wo + wi);
    let n_h = max(dot(n, h), 0.0);
    let v_h = max(dot(wo, h), 0.0);
    let fresnel = m.f0 + (vec3<f32>(1.0, 1.0, 1.0) - m.f0) * pow(1.0 - v_h, 5.0);
    let k = max(m.roughness * m.roughness, 1.0e-3) * 0.5;
    let shadow = 1.0 / ((n_l * (1.0 - k) + k) * (n_v * (1.0 - k) + k) * 4.0);
    let specular = fresnel * (half_density(m, n_h) * shadow);
    let albedo = m.base_color * ((1.0 - m.metallic) / PI);
    return albedo * (vec3<f32>(1.0, 1.0, 1.0) - fresnel) + specular;
}

fn density(m: Material, n: vec3<f32>, wo: vec3<f32>, wi: vec3<f32>) -> f32 {
    let h = normalize(wo + wi);
    let n_h = max(dot(n, h), 0.0);
    let v_h = max(dot(wo, h), 1.0e-4);
    let diffuse = max(dot(n, wi), 0.0) / PI;
    return 0.5 * diffuse + 0.5 * half_density(m, n_h) * n_h / (4.0 * v_h);
}

fn scatter(m: Material, n: vec3<f32>, wo: vec3<f32>, state: ptr<function, u32>) -> vec3<f32> {
    let choice = next_random(state);
    let a = next_random(state);
    let b = next_random(state);
    if (choice < 0.5) {
        return around(n, sqrt(1.0 - a), b);
    }
    let alpha = max(m.roughness * m.roughness, 1.0e-3);
    let cos_half = sqrt((1.0 - a) / (1.0 + (alpha * alpha - 1.0) * a));
    return reflect(-wo, around(n, cos_half, b));
}

fn material_of(tri: Triangle) -> Material {
    if (tri.material_id >= 0 && u32(tri.material_id) < params.mat_count) {
        return materials[tri.material_id];
    }
    var plain: Material;
    plain.base_color = vec3<f32>(0.6, 0.6, 0.6);
    plain.metallic = 0.0;
    plain.emissive = vec3<f32>(0.0, 0.0, 0.0);
    plain.roughness = 0.6;
    plain.f0 = vec3<f32>(0.033735942, 0.033735942, 0.033735942);
    plain.ior = 1.45;
    return plain;
}

fn primary_direction(px: f32, py: f32) -> vec3<f32> {
    let u = px / f32(max(params.width, 1u));
    let v = py / f32(max(params.height, 1u));
    if (params.projection == 1u) {
        let phi = (u - 0.5) * 2.0 * PI;
        let theta = v * PI;
        return normalize(
            params.camera_right * (sin(theta) * sin(phi)) + params.camera_up * cos(theta)
                + params.camera_forward * (sin(theta) * cos(phi))
        );
    }
    let half_h = params.focal_half_h;
    let x = (2.0 * u - 1.0) * half_h * params.aspect;
    let y = (1.0 - 2.0 * v) * half_h;
    return normalize(params.camera_right * x + params.camera_up * y + params.camera_forward);
}

fn radiance_along(start: vec3<f32>, first: vec3<f32>, state: ptr<function, u32>) -> vec3<f32> {
    var total = vec3<f32>(0.0, 0.0, 0.0);
    var weight = vec3<f32>(1.0, 1.0, 1.0);
    var origin = start;
    var dir = first;
    for (var bounce: u32 = 0u; bounce < params.max_bounces; bounce = bounce + 1u) {
        let hit = trace(origin, dir, FAR, false);
        if (hit.index < 0) {
            var escaped = params.sky_color * params.sky_strength;
            if (bounce == 0u) {
                escaped = escaped + visible_lights(origin, dir);
            }
            total = total + weight * escaped;
            break;
        }
        let tri = triangles[hit.index];
        let m = material_of(tri);
        total = total + weight * m.emissive;
        var n = normalize(cross(tri.v1 - tri.v0, tri.v2 - tri.v0));
        let wo = -dir;
        if (dot(n, wo) < 0.0) {
            n = -n;
        }
        let at = origin + dir * hit.t + n * NEAR;
        if (params.light_count > 0u) {
            let count = params.light_count;
            let pick = min(u32(next_random(state) * f32(count)), count - 1u);
            let s = sample_light(lights[pick], at, state);
            let facing = dot(n, s.toward);
            if (facing > 0.0) {
                let shadow = trace(at, s.toward, s.distance - NEAR, true);
                if (shadow.index < 0) {
                    let f = scattered(m, n, wo, s.toward);
                    total = total + weight * f * s.radiance * (facing * f32(count));
                }
            }
        }
        let wi = scatter(m, n, wo, state);
        let p = density(m, n, wo, wi);
        let n_l = dot(n, wi);
        if (n_l <= 0.0 || p <= 1.0e-8) {
            break;
        }
        weight = weight * scattered(m, n, wo, wi) * (n_l / p);
        if (bounce >= 3u) {
            let keep = clamp(max(weight.x, max(weight.y, weight.z)), 0.05, 1.0);
            if (next_random(state) > keep) {
                break;
            }
            weight = weight / keep;
        }
        origin = at;
        dir = wi;
    }
    return total;
}

@compute @workgroup_size(8, 8, 1)
fn cs_main(@builtin(global_invocation_id) id: vec3<u32>) {
    if (id.x >= params.width || id.y >= params.height) {
        return;
    }
    let pixel = id.y * params.width + id.x;
    var state: u32 = (pixel * 9781u + params.seed * 6271u) | 1u;
    let samples = max(params.samples_per_pixel, 1u);
    var sum = vec3<f32>(0.0, 0.0, 0.0);
    for (var i: u32 = 0u; i < samples; i = i + 1u) {
        let px = f32(id.x) + next_random(&state);
        let py = f32(id.y) + next_random(&state);
        let dir = primary_direction(px, py);
        sum = sum + radiance_along(params.camera_origin, dir, &state);
    }
    accumulator[pixel] = vec4<f32>(sum / f32(samples), f32(samples));
}
";

} // verus!
