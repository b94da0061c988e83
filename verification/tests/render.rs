use ray_tracing::bvh::{binned, slot, Node, BVH, NUM_BINS, NUM_CUTS};
use ray_tracing::image::{Image, ImageFormat};
use ray_tracing::ray::{hit_of, intersect_node, reflects, HitInfo, Trace, Traversal, Visit};
use ray_tracing::renderer::{Parameters, Renderer};
use ray_tracing::scene::{Material, Scene, Triangle, Vertex};
use ray_tracing::vector::{bits_of_key, key_of_bits, rand_u24, Vec3k};

type V = [f32; 3];

fn key(x: f32) -> i32 {
    key_of_bits(x.to_bits())
}

fn unkey(k: i32) -> f32 {
    f32::from_bits(bits_of_key(k))
}

fn keys(v: V) -> [i32; 3] {
    [key(v[0]), key(v[1]), key(v[2])]
}

fn unkeys(k: [i32; 3]) -> V {
    [unkey(k[0]), unkey(k[1]), unkey(k[2])]
}

fn plus(a: V, b: V) -> V {
    [a[0] + b[0], a[1] + b[1], a[2] + b[2]]
}

fn minus(a: V, b: V) -> V {
    [a[0] - b[0], a[1] - b[1], a[2] - b[2]]
}

fn times(a: V, b: V) -> V {
    [a[0] * b[0], a[1] * b[1], a[2] * b[2]]
}

fn scaled(a: V, s: f32) -> V {
    [a[0] * s, a[1] * s, a[2] * s]
}

fn dot(a: V, b: V) -> f32 {
    (a[0] * b[0]) + (a[1] * b[1]) + (a[2] * b[2])
}

fn cross(a: V, b: V) -> V {
    [
        (a[1] * b[2]) - (a[2] * b[1]),
        (a[2] * b[0]) - (a[0] * b[2]),
        (a[0] * b[1]) - (a[1] * b[0]),
    ]
}

fn length(a: V) -> f32 {
    f32::sqrt(dot(a, a))
}

fn normalized(a: V) -> V {
    [a[0] / length(a), a[1] / length(a), a[2] / length(a)]
}

fn rand_f32(state: &mut u32) -> f32 {
    rand_u24(state) as f32 / 16777216.0
}

fn tri(corners: [V; 3]) -> Triangle {
    let normal = normalized(cross(minus(corners[1], corners[0]), minus(corners[2], corners[0])));
    let vertex = |c: usize| Vertex {
        position: keys(corners[c]),
        normal: keys(normal),
        tex_coord: [0, 0],
    };
    let mid = scaled(plus(plus(corners[0], corners[1]), corners[2]), 1.0 / 3.0);
    Triangle::new([vertex(0), vertex(1), vertex(2)], Vec3k { data: keys(mid) }, 0)
}

fn area(node: &Node) -> f32 {
    let e = minus(unkeys(node.bounds_max.data), unkeys(node.bounds_min.data));
    e[0] * e[2] + e[0] * e[1] + e[2] * e[1]
}

fn share(node: &Node) -> f32 {
    if node.num_tris == 0 {
        0.0
    } else {
        node.num_tris as f32 * area(node)
    }
}

fn scene_of(tris: Vec<Triangle>) -> Scene {
    let mut scene = Scene {
        tris,
        materials: vec![Material::default()],
        textures: Vec::new(),
        bvh: BVH { nodes: Vec::new() },
    };
    let mut builder = BVH::build(&scene);
    while let Some(index) = builder.next_node() {
        let node = builder.bvh.nodes[index];
        let mut found: Vec<(i32, i32)> = Vec::new();
        for k in 0..NUM_CUTS {
            let (axis, bin) = slot(k);
            let low = unkey(node.bounds_min.data[axis]);
            let scale = (unkey(node.bounds_max.data[axis]) - low) / NUM_BINS as f32;
            let pos = key(low + bin as f32 * scale);
            let (below, above) = BVH::evaluate_sah(&scene, &node, axis, pos);
            found.push((pos, key(share(&below) + share(&above))));
        }
        builder.split(&mut scene, &binned(&found), key(share(&node)));
    }
    builder.finish(&mut scene);
    scene
}

struct Hit {
    info: HitInfo,
    point: V,
    normal: V,
}

fn meet(origin: V, direction: V, tri: &Triangle, tri_id: usize) -> Hit {
    let v_1 = unkeys(tri.vertices[0].position);
    let edge_1 = minus(unkeys(tri.vertices[1].position), v_1);
    let edge_2 = minus(unkeys(tri.vertices[2].position), v_1);
    let ray_cross_e2 = cross(direction, edge_2);
    let det = dot(edge_1, ray_cross_e2);
    let inv_det = 1.0 / det;
    let s = minus(origin, v_1);
    let u = inv_det * dot(s, ray_cross_e2);
    let s_cross_e1 = cross(s, edge_1);
    let v = inv_det * dot(direction, s_cross_e1);
    let t = inv_det * dot(edge_2, s_cross_e1);
    let info = hit_of(tri, tri_id, key(det), key(t), key(u), key(v), key(u + v));
    let mut normal = plus(
        plus(scaled(unkeys(tri.vertices[0].normal), 1.0 - u - v), scaled(unkeys(tri.vertices[1].normal), u)),
        scaled(unkeys(tri.vertices[2].normal), v),
    );
    if !info.front_face {
        normal = scaled(normal, -1.0);
    }
    Hit {
        info,
        point: plus(origin, scaled(direction, t)),
        normal,
    }
}

fn slab(origin: V, direction: V, node: &Node) -> bool {
    let low = unkeys(node.bounds_min.data);
    let high = unkeys(node.bounds_max.data);
    let mut t_near = f32::MIN;
    let mut t_far = f32::MAX;
    for a in 0..3 {
        let t_min = (low[a] - origin[a]) / direction[a];
        let t_max = (high[a] - origin[a]) / direction[a];
        t_near = f32::max(t_near, f32::min(t_min, t_max) - 0.0001);
        t_far = f32::min(t_far, f32::max(t_min, t_max) + 0.0001);
    }
    if t_near.is_nan() || t_far.is_nan() {
        return false;
    }
    intersect_node(key(t_near), key(t_far))
}

fn nearest(origin: V, direction: V, scene: &Scene, looked_at: &mut Vec<usize>) -> Hit {
    let mut best = Hit { info: HitInfo::default(), point: [0.0; 3], normal: [0.0; 3] };
    let mut walk = Traversal::new();
    while let Some(index) = walk.next_node() {
        looked_at.push(index);
        let inside = slab(origin, direction, &scene.bvh.nodes[index]);
        if let Visit::Leaf { first_tri_id, num_tris } = walk.advance(scene, inside) {
            for i in first_tri_id..first_tri_id + num_tris {
                let found = meet(origin, direction, &scene.tris[i], i);
                if best.info.offer(found.info) {
                    best = found;
                }
            }
        }
    }
    best
}

fn tint(origin: V, direction: V, scene: &Scene) -> V {
    let mut color = [0.0f32; 3];
    let mut walk = Traversal::new();
    while let Some(index) = walk.next_node() {
        let inside = slab(origin, direction, &scene.bvh.nodes[index]);
        match walk.advance(scene, inside).debug_channel() {
            Some(2) => color[2] += 0.005,
            Some(channel) => color[channel] += 0.05,
            None => (),
        }
    }
    color
}

fn trace(mut origin: V, mut direction: V, max_bounces: usize, scene: &Scene, rng: &mut u32, debug: bool) -> (V, Trace) {
    let mut ray_color = [1.0f32; 3];
    let mut incoming = [0.0f32; 3];
    let mut emitted = [0.0f32; 3];
    let mut prev_hit_point = origin;
    let mut transmitted = 0.0f32;
    let mut path = Trace::new(max_bounces, debug);
    while path.open {
        if debug {
            incoming = plus(incoming, tint(origin, direction, scene));
            path.record(false);
            return (incoming, path);
        }
        let hit = nearest(origin, direction, scene, &mut Vec::new());
        path.record(hit.info.has_hit);
        if hit.info.has_hit {
            let material = &scene.materials[hit.info.material_id];
            let ior = if hit.info.front_face {
                prev_hit_point = hit.point;
                1.0 / unkey(material.ior)
            } else {
                transmitted = length(minus(hit.point, prev_hit_point));
                unkey(material.ior)
            };
            let f_0 = f32::powi(ior - 1.0, 2) / f32::powi(ior + 1.0, 2);
            let n_dot_v = dot(hit.normal, scaled(direction, -1.0));
            let fresnel = f_0 + (1.0 - f_0) * f32::powi(1.0 - n_dot_v, 5);
            let drawn = rand_f32(rng);
            let new_dir = if !fresnel.is_nan() && reflects(key(fresnel), key(drawn)) {
                ray_color = times(ray_color, unkeys(material.specular_tint.data));
                minus(direction, scaled(hit.normal, 2.0 * dot(direction, hit.normal)))
            } else {
                ray_color = times(ray_color, unkeys(material.base_color.data));
                let n_dot_i = dot(hit.normal, direction);
                let k = 1.0 - (ior * ior) * (1.0 - n_dot_i * n_dot_i);
                if k < 0.0 {
                    [0.0; 3]
                } else {
                    minus(scaled(direction, ior), scaled(hit.normal, ior * n_dot_i + f32::sqrt(k)))
                }
            };
            emitted = plus(emitted, unkeys(material.emission.data));
            let absorption = [
                f32::exp(-0.1 * transmitted),
                f32::exp(-3.0 * transmitted),
                f32::exp(-5.0 * transmitted),
            ];
            ray_color = times(ray_color, absorption);
            incoming = plus(incoming, times(emitted, ray_color));
            origin = plus(hit.point, scaled(new_dir, 0.0001));
            direction = new_dir;
        } else {
            incoming = plus(incoming, times([1.0; 3], ray_color));
        }
    }
    let light = match path.divisor() {
        None => incoming,
        Some(bounces) => scaled(incoming, 1.0 / bounces as f32),
    };
    (light, path)
}

fn render(renderer: &Renderer, scene: &Scene, image: &mut Image) {
    let p = &renderer.parameters;
    let (width, height) = (image.width, image.height);
    assert!(renderer.block_size(image).is_some());
    let (pos, target, up_input) = (unkeys(p.camera_pos.data), unkeys(p.camera_target.data), unkeys(p.camera_up.data));
    let mut pixels: Vec<[u8; 3]> = Vec::new();
    for index in 0..width * height {
        let mut rng = Renderer::pixel_seed(index);
        let mut color = [0.0f32; 3];
        let (x, y) = Renderer::pixel_at(index, width, height);
        let screen_x = (((x as f32 / width as f32) * 2.0) - 1.0) * (width as f32 / height as f32);
        let screen_y = ((y as f32 / height as f32) * 2.0) - 1.0;
        for _ in 0..renderer.paths_per_pixel() {
            let forward = normalized(minus(target, pos));
            let right = normalized(cross(up_input, forward));
            let up = cross(forward, right);
            let d = normalized(plus(plus(forward, scaled(right, screen_x)), scaled(up, screen_y)));
            let jittered = normalized([
                d[0] + (rand_f32(&mut rng) * 2.0 - 1.0) * 0.0005,
                d[1] + (rand_f32(&mut rng) * 2.0 - 1.0) * 0.0005,
                d[2],
            ]);
            let (light, _) = trace(pos, jittered, p.max_ray_depth, scene, &mut rng, p.debug_mode);
            color = plus(color, light);
        }
        if let Some(samples) = renderer.sample_divisor() {
            color = scaled(color, 1.0 / samples as f32);
        }
        pixels.push(color.map(|c| {
            let gamma = if c > 0.0 { f32::sqrt(c) } else { 0.0 };
            f32::floor(gamma * 255.0).clamp(0.0, 255.0) as u8
        }));
    }
    renderer.render_to_image(&pixels, image);
}

fn two_triangles() -> Scene {
    scene_of(vec![
        tri([[-3.0, -0.5, 0.0], [-2.0, -0.5, 0.0], [-3.0, 0.5, 0.0]]),
        tri([[2.0, -0.5, 0.0], [3.0, -0.5, 0.0], [2.0, 0.5, 0.0]]),
    ])
}

fn camera(pos: V, target: V, samples: usize, max_ray_depth: usize, debug_mode: bool) -> Renderer {
    Renderer::new(Parameters {
        samples,
        max_ray_depth,
        debug_mode,
        camera_pos: Vec3k { data: keys(pos) },
        camera_target: Vec3k { data: keys(target) },
        camera_up: Vec3k { data: keys([0.0, 1.0, 0.0]) },
    })
}

#[test]
fn an_empty_scene_is_all_sky() {
    let scene = scene_of(Vec::new());
    assert_eq!(scene.bvh.nodes.len(), 1);
    let mut image = Image::new(ImageFormat::PPM, 8, 6);
    render(&camera([0.0, 0.0, 8.0], [0.0; 3], 2, 3, false), &scene, &mut image);
    assert_eq!(image.bytes.len(), 8 * 6 * 3);
    assert!(image.bytes.iter().all(|&b| b == 255));
}

#[test]
fn a_single_triangle_under_a_white_sky() {
    let scene = scene_of(vec![tri([[0.0, 0.0, 0.0], [1.0, 0.0, 0.0], [0.0, 1.0, 0.0]])]);
    assert_eq!(scene.bvh.nodes.len(), 1);
    let mut image = Image::new(ImageFormat::PPM, 8, 8);
    render(&camera([0.3, 0.3, 5.0], [0.0; 3], 1, 1, false), &scene, &mut image);
    let center = (4 * 8 + 4) * 3;
    assert_eq!(&image.bytes[center..center + 3], &[255, 255, 255]);
    assert_eq!(&image.bytes[0..3], &[255, 255, 255]);

    let mut rng = 12345u32;
    let toward = normalized(minus([0.3, 0.3, 0.0], [0.3, 0.3, 5.0]));
    let (light, path) = trace([0.3, 0.3, 5.0], toward, 2, &scene, &mut rng, false);
    assert_eq!(path.bounces, 1);
    assert_eq!(path.descents, 2);
    assert!((light[0] - 1.0).abs() < 1e-6);
    assert!((light[1] - 1.0).abs() < 1e-6);
    assert!((light[2] - 1.0).abs() < 1e-6);

    let mut rng = 12345u32;
    let (light, path) = trace([0.3, 0.3, 5.0], toward, 1, &scene, &mut rng, false);
    assert_eq!((path.bounces, path.descents), (1, 1));
    assert_eq!(light, [0.0, 0.0, 0.0]);
}

#[test]
fn the_hierarchy_drawn_is_green_over_small_leaves_and_black_outside() {
    let scene = two_triangles();
    assert_eq!(scene.bvh.nodes.len(), 3);
    let over_left = tint([-2.7, 0.0, 5.0], [0.0, 0.0, -1.0], &scene);
    assert_eq!(over_left, [0.0, 0.05, 0.005]);
    let over_right = tint([2.3, 0.2, 5.0], [0.0, 0.0, -1.0], &scene);
    assert_eq!(over_right, [0.0, 0.05, 0.005]);
    let between = tint([0.0, 0.0, 5.0], [0.0, 0.0, -1.0], &scene);
    assert_eq!(between, [0.0, 0.0, 0.005]);
    let outside = tint([0.0, 9.0, 5.0], [0.0, 0.0, -1.0], &scene);
    assert_eq!(outside, [0.0, 0.0, 0.0]);

    let mut rng = 1u32;
    let (light, path) = trace([-2.7, 0.0, 5.0], [0.0, 0.0, -1.0], 3, &scene, &mut rng, true);
    assert_eq!(light, [0.0, 0.05, 0.005]);
    assert_eq!((path.descents, path.bounces), (1, 0));

    let mut image = Image::new(ImageFormat::PPM, 32, 32);
    render(&camera([0.0, 0.0, 8.0], [0.0; 3], 5, 3, true), &scene, &mut image);
    let pixel = |x: usize, row: usize| &image.bytes[(row * 32 + x) * 3..(row * 32 + x) * 3 + 3];
    assert_eq!(pixel(21, 16), &[0, 57, 18]);
    assert_eq!(pixel(11, 16), &[0, 57, 18]);
    assert_eq!(pixel(16, 16), &[0, 0, 18]);
    assert_eq!(pixel(16, 2), &[0, 0, 0]);
    assert_eq!(pixel(0, 0), &[0, 0, 0]);
    assert!(image.bytes.chunks(3).all(|p| p[0] == 0));
    assert!(image.bytes.chunks(3).all(|p| p[1] == 0 || p[1] == 57));
}

#[test]
fn crowded_leaves_are_drawn_red() {
    let mut tris = Vec::new();
    for _ in 0..6 {
        tris.push(tri([[0.0, 0.0, 0.0], [1.0, 0.0, 0.0], [0.0, 1.0, 0.0]]));
    }
    let scene = scene_of(tris);
    assert_eq!(scene.bvh.nodes.len(), 1);
    assert_eq!(tint([0.2, 0.2, 5.0], [0.0, 0.0, -1.0], &scene), [0.05, 0.0, 0.0]);
}

#[test]
fn a_ray_dropped_on_a_triangle_hits_its_front() {
    let triangles = [
        [[0.0, 0.0, 0.0], [1.0, 0.0, 0.0], [0.0, 1.0, 0.0]],
        [[-3.0, 2.0, 1.0], [4.0, 1.0, -2.0], [0.5, 6.0, 3.0]],
        [[10.0, 10.0, 10.0], [10.0, 12.0, 11.0], [9.0, 10.0, 14.0]],
        [[0.0, 0.0, 0.0], [0.0, 0.0, 1.0], [1.0, 0.0, 0.0]],
    ];
    for corners in triangles {
        let t = tri(corners);
        let normal = unkeys(t.vertices[0].normal);
        let mid = scaled(plus(plus(corners[0], corners[1]), corners[2]), 1.0 / 3.0);
        let origin = plus(mid, scaled(normal, 10.0));
        let hit = meet(origin, scaled(normal, -1.0), &t, 0);
        assert!(hit.info.has_hit);
        assert!(hit.info.front_face);
        assert!((unkey(hit.info.distance) - 10.0).abs() < 1e-3);
        let behind = meet(origin, normal, &t, 0);
        assert!(!behind.info.has_hit);
    }
}

#[test]
fn a_ray_that_starts_inside_a_box_hits_it() {
    let scene = two_triangles();
    let root = scene.bvh.nodes[0];
    let directions = [
        [1.0, 0.0, 0.0],
        [0.0, -1.0, 0.0],
        [0.0, 0.0, 1.0],
        [0.3, -0.2, 0.9],
        [-1.0, -1.0, -1.0],
        [1e-6, 1.0, -1e-6],
    ];
    for d in directions {
        assert!(slab([0.0, 0.0, 0.0], normalized(d), &root));
        assert!(slab([-2.5, 0.25, 0.0], normalized(d), &root));
    }
    assert!(!slab([0.0, 5.0, 0.0], [0.0, 1.0, 0.0], &root));
    assert!(!slab([0.0, 5.0, 0.0], [1.0, 0.0, 0.0], &root));
    assert!(slab([0.0, 5.0, 0.0], [0.0, -1.0, 0.0], &root));
}

#[test]
fn the_nearest_of_several_triangles_is_found() {
    let mut tris = Vec::new();
    for k in 0..20 {
        let z = k as f32 - 10.0;
        let x = if k % 2 == 0 { 0.0 } else { 50.0 };
        tris.push(tri([[x - 1.0, -1.0, z], [x + 1.0, -1.0, z], [x, 1.0, z]]));
    }
    let scene = scene_of(tris);
    assert!(scene.bvh.nodes.len() > 1);
    let mut looked_at = Vec::new();
    let hit = nearest([0.0, 0.0, 20.0], [0.0, 0.0, -1.0], &scene, &mut looked_at);
    assert!(hit.info.has_hit);
    assert!((unkey(hit.info.distance) - 12.0).abs() < 1e-4);
    assert_eq!(unkeys(scene.tris[hit.info.tri_id].vertices[0].position), [-1.0, -1.0, 8.0]);
    assert!(looked_at.len() <= scene.bvh.nodes.len());
    assert_eq!(looked_at[0], 0);
    let mut seen = looked_at.clone();
    seen.sort();
    seen.dedup();
    assert_eq!(seen.len(), looked_at.len());

    let mut looked_at = Vec::new();
    let miss = nearest([0.0, 30.0, 20.0], [0.0, 0.0, -1.0], &scene, &mut looked_at);
    assert!(!miss.info.has_hit);
    assert_eq!(looked_at, vec![0]);
}

#[test]
fn a_path_ends_within_its_bounces() {
    let scene = scene_of(vec![
        tri([[-50.0, -50.0, 0.0], [50.0, -50.0, 0.0], [0.0, 50.0, 0.0]]),
        tri([[-50.0, -50.0, 1.0], [0.0, 50.0, 1.0], [50.0, -50.0, 1.0]]),
    ]);
    for max_bounces in 0..6 {
        for seed in 1..40u32 {
            let mut rng = seed.wrapping_mul(2654435761);
            let (_, path) = trace([0.1, 0.1, 0.5], normalized([0.01, 0.02, 1.0]), max_bounces, &scene, &mut rng, false);
            assert!(path.descents <= max_bounces);
            assert!(path.bounces <= path.descents);
            assert!(!path.open);
        }
    }
}

#[test]
fn the_sky_is_added_alone_after_a_glowing_surface() {
    let mut scene = scene_of(vec![tri([[-50.0, -50.0, 0.0], [50.0, -50.0, 0.0], [0.0, 50.0, 0.0]])]);
    scene.materials[0].emission = Vec3k { data: keys([0.25, 0.5, 2.0]) };
    let mut rng = 7u32;
    let (light, path) = trace([0.0, 0.0, 5.0], [0.0, 0.0, -1.0], 4, &scene, &mut rng, false);
    assert_eq!((path.bounces, path.descents), (1, 2));
    assert_eq!(light, [1.25, 1.5, 3.0]);
}

#[test]
fn draws_are_fractions_below_one() {
    let mut state = 1u32;
    let mut largest = 0.0f32;
    for _ in 0..100_000 {
        let r = rand_f32(&mut state);
        assert!(0.0 <= r && r < 1.0);
        largest = largest.max(r);
    }
    assert!(largest > 0.999);
    let mut state = 1u32;
    assert_eq!(rand_f32(&mut state), (270369u32 >> 8) as f32 / 16777216.0);
}
