// Whole frames, with single-precision colours, depths and vertices.

use renderer::asset_manager::AssetId;
use renderer::colour::hex_channels;
use renderer::model::mesh::Mesh;
use renderer::model::model::reverse_winding;
use renderer::model::triangle::project_triangles;
use renderer::renderer::{visible_instances, Renderer};
use renderer::sat::{overlap_test, AxisTest, Overlap};
use renderer::shapes::unit_quad_indices;
use renderer::texture::{Bitmap, Texture};
use renderer::tile::{Bounds, Cover};

const NEAR: f32 = 0.1;
const FAR: f32 = 256.0;

type Rgb = [f32; 3];
type Point = [f32; 3];

#[derive(Clone, Copy)]
struct Vertex {
    position: Point,
    colour: Rgb,
    uv: [f32; 2],
}

#[derive(Clone, Copy)]
struct Aabb {
    min: Point,
    max: Point,
}

struct Projected {
    points: [[f32; 2]; 3],
    depth_inv: [f32; 3],
    colour_depth: [Rgb; 3],
    uv_depth: [[f32; 2]; 3],
    two_area_inv: f32,
    sat_edges: [[f32; 2]; 3],
    texture: Option<AssetId<Texture<Rgb>>>,
}

type Scene = Renderer<Rgb, f32, Projected, Vertex, Point, Aabb>;
type SceneMesh = Mesh<Vertex, Point, Aabb, Texture<Rgb>>;

fn rgb_hex(hex: u32) -> Rgb {
    let (r, g, b) = hex_channels(hex);
    [r as f32 / 255.0, g as f32 / 255.0, b as f32 / 255.0]
}

fn average(window: &[Rgb; 9]) -> Rgb {
    let mut sum = [0.0; 3];
    for sample in window {
        for c in 0..3 {
            sum[c] += sample[c];
        }
    }
    [sum[0] / 9.0, sum[1] / 9.0, sum[2] / 9.0]
}

fn bounds_of(points: &[Point]) -> Aabb {
    let mut min = [f32::MAX; 3];
    let mut max = [f32::MIN; 3];
    for p in points {
        for c in 0..3 {
            min[c] = min[c].min(p[c]);
            max[c] = max[c].max(p[c]);
        }
    }
    Aabb { min, max }
}

fn intersects(a: &Aabb, b: &Aabb) -> bool {
    (0..3).all(|c| a.min[c] <= b.max[c] && b.min[c] <= a.max[c])
}

fn lerp(a: f32, b: f32, t: f32) -> f32 {
    a + (b - a) * t
}

fn clip_edge(inside: &Vertex, outside: &Vertex) -> Vertex {
    let t = (NEAR - inside.position[2]) / (outside.position[2] - inside.position[2]);
    let mut v = *inside;
    for c in 0..3 {
        v.position[c] = lerp(inside.position[c], outside.position[c], t);
        v.colour[c] = lerp(inside.colour[c], outside.colour[c], t);
    }
    for c in 0..2 {
        v.uv[c] = lerp(inside.uv[c], outside.uv[c], t);
    }
    v
}

// (q - p) x (r - p)
fn edge_side(p: [f32; 2], q: [f32; 2], r: [f32; 2]) -> f32 {
    (q[0] - p[0]) * (r[1] - p[1]) - (q[1] - p[1]) * (r[0] - p[0])
}

fn perpendicular(from: [f32; 2], to: [f32; 2]) -> [f32; 2] {
    [-(to[1] - from[1]), to[0] - from[0]]
}

fn project(v: &[Vertex; 3], focal: f32, half: [f32; 2], texture: Option<AssetId<Texture<Rgb>>>) -> Option<Projected> {
    let mut t = Projected {
        points: [[0.0; 2]; 3],
        depth_inv: [0.0; 3],
        colour_depth: [[0.0; 3]; 3],
        uv_depth: [[0.0; 2]; 3],
        two_area_inv: 0.0,
        sat_edges: [[0.0; 2]; 3],
        texture,
    };
    for i in 0..3 {
        let inv = 1.0 / v[i].position[2];
        t.depth_inv[i] = inv;
        for c in 0..3 {
            t.colour_depth[i][c] = v[i].colour[c] * inv;
        }
        for c in 0..2 {
            t.uv_depth[i][c] = v[i].uv[c] * inv;
        }
        t.points[i] = [
            focal * v[i].position[0] * inv + half[0],
            -focal * v[i].position[1] * inv + half[1],
        ];
    }
    let [a, b, c] = t.points;
    t.two_area_inv = 1.0 / edge_side(b, a, c);
    t.sat_edges = [perpendicular(a, b), perpendicular(b, c), perpendicular(c, a)];
    if t.two_area_inv.is_sign_negative() {
        None
    } else {
        Some(t)
    }
}

fn interval(axis: [f32; 2], points: &[[f32; 2]]) -> (f32, f32) {
    let mut min = f32::MAX;
    let mut max = f32::MIN;
    for p in points {
        let d = p[0] * axis[0] + p[1] * axis[1];
        min = min.min(d);
        max = max.max(d);
    }
    (min, max)
}

fn overlap(triangle: &Projected, tile: &Bounds) -> Overlap {
    let corners = [
        [tile.min_x as f32, tile.min_y as f32],
        [tile.min_x as f32, tile.max_y as f32],
        [tile.max_x as f32, tile.max_y as f32],
        [tile.max_x as f32, tile.min_y as f32],
    ];
    let mut axes = triangle.sat_edges.to_vec();
    axes.push([1.0, 0.0]);
    axes.push([0.0, 1.0]);
    let tests: Vec<AxisTest> = axes
        .iter()
        .map(|axis| {
            let (tri_min, tri_max) = interval(*axis, &triangle.points);
            let (tile_min, tile_max) = interval(*axis, &corners);
            AxisTest {
                overlaps: tri_max >= tile_min && tile_max >= tri_min,
                contains: tri_min <= tile_min && tri_max >= tile_max,
            }
        })
        .collect();
    overlap_test(&tests)
}

fn extent(triangle: &Projected) -> Bounds {
    let xs = triangle.points.map(|p| p[0]);
    let ys = triangle.points.map(|p| p[1]);
    let min = |v: [f32; 3]| v[0].min(v[1]).min(v[2]);
    let max = |v: [f32; 3]| v[0].max(v[1]).max(v[2]);
    Bounds {
        min_x: min(xs) as usize,
        min_y: min(ys) as usize,
        max_x: max(xs).ceil() as usize,
        max_y: max(ys).ceil() as usize,
    }
}

fn sample(texture: &Texture<Rgb>, u: f32, v: f32) -> Rgb {
    let level = &texture.levels[0];
    let x = ((u - u.floor()) * level.width as f32) as usize;
    let y = ((v - v.floor()) * level.height as f32) as usize;
    texture.texel(x, y, 0)
}

fn shade(scene_textures: &[Texture<Rgb>], t: &Projected, cover: Cover, x: usize, y: usize, current: f32) -> Option<(Rgb, f32)> {
    let p = [x as f32 + 0.5, y as f32 + 0.5];
    let [a, b, c] = t.points;
    let w = [
        edge_side(c, b, p) * t.two_area_inv,
        edge_side(a, c, p) * t.two_area_inv,
        edge_side(b, a, p) * t.two_area_inv,
    ];
    if matches!(cover, Cover::Partial) && w.iter().any(|b| b.is_sign_negative()) {
        return None;
    }
    let depth = 1.0 / (w[0] * t.depth_inv[0] + w[1] * t.depth_inv[1] + w[2] * t.depth_inv[2]);
    if !(depth < current) {
        return None;
    }
    let mix = |i: usize| (0..3).map(|k| t.colour_depth[k][i] * w[k]).sum::<f32>() * depth;
    let colour = [mix(0), mix(1), mix(2)];
    let u = (0..3).map(|k| t.uv_depth[k][0] * w[k]).sum::<f32>() * depth;
    let v = (0..3).map(|k| t.uv_depth[k][1] * w[k]).sum::<f32>() * depth;
    match t.texture {
        Some(id) => Some((sample(&scene_textures[id.index()], u, v), depth)),
        None => Some((colour, depth)),
    }
}

// One frame, with the camera at the origin looking along +z and a field of
// view of ninety degrees both ways.
fn render(scene: &mut Scene) -> usize {
    scene.clear();
    let half = [scene.internal_width() as f32 / 2.0, scene.internal_height() as f32 / 2.0];
    let focal = half[0];
    let frustum = Aabb { min: [-FAR, -FAR, NEAR], max: [FAR, FAR, FAR] };
    for p in 0..scene.assets.meshes.len() {
        let id = scene.assets.meshes.id_at(p);
        scene.assets.meshes.get_mut(id).unwrap().update_all_view_bounds(&|b: &Aabb| *b);
    }
    let meshes = scene.assets.meshes.as_slice();
    let visible = visible_instances(meshes, &|b: &Aabb| intersects(&frustum, b));
    for (m, p) in visible {
        let mesh = &meshes[m];
        let instance = &mesh.instances.values()[p];
        project_triangles(
            &mesh.indices,
            &|i: usize| Vertex { position: instance.world_positions[i], ..mesh.vertices[i] },
            &|v: &Vertex| v.position[2] < NEAR,
            &clip_edge,
            &|v: &[Vertex; 3]| project(v, focal, half, mesh.texture_id),
            &mut scene.projected_triangles,
        );
    }
    let triangles = &scene.projected_triangles;
    let textures = scene.assets.textures.as_slice();
    let extents: Vec<Bounds> = triangles.iter().map(extent).collect();
    scene.tile_renderer.render(
        &mut scene.framebuffer,
        &extents,
        &|i: usize, tile: &Bounds| overlap(&triangles[i], tile),
        &|cover, i, x, y, depth| shade(textures, &triangles[i], cover, x, y, depth),
    );
    triangles.len()
}

fn scene(width: usize, height: usize) -> Scene {
    let mut scene = Scene::new(width, height, rgb_hex(0x0a96ed), f32::MAX);
    scene.update_viewport(width, height);
    scene
}

fn vertex(x: f32, y: f32, z: f32, colour: Rgb) -> Vertex {
    Vertex { position: [x, y, z], colour, uv: [(x + 1.0) / 2.0, (y + 1.0) / 2.0] }
}

fn add_mesh(scene: &mut Scene, name: &str, vertices: Vec<Vertex>, indices: Vec<usize>) -> AssetId<SceneMesh> {
    let positions: Vec<Point> = vertices.iter().map(|v| v.position).collect();
    let mesh = Mesh::new(name.to_owned(), vertices, indices, None, bounds_of(&positions));
    let id = scene.assets.meshes.insert(mesh);
    scene.assets.spawn_mesh_instance(id, &|v: &Vertex| v.position, &|b: &Aabb| *b);
    id
}

// A quad that faces the camera, at depth `z`, from -size to size both ways.
fn quad(z: f32, size: f32, colour: Rgb) -> (Vec<Vertex>, Vec<usize>) {
    let corner = |x: f32, y: f32| Vertex {
        position: [x * size, y * size, z],
        colour,
        uv: [(x + 1.0) / 2.0, (y + 1.0) / 2.0],
    };
    let vertices = vec![corner(1.0, -1.0), corner(-1.0, -1.0), corner(-1.0, 1.0), corner(1.0, 1.0)];
    let mut indices = unit_quad_indices();
    reverse_winding(&mut indices);
    (vertices, indices)
}

fn is_clear(scene: &Scene) -> bool {
    let clear = rgb_hex(0x0a96ed);
    scene.pixels().iter().all(|p| *p == clear) && scene.framebuffer.depth().iter().all(|d| *d == f32::MAX)
}

fn close(a: Rgb, b: Rgb) -> bool {
    (0..3).all(|c| (a[c] - b[c]).abs() < 1e-5)
}

#[test]
fn empty_scene_is_the_clear_colour() {
    let mut scene = scene(4, 4);
    assert_eq!(render(&mut scene), 0);
    assert_eq!(scene.pixels().len(), 16);
    let clear = [10.0 / 255.0, 150.0 / 255.0, 237.0 / 255.0];
    for pixel in scene.pixels() {
        assert_eq!(*pixel, clear);
    }
    for depth in scene.framebuffer.depth() {
        assert_eq!(*depth, f32::MAX);
    }
}

#[test]
fn clear_colour_can_be_changed() {
    let mut scene = scene(4, 4);
    scene.set_clear_colour([1.0, 0.0, 0.0]);
    render(&mut scene);
    assert!(scene.pixels().iter().all(|p| *p == [1.0, 0.0, 0.0]));
}

#[test]
fn viewport_of_nothing_counts_as_one_pixel() {
    let mut scene = scene(4, 4);
    scene.update_viewport(0, 0);
    assert_eq!((scene.internal_width(), scene.internal_height()), (1, 1));
    assert_eq!(scene.tile_renderer.tiles().len(), 1);
    scene.update_viewport(10, 0);
    assert_eq!((scene.internal_width(), scene.internal_height()), (10, 1));
    assert_eq!(scene.pixels().len(), 10);
}

#[test]
fn single_triangle_covers_three_pixels() {
    let mut scene = scene(24, 24);
    let colour = [0.25, 0.5, 0.75];
    let vertices = vec![
        vertex(0.0, 0.0, 5.0, colour),
        vertex(1.0, 0.0, 5.0, colour),
        vertex(0.0, 1.0, 5.0, colour),
    ];
    add_mesh(&mut scene, "triangle", vertices, vec![0, 1, 2]);
    assert_eq!(render(&mut scene), 1);
    let clear = rgb_hex(0x0a96ed);
    let covered = [(12, 11), (13, 11), (12, 10)];
    for y in 0..24 {
        for x in 0..24 {
            let pixel = scene.pixels()[y * 24 + x];
            let depth = scene.framebuffer.depth()[y * 24 + x];
            if covered.contains(&(x, y)) {
                assert!(close(pixel, colour));
                assert!((depth - 5.0).abs() < 1e-4);
            } else {
                assert_eq!(pixel, clear);
                assert_eq!(depth, f32::MAX);
            }
        }
    }
}

#[test]
fn colours_are_interpolated() {
    let mut scene = scene(24, 24);
    let vertices = vec![
        vertex(0.0, 0.0, 5.0, [1.0, 0.0, 0.0]),
        vertex(1.0, 0.0, 5.0, [0.0, 1.0, 0.0]),
        vertex(0.0, 1.0, 5.0, [0.0, 0.0, 1.0]),
    ];
    add_mesh(&mut scene, "triangle", vertices, vec![0, 1, 2]);
    render(&mut scene);
    // the centre of pixel (12, 11) lies 0.5 / 2.4 of the way along both legs
    let w = 0.5 / 2.4;
    assert!(close(scene.pixels()[11 * 24 + 12], [1.0 - 2.0 * w, w, w]));
    let w = 1.5 / 2.4;
    assert!(close(scene.pixels()[11 * 24 + 13], [1.0 - w - 0.5 / 2.4, w, 0.5 / 2.4]));
}

#[test]
fn clockwise_triangle_is_culled() {
    let mut scene = scene(24, 24);
    let colour = [0.25, 0.5, 0.75];
    let vertices = vec![
        vertex(0.0, 0.0, 5.0, colour),
        vertex(1.0, 0.0, 5.0, colour),
        vertex(0.0, 1.0, 5.0, colour),
    ];
    add_mesh(&mut scene, "triangle", vertices, vec![0, 2, 1]);
    assert_eq!(render(&mut scene), 0);
    assert!(is_clear(&scene));
}

#[test]
fn nearer_quad_hides_the_farther() {
    for nearer_first in [false, true] {
        let mut scene = scene(16, 16);
        let far = quad(5.0, 2.0, [1.0, 0.0, 0.0]);
        let near = quad(4.0, 1.0, [0.0, 1.0, 0.0]);
        if nearer_first {
            add_mesh(&mut scene, "near", near.0, near.1);
            add_mesh(&mut scene, "far", far.0, far.1);
        } else {
            add_mesh(&mut scene, "far", far.0, far.1);
            add_mesh(&mut scene, "near", near.0, near.1);
        }
        assert_eq!(render(&mut scene), 4);
        // far quad: 8 * 2 / 5 = 3.2 pixels each way from the centre;
        // near quad: 8 * 1 / 4 = 2 pixels each way
        for y in 0..16usize {
            for x in 0..16usize {
                let centre = [x as f32 + 0.5 - 8.0, y as f32 + 0.5 - 8.0];
                let reach = centre[0].abs().max(centre[1].abs());
                let pixel = scene.pixels()[y * 16 + x];
                let depth = scene.framebuffer.depth()[y * 16 + x];
                if reach < 2.0 {
                    assert!(close(pixel, [0.0, 1.0, 0.0]));
                    assert!((depth - 4.0).abs() < 1e-4);
                } else if reach < 3.2 {
                    assert!(close(pixel, [1.0, 0.0, 0.0]));
                    assert!((depth - 5.0).abs() < 1e-4);
                } else {
                    assert_eq!(depth, f32::MAX);
                }
            }
        }
    }
}

#[test]
fn equal_depth_keeps_the_first_triangle() {
    let mut scene = scene(16, 16);
    let first = quad(4.0, 1.0, [1.0, 0.0, 0.0]);
    let second = quad(4.0, 1.0, [0.0, 1.0, 0.0]);
    add_mesh(&mut scene, "first", first.0, first.1);
    add_mesh(&mut scene, "second", second.0, second.1);
    render(&mut scene);
    assert!(close(scene.pixels()[7 * 16 + 7], [1.0, 0.0, 0.0]));
    assert!(close(scene.pixels()[8 * 16 + 8], [1.0, 0.0, 0.0]));
}

#[test]
fn textured_quad_shows_the_texture() {
    let mut scene = scene(8, 8);
    let black = [0.0, 0.0, 0.0];
    let white = [1.0, 1.0, 1.0];
    let texels: Vec<Rgb> =
        (0..16).map(|i| if (i / 4 + i % 4) % 2 == 0 { white } else { black }).collect();
    let texture = Texture::from_bitmap(Bitmap::new(4, 4, texels.clone()), "check".to_owned(), black, &average);
    let texture_id = scene.assets.textures.insert(texture);
    let (vertices, indices) = quad(1.0, 1.0, [0.5, 0.5, 0.5]);
    let mesh = add_mesh(&mut scene, "quad", vertices, indices);
    scene.assets.meshes.get_mut(mesh).unwrap().texture_id = Some(texture_id);
    assert_eq!(render(&mut scene), 2);
    for y in 0..8 {
        for x in 0..8 {
            // two pixels to the texel; v grows upwards
            let texel = texels[(3 - y / 2) * 4 + x / 2];
            assert_eq!(scene.pixels()[y * 8 + x], texel);
            assert!((scene.framebuffer.depth()[y * 8 + x] - 1.0).abs() < 1e-5);
        }
    }
}

#[test]
fn instance_behind_the_camera_is_not_looked_at() {
    let mut scene = scene(16, 16);
    let (vertices, indices) = quad(-3.0, 1.0, [1.0, 0.0, 0.0]);
    add_mesh(&mut scene, "behind", vertices, indices);
    let meshes = scene.assets.meshes.as_slice();
    let frustum = Aabb { min: [-FAR, -FAR, NEAR], max: [FAR, FAR, FAR] };
    assert!(visible_instances(meshes, &|b: &Aabb| intersects(&frustum, b)).is_empty());
    assert_eq!(render(&mut scene), 0);
    assert!(is_clear(&scene));
}

#[test]
fn visible_instances_are_listed_in_order() {
    let mut scene = scene(16, 16);
    let (vertices, indices) = quad(3.0, 1.0, [1.0, 0.0, 0.0]);
    let first = add_mesh(&mut scene, "first", vertices.clone(), indices.clone());
    let second = add_mesh(&mut scene, "second", vertices, indices);
    let behind = |v: &Vertex| [v.position[0], v.position[1], -v.position[2]];
    let flipped = |b: &Aabb| Aabb { min: [b.min[0], b.min[1], -b.max[2]], max: [b.max[0], b.max[1], -b.min[2]] };
    scene.assets.spawn_mesh_instance(first, &behind, &flipped);
    scene.assets.spawn_mesh_instance(first, &|v: &Vertex| v.position, &|b: &Aabb| *b);
    scene.assets.spawn_mesh_instance(second, &behind, &flipped);
    let frustum = Aabb { min: [-FAR, -FAR, NEAR], max: [FAR, FAR, FAR] };
    let visible = visible_instances(scene.assets.meshes.as_slice(), &|b: &Aabb| intersects(&frustum, b));
    assert_eq!(visible, vec![(0, 0), (0, 2), (1, 0)]);
}

#[test]
fn triangle_across_the_near_plane_is_clipped() {
    let mut scene = scene(16, 16);
    let colour = [1.0, 1.0, 0.0];
    // the third vertex lies behind the camera
    let vertices = vec![
        vertex(-1.0, -1.0, 2.0, colour),
        vertex(1.0, -1.0, 2.0, colour),
        vertex(0.0, -1.0, -2.0, colour),
    ];
    add_mesh(&mut scene, "floor", vertices, vec![1, 0, 2]);
    assert_eq!(render(&mut scene), 2);
    // the floor lies below the eye: nothing is drawn above the middle row
    for y in 0..8 {
        for x in 0..16 {
            assert_eq!(scene.framebuffer.depth()[y * 16 + x], f32::MAX);
        }
    }
    // at the far edge of the floor, y = -1 at depth 2 is row 8 + 8 / 2 = 12
    assert_eq!(scene.framebuffer.depth()[11 * 16 + 8], f32::MAX);
    for y in 12..16 {
        let depth = scene.framebuffer.depth()[y * 16 + 8];
        assert!(depth >= NEAR && depth <= 2.0);
        assert!(close(scene.pixels()[y * 16 + 8], colour));
    }
}

fn screen_triangle(a: [f32; 2], b: [f32; 2], c: [f32; 2]) -> Projected {
    Projected {
        points: [a, b, c],
        depth_inv: [1.0; 3],
        colour_depth: [[0.0; 3]; 3],
        uv_depth: [[0.0; 2]; 3],
        two_area_inv: 1.0 / edge_side(b, a, c),
        sat_edges: [perpendicular(a, b), perpendicular(b, c), perpendicular(c, a)],
        texture: None,
    }
}

#[test]
fn tiles_are_classified_against_a_triangle() {
    let triangle = screen_triangle([0.0, 0.0], [0.0, 40.0], [40.0, 0.0]);
    let tile = |x: usize, y: usize| Bounds { min_x: x, min_y: y, max_x: x + 8, max_y: y + 8 };
    // wholly inside: all four corners lie in the triangle
    assert!(matches!(overlap(&triangle, &tile(0, 0)), Overlap::Full));
    assert!(matches!(overlap(&triangle, &tile(8, 16)), Overlap::Full));
    assert!(matches!(overlap(&triangle, &tile(8, 8)), Overlap::Full));
    // across the long edge
    assert!(matches!(overlap(&triangle, &tile(16, 16)), Overlap::Partial));
    assert!(matches!(overlap(&triangle, &tile(16, 24)), Overlap::Partial));
    assert!(matches!(overlap(&triangle, &tile(32, 0)), Overlap::Partial));
    // beyond the long edge: inside the box of the triangle, but apart from it
    assert!(matches!(overlap(&triangle, &tile(24, 24)), Overlap::Disjoint));
    assert!(matches!(overlap(&triangle, &tile(32, 32)), Overlap::Disjoint));
    // outside the box
    assert!(matches!(overlap(&triangle, &tile(48, 0)), Overlap::Disjoint));
    // a tile that holds the whole triangle is met, not covered
    let small = screen_triangle([1.0, 1.0], [1.0, 3.0], [3.0, 1.0]);
    assert!(matches!(overlap(&small, &tile(0, 0)), Overlap::Partial));
}
