use renderer::model::triangle::{clip_triangle, project_triangles, ClipResult};

const NEAR: f32 = 0.1;

#[derive(Clone, Copy, Debug, PartialEq)]
struct Vertex {
    position: [f32; 3],
    shade: f32,
}

fn vertex(x: f32, y: f32, z: f32, shade: f32) -> Vertex {
    Vertex { position: [x, y, z], shade }
}

fn is_outside(v: &Vertex) -> bool {
    v.position[2] < NEAR
}

fn lerp(a: f32, b: f32, t: f32) -> f32 {
    a + (b - a) * t
}

fn clip_edge(inside: &Vertex, outside: &Vertex) -> Vertex {
    let t = (NEAR - inside.position[2]) / (outside.position[2] - inside.position[2]);
    Vertex {
        position: [
            lerp(inside.position[0], outside.position[0], t),
            lerp(inside.position[1], outside.position[1], t),
            lerp(inside.position[2], outside.position[2], t),
        ],
        shade: lerp(inside.shade, outside.shade, t),
    }
}

fn triangles(result: ClipResult<Vertex>) -> Vec<[Vertex; 3]> {
    match result {
        ClipResult::Discard => vec![],
        ClipResult::One(a) => vec![a],
        ClipResult::Two(a, b) => vec![a, b],
    }
}

// Three vertices on the z axis side by side; `behind` says which lie behind
// the near plane.
fn triangle(behind: [bool; 3]) -> [Vertex; 3] {
    let z = |b: bool| if b { -0.9 } else { 1.1 };
    [
        vertex(0.0, 0.0, z(behind[0]), 0.0),
        vertex(1.0, 0.0, z(behind[1]), 1.0),
        vertex(0.0, 1.0, z(behind[2]), 2.0),
    ]
}

fn close(a: &Vertex, b: &Vertex) -> bool {
    (0..3).all(|i| (a.position[i] - b.position[i]).abs() < 1e-6) && (a.shade - b.shade).abs() < 1e-6
}

#[test]
fn triangle_in_front_is_kept() {
    let v = triangle([false, false, false]);
    assert_eq!(triangles(clip_triangle(v, &is_outside, &clip_edge)), vec![v]);
}

#[test]
fn triangle_behind_is_discarded() {
    let v = triangle([true, true, true]);
    assert!(triangles(clip_triangle(v, &is_outside, &clip_edge)).is_empty());
}

#[test]
fn one_vertex_behind_leaves_a_quad() {
    // vertex 2 behind: the edges 1-2 and 0-2 are cut half way
    let v = triangle([false, false, true]);
    let cut_12 = vertex(0.5, 0.5, NEAR, 1.5);
    let cut_02 = vertex(0.0, 0.5, NEAR, 1.0);
    let out = triangles(clip_triangle(v, &is_outside, &clip_edge));
    assert_eq!(out.len(), 2);
    let expected = [[v[0], v[1], cut_12], [cut_12, cut_02, v[0]]];
    for t in 0..2 {
        for k in 0..3 {
            assert!(close(&out[t][k], &expected[t][k]));
        }
    }
    // vertex 1 behind
    let v = triangle([false, true, false]);
    let cut_01 = vertex(0.5, 0.0, NEAR, 0.5);
    let cut_21 = vertex(0.5, 0.5, NEAR, 1.5);
    let out = triangles(clip_triangle(v, &is_outside, &clip_edge));
    let expected = [[v[2], v[0], cut_01], [cut_01, cut_21, v[2]]];
    for t in 0..2 {
        for k in 0..3 {
            assert!(close(&out[t][k], &expected[t][k]));
        }
    }
    // vertex 0 behind
    let v = triangle([true, false, false]);
    let cut_20 = vertex(0.0, 0.5, NEAR, 1.0);
    let cut_10 = vertex(0.5, 0.0, NEAR, 0.5);
    let out = triangles(clip_triangle(v, &is_outside, &clip_edge));
    let expected = [[v[1], v[2], cut_20], [cut_20, cut_10, v[1]]];
    for t in 0..2 {
        for k in 0..3 {
            assert!(close(&out[t][k], &expected[t][k]));
        }
    }
}

#[test]
fn two_vertices_behind_leave_a_triangle() {
    let v = triangle([false, true, true]);
    let out = triangles(clip_triangle(v, &is_outside, &clip_edge));
    assert_eq!(out.len(), 1);
    let expected = [v[0], vertex(0.5, 0.0, NEAR, 0.5), vertex(0.0, 0.5, NEAR, 1.0)];
    assert!((0..3).all(|k| close(&out[0][k], &expected[k])));

    let v = triangle([true, false, true]);
    let out = triangles(clip_triangle(v, &is_outside, &clip_edge));
    assert_eq!(out.len(), 1);
    let expected = [vertex(0.5, 0.0, NEAR, 0.5), v[1], vertex(0.5, 0.5, NEAR, 1.5)];
    assert!((0..3).all(|k| close(&out[0][k], &expected[k])));

    let v = triangle([true, true, false]);
    let out = triangles(clip_triangle(v, &is_outside, &clip_edge));
    assert_eq!(out.len(), 1);
    let expected = [vertex(0.0, 0.5, NEAR, 1.0), vertex(0.5, 0.5, NEAR, 1.5), v[2]];
    assert!((0..3).all(|k| close(&out[0][k], &expected[k])));
}

#[test]
fn clipped_triangles_lie_in_front_of_the_plane() {
    for mask in 0..8u32 {
        let behind = [mask & 4 != 0, mask & 2 != 0, mask & 1 != 0];
        let out = triangles(clip_triangle(triangle(behind), &is_outside, &clip_edge));
        let count = match behind.iter().filter(|b| **b).count() {
            0 => 1,
            1 => 2,
            2 => 1,
            _ => 0,
        };
        assert_eq!(out.len(), count);
        for t in out {
            for v in t {
                assert!(v.position[2] >= NEAR - 1e-6);
            }
        }
    }
}

#[test]
fn a_vertex_on_the_plane_is_not_behind_it() {
    let v = [vertex(0.0, 0.0, NEAR, 0.0), vertex(1.0, 0.0, 1.0, 0.0), vertex(0.0, 1.0, 1.0, 0.0)];
    assert_eq!(triangles(clip_triangle(v, &is_outside, &clip_edge)), vec![v]);
}

#[test]
fn project_triangles_goes_through_the_list_in_order() {
    // vertex i lies at depth i; the first two lie behind the plane
    let depth = |i: usize| if i < 2 { -1.0 } else { i as f32 };
    let view_vertex = |i: usize| vertex(i as f32, 0.0, depth(i), i as f32);
    // a projected triangle is the sum of its shades; sums above 20 are dropped
    let project = |t: &[Vertex; 3]| {
        let sum = t[0].shade + t[1].shade + t[2].shade;
        if sum > 20.0 {
            None
        } else {
            Some(sum)
        }
    };
    let indices = [2, 3, 4, 0, 1, 0, 7, 8, 9, 5, 3, 2, 4, 4];
    let mut out = vec![-1.0];
    project_triangles(&indices, &view_vertex, &is_outside, &clip_edge, &project, &mut out);
    assert_eq!(out, vec![-1.0, 9.0, 10.0]);
}

#[test]
fn project_triangles_adds_both_halves_of_a_quad() {
    let view_vertex = |i: usize| triangle([false, false, true])[i];
    let project = |t: &[Vertex; 3]| Some([t[0].shade, t[1].shade, t[2].shade]);
    let mut out = Vec::new();
    project_triangles(&[0, 1, 2], &view_vertex, &is_outside, &clip_edge, &project, &mut out);
    assert_eq!(out.len(), 2);
    let expected = [[0.0, 1.0, 1.5], [1.5, 1.0, 0.0]];
    for t in 0..2 {
        for k in 0..3 {
            assert!((out[t][k] - expected[t][k]).abs() < 1e-6);
        }
    }
}

#[test]
fn project_triangles_of_nothing() {
    let mut out: Vec<f32> = Vec::new();
    let view_vertex = |i: usize| vertex(0.0, 0.0, 1.0, i as f32);
    let project = |_: &[Vertex; 3]| Some(1.0);
    project_triangles(&[], &view_vertex, &is_outside, &clip_edge, &project, &mut out);
    project_triangles(&[0, 1], &view_vertex, &is_outside, &clip_edge, &project, &mut out);
    assert!(out.is_empty());
}
