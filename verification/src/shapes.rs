//! The triangles of the built-in shapes: a quad, a cube, and a sphere made
//! of the six faces of a cube, each cut into a grid of cells.

use crate::model::mesh::are_triangles;
use vstd::prelude::*;

verus! {

/// The two triangles of a quad with the corners 0 to 3.
pub fn unit_quad_indices() -> (indices: Vec<usize>)
    ensures
        indices@ == seq![0usize, 1, 2, 2, 3, 0],
        are_triangles(indices@, 4),
{
    let mut indices: Vec<usize> = Vec::new();
    indices.push(0);
    indices.push(1);
    indices.push(2);
    indices.push(2);
    indices.push(3);
    indices.push(0);
    assert(indices@ =~= seq![0usize, 1, 2, 2, 3, 0]);
    indices
}

/// The corner of a cube face that vertex `k` of the face's two triangles
/// stands on, the four corners of the face being numbered 0 to 3.
pub open spec fn cube_corner(k: int) -> int {
    if k == 0 {
        0
    } else if k == 1 {
        2
    } else if k == 2 {
        1
    } else if k == 3 {
        2
    } else if k == 4 {
        0
    } else {
        3
    }
}

/// The twelve triangles of a cube whose six faces have four vertices each:
/// face `f` has the vertices `4f` to `4f + 3` and the triangles (0, 2, 1) and
/// (2, 0, 3) of them.
pub fn unit_cube_indices() -> (indices: Vec<usize>)
    ensures
        indices@.len() == 36,
        forall|f: int, k: int|
            0 <= f < 6 && 0 <= k < 6 ==> #[trigger] indices@[6 * f + k] == 4 * f + cube_corner(k),
        are_triangles(indices@, 24),
{
    let mut indices: Vec<usize> = Vec::new();
    let mut face: usize = 0;
    while face < 6
        invariant
            face <= 6,
            indices@.len() == 6 * face,
            forall|f: int, k: int|
                0 <= f < face && 0 <= k < 6 ==> #[trigger] indices@[6 * f + k] == 4 * f
                    + cube_corner(k),
            forall|i: int| 0 <= i < indices@.len() ==> #[trigger] indices@[i] < 24,
        decreases 6 - face,
    {
        let base = 4 * face;
        let ghost before = indices@;
        indices.push(base);
        indices.push(base + 2);
        indices.push(base + 1);
        indices.push(base + 2);
        indices.push(base);
        indices.push(base + 3);
        proof {
            assert forall|f: int, k: int| 0 <= f < face + 1 && 0 <= k < 6 implies #[trigger] indices@[6
                * f + k] == 4 * f + cube_corner(k) by {
                if f < face {
                    assert(indices@[6 * f + k] == before[6 * f + k]);
                }
            }
            assert forall|i: int| 0 <= i < indices@.len() implies #[trigger] indices@[i] < 24 by {
                if i < before.len() {
                    assert(indices@[i] == before[i]);
                }
            }
        }
        face += 1;
    }
    indices
}

/// The number of a cell of the sphere: cell `(u, v)` of face `face`, each
/// face having `resolution` by `resolution` cells.
pub open spec fn sphere_cell(resolution: int, face: int, u: int, v: int) -> int {
    (face * resolution + u) * resolution + v
}

/// The index of the vertex `(u, v)` of face `face` of the sphere, each face
/// having `resolution + 1` by `resolution + 1` vertices.
pub open spec fn sphere_vertex(resolution: int, face: int, u: int, v: int) -> int {
    face * ((resolution + 1) * (resolution + 1)) + u * (resolution + 1) + v
}

/// The vertex that index `k` of the two triangles of the cell `(u, v)` of
/// face `face` names: the triangles are (0,0), (1,1), (1,0) and (1,1), (0,0),
/// (0,1), as steps from the cell's own vertex.
pub open spec fn sphere_corner(resolution: int, face: int, u: int, v: int, k: int) -> int {
    if k == 0 || k == 4 {
        sphere_vertex(resolution, face, u, v)
    } else if k == 1 || k == 3 {
        sphere_vertex(resolution, face, u + 1, v + 1)
    } else if k == 2 {
        sphere_vertex(resolution, face, u + 1, v)
    } else {
        sphere_vertex(resolution, face, u, v + 1)
    }
}

/// The vertices of a face lie between those of the faces before and after
/// it.
pub proof fn lemma_sphere_vertex_bound(resolution: int, face: int, u: int, v: int)
    requires
        0 <= resolution,
        0 <= face < 6,
        0 <= u <= resolution,
        0 <= v <= resolution,
    ensures
        0 <= sphere_vertex(resolution, face, u, v) < 6 * ((resolution + 1) * (resolution + 1)),
        sphere_vertex(resolution, face, u, v) < (face + 1) * ((resolution + 1) * (resolution
            + 1)),
        face * ((resolution + 1) * (resolution + 1)) <= sphere_vertex(resolution, face, u, v),
{
    let n = resolution + 1;
    assert(u * n + v < n * n) by (nonlinear_arith)
        requires
            0 <= u < n,
            0 <= v < n,
    ;
    assert(0 <= u * n) by (nonlinear_arith)
        requires
            0 <= u,
            0 <= n,
    ;
    assert(face * (n * n) + n * n == (face + 1) * (n * n)) by (nonlinear_arith);
    assert((face + 1) * (n * n) <= 6 * (n * n)) by (nonlinear_arith)
        requires
            face + 1 <= 6,
            0 <= n * n,
    ;
    assert(0 <= face * (n * n)) by (nonlinear_arith)
        requires
            0 <= face,
            0 <= n * n,
    ;
    assert(0 <= n * n) by (nonlinear_arith);
}

/// The vertices and the triangles of a sphere that is made of the six faces
/// of a cube.  Each face is a grid of `resolution` by `resolution` cells with
/// a vertex at every crossing, which `vertex` makes from the number of the
/// face and the place of the crossing; each cell is two triangles.
pub fn unit_sphere_geometry<V, F: Fn(usize, usize, usize) -> V>(resolution: usize, vertex: &F) -> (r: (
    Vec<V>,
    Vec<usize>,
))
    requires
        6 * ((resolution + 1) * (resolution + 1)) <= usize::MAX,
        forall|face: usize, u: usize, v: usize| call_requires(*vertex, (face, u, v)),
    ensures
        r.0@.len() == 6 * ((resolution + 1) * (resolution + 1)),
        forall|face: int, u: int, v: int|
            0 <= face < 6 && 0 <= u <= resolution && 0 <= v <= resolution ==> call_ensures(
                *vertex,
                (face as usize, u as usize, v as usize),
                r.0@[#[trigger] sphere_vertex(resolution as int, face, u, v)],
            ),
        r.1@.len() == 36 * (resolution * resolution),
        forall|face: int, u: int, v: int, k: int|
            0 <= face < 6 && 0 <= u < resolution && 0 <= v < resolution && 0 <= k < 6 ==> r.1@[6
                * sphere_cell(resolution as int, face, u, v) + k] == #[trigger] sphere_corner(
                resolution as int,
                face,
                u,
                v,
                k,
            ),
        are_triangles(r.1@, r.0@.len()),
{
    let ghost res = resolution as int;
    let ghost n = res + 1;
    proof {
        assert(n <= 6 * (n * n)) by (nonlinear_arith)
            requires
                n >= 1,
        ;
    }
    let side = resolution + 1;
    proof {
        assert(n * n <= 6 * (n * n)) by (nonlinear_arith);
        assert(n <= n * n) by (nonlinear_arith)
            requires
                n >= 1,
        ;
        assert(res * res <= n * n) by (nonlinear_arith)
            requires
                n == res + 1,
                res >= 0,
        ;
    }
    let per_face = side * side;
    let mut vertices: Vec<V> = Vec::new();
    let mut indices: Vec<usize> = Vec::new();
    let mut face: usize = 0;
    while face < 6
        invariant
            face <= 6,
            res == resolution,
            n == res + 1,
            side == n,
            per_face == n * n,
            6 * (n * n) <= usize::MAX,
            forall|face: usize, u: usize, v: usize| call_requires(*vertex, (face, u, v)),
            vertices@.len() == face * (n * n),
            indices@.len() == 6 * (face * (res * res)),
            forall|f: int, u: int, v: int|
                0 <= f < face && 0 <= u <= res && 0 <= v <= res ==> call_ensures(
                    *vertex,
                    (f as usize, u as usize, v as usize),
                    vertices@[#[trigger] sphere_vertex(res, f, u, v)],
                ),
            forall|f: int, u: int, v: int, k: int|
                0 <= f < face && 0 <= u < res && 0 <= v < res && 0 <= k < 6 ==> indices@[6
                    * sphere_cell(res, f, u, v) + k] == #[trigger] sphere_corner(res, f, u, v, k),
            forall|i: int| 0 <= i < indices@.len() ==> #[trigger] indices@[i] < 6 * (n * n),
        decreases 6 - face,
    {
        let base = vertices.len();
        proof {
            assert(face * (n * n) + n * n <= 6 * (n * n)) by (nonlinear_arith)
                requires
                    face < 6,
                    0 <= n * n,
            ;
            assert(face * (res * res) + res * res == (face + 1) * (res * res))
                by (nonlinear_arith);
            assert(face * res * res == face * (res * res)) by (nonlinear_arith);
        }
        let mut u: usize = 0;
        while u < resolution
            invariant
                face < 6,
                u <= resolution,
                res == resolution,
                n == res + 1,
                side == n,
                6 * (n * n) <= usize::MAX,
                base == face * (n * n),
                vertices@.len() == base,
                indices@.len() == 6 * ((face * res + u) * res),
                forall|f: int, u: int, v: int, k: int|
                    0 <= f < face && 0 <= u < res && 0 <= v < res && 0 <= k < 6 ==> indices@[6
                        * sphere_cell(res, f, u, v) + k] == #[trigger] sphere_corner(
                        res,
                        f,
                        u,
                        v,
                        k,
                    ),
                forall|cu: int, v: int, k: int|
                    0 <= cu < u && 0 <= v < res && 0 <= k < 6 ==> indices@[6 * sphere_cell(
                        res,
                        face as int,
                        cu,
                        v,
                    ) + k] == #[trigger] sphere_corner(res, face as int, cu, v, k),
                forall|i: int| 0 <= i < indices@.len() ==> #[trigger] indices@[i] < 6 * (n * n),
            decreases resolution - u,
        {
            let mut v: usize = 0;
            while v < resolution
                invariant
                    face < 6,
                    u < resolution,
                    v <= resolution,
                    res == resolution,
                    n == res + 1,
                    side == n,
                    6 * (n * n) <= usize::MAX,
                    base == face * (n * n),
                    vertices@.len() == base,
                    indices@.len() == 6 * sphere_cell(res, face as int, u as int, v as int),
                    forall|f: int, u: int, v: int, k: int|
                        0 <= f < face && 0 <= u < res && 0 <= v < res && 0 <= k < 6 ==> indices@[6
                            * sphere_cell(res, f, u, v) + k] == #[trigger] sphere_corner(
                            res,
                            f,
                            u,
                            v,
                            k,
                        ),
                    forall|cu: int, v: int, k: int|
                        0 <= cu < u && 0 <= v < res && 0 <= k < 6 ==> indices@[6 * sphere_cell(
                            res,
                            face as int,
                            cu,
                            v,
                        ) + k] == #[trigger] sphere_corner(res, face as int, cu, v, k),
                    forall|cv: int, k: int|
                        0 <= cv < v && 0 <= k < 6 ==> indices@[6 * sphere_cell(
                            res,
                            face as int,
                            u as int,
                            cv,
                        ) + k] == #[trigger] sphere_corner(res, face as int, u as int, cv, k),
                    forall|i: int|
                        0 <= i < indices@.len() ==> #[trigger] indices@[i] < 6 * (n * n),
                decreases resolution - v,
            {
                let ghost before = indices@;
                let ghost cell = sphere_cell(res, face as int, u as int, v as int);
                proof {
                    lemma_sphere_vertex_bound(res, face as int, u as int, v as int);
                    lemma_sphere_vertex_bound(res, face as int, u as int + 1, v as int + 1);
                    lemma_sphere_vertex_bound(res, face as int, u as int + 1, v as int);
                    lemma_sphere_vertex_bound(res, face as int, u as int, v as int + 1);
                    assert(0 <= u * side && u * side + side == (u + 1) * side) by (nonlinear_arith)
                        requires
                            0 <= u,
                            0 <= side,
                    ;
                    assert((u + 1) * side <= side * side) by (nonlinear_arith)
                        requires
                            u + 1 <= side,
                            0 <= side,
                    ;
                }
                let row = u * side;
                let next_row = (u + 1) * side;
                indices.push(base + v + row);
                indices.push(base + (v + 1) + next_row);
                indices.push(base + v + next_row);
                indices.push(base + (v + 1) + next_row);
                indices.push(base + v + row);
                indices.push(base + (v + 1) + row);
                proof {
                    assert forall|k: int| 0 <= k < 6 implies indices@[6 * cell + k]
                        == #[trigger] sphere_corner(res, face as int, u as int, v as int, k) by {}
                    assert forall|i: int| 0 <= i < before.len() implies indices@[i]
                        == before[i] by {}
                    assert forall|f: int, cu: int, cv: int, k: int|
                        0 <= f < face && 0 <= cu < res && 0 <= cv < res && 0 <= k
                            < 6 implies indices@[6 * sphere_cell(res, f, cu, cv) + k]
                        == #[trigger] sphere_corner(res, f, cu, cv, k) by {
                        lemma_sphere_cell_order(res, f, cu, cv, face as int, u as int, v as int);
                        assert(before[6 * sphere_cell(res, f, cu, cv) + k] == sphere_corner(
                            res,
                            f,
                            cu,
                            cv,
                            k,
                        ));
                    }
                    assert forall|cu: int, cv: int, k: int|
                        0 <= cu < u && 0 <= cv < res && 0 <= k < 6 implies indices@[6
                            * sphere_cell(res, face as int, cu, cv) + k]
                        == #[trigger] sphere_corner(res, face as int, cu, cv, k) by {
                        lemma_sphere_cell_order(
                            res,
                            face as int,
                            cu,
                            cv,
                            face as int,
                            u as int,
                            v as int,
                        );
                        assert(before[6 * sphere_cell(res, face as int, cu, cv) + k]
                            == sphere_corner(res, face as int, cu, cv, k));
                    }
                    assert forall|cv: int, k: int| 0 <= cv < v + 1 && 0 <= k < 6 implies indices@[6
                        * sphere_cell(res, face as int, u as int, cv) + k]
                        == #[trigger] sphere_corner(res, face as int, u as int, cv, k) by {
                        if cv < v {
                            lemma_sphere_cell_order(
                                res,
                                face as int,
                                u as int,
                                cv,
                                face as int,
                                u as int,
                                v as int,
                            );
                            assert(before[6 * sphere_cell(res, face as int, u as int, cv) + k]
                                == sphere_corner(res, face as int, u as int, cv, k));
                        }
                    }
                    assert forall|i: int| 0 <= i < indices@.len() implies #[trigger] indices@[i]
                        < 6 * (n * n) by {
                        if i < before.len() {
                            assert(indices@[i] == before[i]);
                        }
                    }
                }
                v += 1;
            }
            proof {
                assert(sphere_cell(res, face as int, u as int, res) == (face * res + (u + 1))
                    * res) by (nonlinear_arith)
                    requires
                        sphere_cell(res, face as int, u as int, res) == (face * res + u) * res
                            + res,
                ;
            }
            u += 1;
        }
        proof {
            assert((face * res + res) * res == (face + 1) * (res * res)) by (nonlinear_arith);
        }
        let mut u: usize = 0;
        while u <= resolution
            invariant
                face < 6,
                u <= resolution + 1,
                res == resolution,
                n == res + 1,
                side == n,
                6 * (n * n) <= usize::MAX,
                base == face * (n * n),
                forall|face: usize, u: usize, v: usize| call_requires(*vertex, (face, u, v)),
                vertices@.len() == base + u * n,
                forall|f: int, cu: int, cv: int|
                    0 <= f < face && 0 <= cu <= res && 0 <= cv <= res ==> call_ensures(
                        *vertex,
                        (f as usize, cu as usize, cv as usize),
                        vertices@[#[trigger] sphere_vertex(res, f, cu, cv)],
                    ),
                forall|cu: int, cv: int|
                    0 <= cu < u && 0 <= cv <= res ==> call_ensures(
                        *vertex,
                        (face, cu as usize, cv as usize),
                        vertices@[#[trigger] sphere_vertex(res, face as int, cu, cv)],
                    ),
            decreases resolution + 1 - u,
        {
            let mut v: usize = 0;
            while v <= resolution
                invariant
                    face < 6,
                    u <= resolution,
                    v <= resolution + 1,
                    res == resolution,
                    n == res + 1,
                    side == n,
                    6 * (n * n) <= usize::MAX,
                    base == face * (n * n),
                    forall|face: usize, u: usize, v: usize| call_requires(*vertex, (face, u, v)),
                    vertices@.len() == base + u * n + v,
                    forall|f: int, cu: int, cv: int|
                        0 <= f < face && 0 <= cu <= res && 0 <= cv <= res ==> call_ensures(
                            *vertex,
                            (f as usize, cu as usize, cv as usize),
                            vertices@[#[trigger] sphere_vertex(res, f, cu, cv)],
                        ),
                    forall|cu: int, cv: int|
                        0 <= cu < u && 0 <= cv <= res ==> call_ensures(
                            *vertex,
                            (face, cu as usize, cv as usize),
                            vertices@[#[trigger] sphere_vertex(res, face as int, cu, cv)],
                        ),
                    forall|cv: int|
                        0 <= cv < v ==> call_ensures(
                            *vertex,
                            (face, u, cv as usize),
                            vertices@[#[trigger] sphere_vertex(res, face as int, u as int, cv)],
                        ),
                decreases resolution + 1 - v,
            {
                let ghost before = vertices@;
                let made = vertex(face, u, v);
                vertices.push(made);
                proof {
                    assert(sphere_vertex(res, face as int, u as int, v as int) == before.len());
                    assert forall|f: int, cu: int, cv: int|
                        0 <= f < face && 0 <= cu <= res && 0 <= cv <= res implies call_ensures(
                        *vertex,
                        (f as usize, cu as usize, cv as usize),
                        vertices@[#[trigger] sphere_vertex(res, f, cu, cv)],
                    ) by {
                        lemma_sphere_vertex_bound(res, f, cu, cv);
                        assert((f + 1) * (n * n) <= face * (n * n)) by (nonlinear_arith)
                            requires
                                f + 1 <= face,
                                0 <= n * n,
                        ;
                        assert(vertices@[sphere_vertex(res, f, cu, cv)] == before[sphere_vertex(
                            res,
                            f,
                            cu,
                            cv,
                        )]);
                    }
                    assert forall|cu: int, cv: int| 0 <= cu < u && 0 <= cv <= res implies call_ensures(
                        *vertex,
                        (face, cu as usize, cv as usize),
                        vertices@[#[trigger] sphere_vertex(res, face as int, cu, cv)],
                    ) by {
                        assert(cu * n + n <= u * n) by (nonlinear_arith)
                            requires
                                cu + 1 <= u,
                                0 <= n,
                        ;
                        assert(vertices@[sphere_vertex(res, face as int, cu, cv)]
                            == before[sphere_vertex(res, face as int, cu, cv)]);
                    }
                    assert forall|cv: int| 0 <= cv < v + 1 implies call_ensures(
                        *vertex,
                        (face, u, cv as usize),
                        vertices@[#[trigger] sphere_vertex(res, face as int, u as int, cv)],
                    ) by {
                        if cv < v {
                            assert(vertices@[sphere_vertex(res, face as int, u as int, cv)]
                                == before[sphere_vertex(res, face as int, u as int, cv)]);
                        }
                    }
                }
                v += 1;
            }
            proof {
                assert(u * n + n == (u + 1) * n) by (nonlinear_arith);
            }
            u += 1;
        }
        proof {
            assert(face * (n * n) + n * n == (face + 1) * (n * n)) by (nonlinear_arith);
        }
        face += 1;
    }
    proof {
        assert(6 * (6 * (res * res)) == 36 * (res * res));
        assert(indices@.len() % 3 == 0) by (nonlinear_arith)
            requires
                indices@.len() == 6 * (6 * (res * res)),
        ;
    }
    (vertices, indices)
}

/// Cells that come earlier have smaller numbers, and each cell takes six
/// indices.
pub proof fn lemma_sphere_cell_order(
    resolution: int,
    f: int,
    cu: int,
    cv: int,
    face: int,
    u: int,
    v: int,
)
    requires
        0 <= f <= face,
        0 <= cu < resolution,
        0 <= cv < resolution,
        0 <= u < resolution,
        0 <= v < resolution,
        f < face || cu < u || (cu == u && cv < v),
    ensures
        0 <= sphere_cell(resolution, f, cu, cv) < sphere_cell(resolution, face, u, v),
{
    let r = resolution;
    assert(0 <= f * r + cu) by (nonlinear_arith)
        requires
            0 <= f,
            0 <= cu,
            0 <= r,
    ;
    assert(0 <= (f * r + cu) * r) by (nonlinear_arith)
        requires
            0 <= f * r + cu,
            0 <= r,
    ;
    if f < face {
        assert(f * r + cu + 1 <= face * r + u) by (nonlinear_arith)
            requires
                f + 1 <= face,
                cu < r,
                0 <= u,
                0 <= r,
        ;
        assert((f * r + cu) * r + r <= (face * r + u) * r) by (nonlinear_arith)
            requires
                f * r + cu + 1 <= face * r + u,
                0 <= r,
        ;
    } else if cu < u {
        assert((f * r + cu) * r + r <= (face * r + u) * r) by (nonlinear_arith)
            requires
                f == face,
                cu + 1 <= u,
                0 <= r,
        ;
    }
}

} // verus!
