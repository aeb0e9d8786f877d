//! Clipping of triangles against the near plane, and the order in which the
//! triangles of a mesh reach the screen.
//!
//! The library does not know what a vertex is.  It is told which vertices
//! lie beyond the plane and how an edge is cut, and decides which triangles
//! come out and from which vertices.

use vstd::prelude::*;

verus! {

/// What clipping made of a triangle.
pub enum ClipResult<W> {
    /// Nothing is left of it.
    Discard,
    /// One triangle.
    One([W; 3]),
    /// A quad, as two triangles.
    Two([W; 3], [W; 3]),
}

/// Where a vertex of a clipped triangle comes from.
pub enum Source {
    /// It is the vertex with this number of the triangle that was clipped.
    Kept(int),
    /// It is the point where the edge from the first vertex, which is kept, to
    /// the second, which is cut off, meets the plane.
    Cut(int, int),
}

/// The triangles that clipping leaves, and where each of their vertices
/// comes from, given which of the three vertices lie beyond the plane.
///
/// A triangle with no vertex beyond the plane stays; one with all three
/// beyond it goes.  With one vertex beyond the plane the two edges that lead
/// to it are cut, and the quad that is left is split along the diagonal from
/// the first cut to the vertex opposite.  With two vertices beyond the plane
/// the two edges from the third are cut and one triangle is left.  The
/// winding is kept.
pub open spec fn clip_plan(o0: bool, o1: bool, o2: bool) -> Seq<Seq<Source>> {
    if !o0 && !o1 && !o2 {
        seq![seq![Source::Kept(0), Source::Kept(1), Source::Kept(2)]]
    } else if o0 && o1 && o2 {
        seq![]
    } else if !o0 && !o1 && o2 {
        seq![
            seq![Source::Kept(0), Source::Kept(1), Source::Cut(1, 2)],
            seq![Source::Cut(1, 2), Source::Cut(0, 2), Source::Kept(0)],
        ]
    } else if !o0 && o1 && !o2 {
        seq![
            seq![Source::Kept(2), Source::Kept(0), Source::Cut(0, 1)],
            seq![Source::Cut(0, 1), Source::Cut(2, 1), Source::Kept(2)],
        ]
    } else if o0 && !o1 && !o2 {
        seq![
            seq![Source::Kept(1), Source::Kept(2), Source::Cut(2, 0)],
            seq![Source::Cut(2, 0), Source::Cut(1, 0), Source::Kept(1)],
        ]
    } else if !o0 && o1 && o2 {
        seq![seq![Source::Kept(0), Source::Cut(0, 1), Source::Cut(0, 2)]]
    } else if o0 && !o1 && o2 {
        seq![seq![Source::Cut(1, 0), Source::Kept(1), Source::Cut(1, 2)]]
    } else {
        seq![seq![Source::Cut(2, 0), Source::Cut(2, 1), Source::Kept(2)]]
    }
}

/// Whether vertex `i` lies beyond the plane.
pub open spec fn is_beyond(o0: bool, o1: bool, o2: bool, i: int) -> bool {
    if i == 0 {
        o0
    } else if i == 1 {
        o1
    } else {
        o2
    }
}

/// No vertex of a clipped triangle lies beyond the plane: each one is either
/// a vertex that does not lie beyond it, or the cut of an edge that leads
/// from such a vertex to one that does.  No triangle is left exactly when all
/// three vertices lie beyond the plane, and two are left exactly when one
/// does.
pub proof fn law_clip_keeps_inside(o0: bool, o1: bool, o2: bool)
    ensures
        forall|t: int, k: int|
            0 <= t < clip_plan(o0, o1, o2).len() && 0 <= k < 3 ==> match (#[trigger] clip_plan(
                o0,
                o1,
                o2,
            )[t][k]) {
                Source::Kept(i) => 0 <= i < 3 && !is_beyond(o0, o1, o2, i),
                Source::Cut(i, j) => 0 <= i < 3 && 0 <= j < 3 && !is_beyond(o0, o1, o2, i)
                    && is_beyond(o0, o1, o2, j),
            },
        forall|t: int| 0 <= t < clip_plan(o0, o1, o2).len() ==> (#[trigger] clip_plan(o0, o1, o2)[t]).len() == 3,
        clip_plan(o0, o1, o2).len() == 0 <==> o0 && o1 && o2,
        clip_plan(o0, o1, o2).len() == 2 <==> (o0 && !o1 && !o2) || (!o0 && o1 && !o2) || (!o0
            && !o1 && o2),
        clip_plan(o0, o1, o2).len() <= 2,
{
}

/// What the edge from vertex `i` to vertex `j` gives to the polygon that the
/// plane cuts from the triangle: the vertex `i` where it is kept, and the cut
/// of the edge where one end is kept and the other is not.
pub open spec fn edge_part(i: int, j: int, oi: bool, oj: bool) -> Seq<Source> {
    let start = if oi {
        Seq::<Source>::empty()
    } else {
        seq![Source::Kept(i)]
    };
    if oi == oj {
        start
    } else if oi {
        start.push(Source::Cut(j, i))
    } else {
        start.push(Source::Cut(i, j))
    }
}

/// The polygon that the plane cuts from the triangle: the part of the
/// triangle that does not lie beyond the plane, its corners listed in the
/// winding of the triangle.
pub open spec fn clip_polygon(o0: bool, o1: bool, o2: bool) -> Seq<Source> {
    edge_part(0, 1, o0, o1) + edge_part(1, 2, o1, o2) + edge_part(2, 0, o2, o0)
}

/// The triangles are the polygon itself where it has three corners, and the
/// polygon split along a diagonal where it has four; `first` is the corner
/// that the first triangle starts from.
pub open spec fn is_triangulation(
    triangles: Seq<Seq<Source>>,
    polygon: Seq<Source>,
    first: int,
) -> bool {
    let n = polygon.len() as int;
    if n == 0 {
        triangles.len() == 0
    } else if n == 3 {
        &&& 0 <= first < 3
        &&& triangles == seq![
            seq![polygon[first], polygon[(first + 1) % 3], polygon[(first + 2) % 3]],
        ]
    } else {
        &&& n == 4
        &&& 0 <= first < 4
        &&& triangles == seq![
            seq![polygon[first], polygon[(first + 1) % 4], polygon[(first + 2) % 4]],
            seq![polygon[(first + 2) % 4], polygon[(first + 3) % 4], polygon[first]],
        ]
    }
}

/// The triangles that clipping leaves cover the part of the triangle that
/// does not lie beyond the plane, and nothing else: they are the polygon that
/// the plane cuts from the triangle, split along one diagonal where it has
/// four corners, with the winding kept.
pub proof fn law_clip_is_triangulation(o0: bool, o1: bool, o2: bool)
    ensures
        exists|first: int| #[trigger]
            is_triangulation(clip_plan(o0, o1, o2), clip_polygon(o0, o1, o2), first),
{
    let plan = clip_plan(o0, o1, o2);
    let polygon = clip_polygon(o0, o1, o2);
    let first: int = if !o0 && o1 && !o2 {
        3
    } else if o0 && !o1 && !o2 {
        1
    } else if o0 && o1 && !o2 {
        2
    } else {
        0
    };
    if o0 && o1 && o2 {
        assert(polygon =~= Seq::<Source>::empty());
    } else if !o0 && !o1 && !o2 {
        assert(polygon =~= seq![Source::Kept(0), Source::Kept(1), Source::Kept(2)]);
    } else if !o0 && !o1 && o2 {
        assert(polygon =~= seq![
            Source::Kept(0),
            Source::Kept(1),
            Source::Cut(1, 2),
            Source::Cut(0, 2),
        ]);
    } else if !o0 && o1 && !o2 {
        assert(polygon =~= seq![
            Source::Kept(0),
            Source::Cut(0, 1),
            Source::Cut(2, 1),
            Source::Kept(2),
        ]);
    } else if o0 && !o1 && !o2 {
        assert(polygon =~= seq![
            Source::Cut(1, 0),
            Source::Kept(1),
            Source::Kept(2),
            Source::Cut(2, 0),
        ]);
    } else if !o0 && o1 && o2 {
        assert(polygon =~= seq![Source::Kept(0), Source::Cut(0, 1), Source::Cut(0, 2)]);
    } else if o0 && !o1 && o2 {
        assert(polygon =~= seq![Source::Cut(1, 0), Source::Kept(1), Source::Cut(1, 2)]);
    } else {
        assert(polygon =~= seq![Source::Cut(2, 1), Source::Kept(2), Source::Cut(2, 0)]);
    }
    if polygon.len() == 3 {
        assert(plan =~= seq![
            seq![polygon[first], polygon[(first + 1) % 3], polygon[(first + 2) % 3]],
        ]) by {
            assert(plan[0] =~= seq![
                polygon[first],
                polygon[(first + 1) % 3],
                polygon[(first + 2) % 3],
            ]);
        }
    } else if polygon.len() == 4 {
        assert(plan =~= seq![
            seq![polygon[first], polygon[(first + 1) % 4], polygon[(first + 2) % 4]],
            seq![polygon[(first + 2) % 4], polygon[(first + 3) % 4], polygon[first]],
        ]) by {
            assert(plan[0] =~= seq![
                polygon[first],
                polygon[(first + 1) % 4],
                polygon[(first + 2) % 4],
            ]);
            assert(plan[1] =~= seq![
                polygon[(first + 2) % 4],
                polygon[(first + 3) % 4],
                polygon[first],
            ]);
        }
    }
    assert(is_triangulation(plan, polygon, first));
}

/// The triangles of a clip result, in their order.
pub open spec fn triangles_of<W>(r: ClipResult<W>) -> Seq<Seq<W>> {
    match r {
        ClipResult::Discard => seq![],
        ClipResult::One(a) => seq![a@],
        ClipResult::Two(a, b) => seq![a@, b@],
    }
}

/// `w` is the vertex that comes from `source`, for the triangle `v`: the
/// vertex itself, or what `clip_edge` made of the edge.
pub open spec fn is_from<W, E: Fn(&W, &W) -> W>(clip_edge: &E, v: Seq<W>, source: Source, w: W) -> bool {
    match source {
        Source::Kept(i) => w == v[i],
        Source::Cut(i, j) => call_ensures(*clip_edge, (&v[i], &v[j]), w),
    }
}

/// `r` is the triangle `v` clipped, where `o0`, `o1` and `o2` say which of
/// its vertices lie beyond the plane: the triangles of the plan, each vertex
/// from its source, and each edge cut once.
pub open spec fn is_clipped<W, E: Fn(&W, &W) -> W>(
    clip_edge: &E,
    v: Seq<W>,
    o0: bool,
    o1: bool,
    o2: bool,
    r: ClipResult<W>,
) -> bool {
    let plan = clip_plan(o0, o1, o2);
    let triangles = triangles_of(r);
    &&& triangles.len() == plan.len()
    &&& forall|t: int, k: int|
        0 <= t < plan.len() && 0 <= k < 3 ==> is_from(
            clip_edge,
            v,
            plan[t][k],
            #[trigger] triangles[t][k],
        )
    &&& forall|t: int, k: int, u: int, l: int|
        0 <= t < plan.len() && 0 <= k < 3 && 0 <= u < plan.len() && 0 <= l < 3 && plan[t][k]
            == plan[u][l] ==> #[trigger] triangles[t][k] == #[trigger] triangles[u][l]
}

/// `r` is the triangle `v` clipped, `is_outside` having said of each vertex
/// whether it lies beyond the plane.
pub open spec fn is_clip_of<W, O: Fn(&W) -> bool, E: Fn(&W, &W) -> W>(
    is_outside: &O,
    clip_edge: &E,
    v: Seq<W>,
    o0: bool,
    o1: bool,
    o2: bool,
    r: ClipResult<W>,
) -> bool {
    &&& call_ensures(*is_outside, (&v[0],), o0)
    &&& call_ensures(*is_outside, (&v[1],), o1)
    &&& call_ensures(*is_outside, (&v[2],), o2)
    &&& is_clipped(clip_edge, v, o0, o1, o2, r)
}

/// Clips a triangle against the near plane.  `is_outside` says whether a
/// vertex lies beyond the plane, and `clip_edge` gives the point where the
/// edge from a vertex that is kept to one that is cut off meets the plane.
pub fn clip_triangle<W: Copy, O: Fn(&W) -> bool, E: Fn(&W, &W) -> W>(
    vertices: [W; 3],
    is_outside: &O,
    clip_edge: &E,
) -> (r: ClipResult<W>)
    requires
        forall|w: &W| call_requires(*is_outside, (w,)),
        forall|a: &W, b: &W| call_requires(*clip_edge, (a, b)),
    ensures
        exists|o0: bool, o1: bool, o2: bool| #[trigger]
            is_clip_of(is_outside, clip_edge, vertices@, o0, o1, o2, r),
{
    let o0 = is_outside(&vertices[0]);
    let o1 = is_outside(&vertices[1]);
    let o2 = is_outside(&vertices[2]);
    let r = match (o0, o1, o2) {
        (false, false, false) => ClipResult::One(vertices),
        (true, true, true) => ClipResult::Discard,
        (false, false, true) => {
            let v2 = clip_edge(&vertices[1], &vertices[2]);
            let v3 = clip_edge(&vertices[0], &vertices[2]);
            ClipResult::Two([vertices[0], vertices[1], v2], [v2, v3, vertices[0]])
        },
        (false, true, false) => {
            let v1 = clip_edge(&vertices[0], &vertices[1]);
            let v3 = clip_edge(&vertices[2], &vertices[1]);
            ClipResult::Two([vertices[2], vertices[0], v1], [v1, v3, vertices[2]])
        },
        (true, false, false) => {
            let v0 = clip_edge(&vertices[2], &vertices[0]);
            let v3 = clip_edge(&vertices[1], &vertices[0]);
            ClipResult::Two([vertices[1], vertices[2], v0], [v0, v3, vertices[1]])
        },
        (false, true, true) => {
            let v1 = clip_edge(&vertices[0], &vertices[1]);
            let v2 = clip_edge(&vertices[0], &vertices[2]);
            ClipResult::One([vertices[0], v1, v2])
        },
        (true, false, true) => {
            let v0 = clip_edge(&vertices[1], &vertices[0]);
            let v2 = clip_edge(&vertices[1], &vertices[2]);
            ClipResult::One([v0, vertices[1], v2])
        },
        (true, true, false) => {
            let v0 = clip_edge(&vertices[2], &vertices[0]);
            let v1 = clip_edge(&vertices[2], &vertices[1]);
            ClipResult::One([v0, v1, vertices[2]])
        },
    };
    proof {
        assert(is_clipped(clip_edge, vertices@, o0, o1, o2, r));
        assert(is_clip_of(is_outside, clip_edge, vertices@, o0, o1, o2, r));
    }
    r
}

/// Whatever a predicate `inside` means, if it holds of the vertices that do
/// not lie beyond the plane and of every point that `clip_edge` gives, then
/// it holds of every vertex of every triangle that clipping leaves.
pub proof fn law_clipped_vertices_inside<W, E: Fn(&W, &W) -> W>(
    clip_edge: &E,
    v: Seq<W>,
    o0: bool,
    o1: bool,
    o2: bool,
    r: ClipResult<W>,
    inside: spec_fn(W) -> bool,
)
    requires
        v.len() == 3,
        is_clipped(clip_edge, v, o0, o1, o2, r),
        forall|i: int| 0 <= i < 3 && !is_beyond(o0, o1, o2, i) ==> inside(#[trigger] v[i]),
        forall|a: &W, b: &W, w: W| #[trigger] call_ensures(*clip_edge, (a, b), w) ==> inside(w),
    ensures
        forall|t: int, k: int|
            0 <= t < triangles_of(r).len() && 0 <= k < 3 ==> inside(
                #[trigger] triangles_of(r)[t][k],
            ),
{
    law_clip_keeps_inside(o0, o1, o2);
    let plan = clip_plan(o0, o1, o2);
    assert forall|t: int, k: int| 0 <= t < triangles_of(r).len() && 0 <= k < 3 implies inside(
        #[trigger] triangles_of(r)[t][k],
    ) by {
        assert(is_from(clip_edge, v, plan[t][k], triangles_of(r)[t][k]));
        match plan[t][k] {
            Source::Kept(i) => {
                assert(inside(v[i]));
            },
            Source::Cut(i, j) => {},
        }
    }
}

/// `out` is what `project` made of the clipped triangle `triangle`: its
/// projection, or nothing where `project` dropped it.
pub open spec fn is_projection_of<W, T, Pj: Fn(&[W; 3]) -> Option<T>>(
    project: &Pj,
    triangle: Seq<W>,
    corners: [W; 3],
    projected: Option<T>,
    out: Seq<T>,
) -> bool {
    &&& corners@ == triangle
    &&& call_ensures(*project, (&corners,), projected)
    &&& out == match projected {
        Some(t) => seq![t],
        None => Seq::<T>::empty(),
    }
}

/// `out` is what `project` made of the clipped triangle `triangle`.
pub open spec fn is_projection<W, T, Pj: Fn(&[W; 3]) -> Option<T>>(
    project: &Pj,
    triangle: Seq<W>,
    out: Seq<T>,
) -> bool {
    exists|corners: [W; 3], projected: Option<T>| #[trigger]
        is_projection_of(project, triangle, corners, projected, out)
}

/// `out` is what the triangle with the vertex indices `i0`, `i1` and `i2`
/// adds to the frame: its vertices `v` as `view_vertex` gave them, clipped to
/// `r`, and the projections `first` and `second` of what clipping left.
pub open spec fn is_triangle_step<
    W,
    T,
    A: Fn(usize) -> W,
    O: Fn(&W) -> bool,
    E: Fn(&W, &W) -> W,
    Pj: Fn(&[W; 3]) -> Option<T>,
>(
    view_vertex: &A,
    is_outside: &O,
    clip_edge: &E,
    project: &Pj,
    corners: (usize, usize, usize),
    v: Seq<W>,
    beyond: (bool, bool, bool),
    r: ClipResult<W>,
    first: Seq<T>,
    second: Seq<T>,
    out: Seq<T>,
) -> bool {
    &&& v.len() == 3
    &&& call_ensures(*view_vertex, (corners.0,), v[0])
    &&& call_ensures(*view_vertex, (corners.1,), v[1])
    &&& call_ensures(*view_vertex, (corners.2,), v[2])
    &&& is_clip_of(is_outside, clip_edge, v, beyond.0, beyond.1, beyond.2, r)
    &&& match r {
        ClipResult::Discard => first.len() == 0 && second.len() == 0,
        ClipResult::One(a) => is_projection(project, a@, first) && second.len() == 0,
        ClipResult::Two(a, b) => is_projection(project, a@, first) && is_projection(
            project,
            b@,
            second,
        ),
    }
    &&& out == first + second
}

/// `out` is what the triangle with the vertex indices `corners` adds to the
/// frame's triangles: the projections of what clipping leaves of it, in the
/// order of the clip result.
pub open spec fn is_triangle_output<
    W,
    T,
    A: Fn(usize) -> W,
    O: Fn(&W) -> bool,
    E: Fn(&W, &W) -> W,
    Pj: Fn(&[W; 3]) -> Option<T>,
>(
    view_vertex: &A,
    is_outside: &O,
    clip_edge: &E,
    project: &Pj,
    corners: (usize, usize, usize),
    out: Seq<T>,
) -> bool {
    exists|v: Seq<W>, beyond: (bool, bool, bool), r: ClipResult<W>, first: Seq<T>, second: Seq<T>| #[trigger]
        is_triangle_step(
            view_vertex,
            is_outside,
            clip_edge,
            project,
            corners,
            v,
            beyond,
            r,
            first,
            second,
            out,
        )
}

/// `out` is `before` followed by `piece`.
pub open spec fn is_appended<T>(before: Seq<T>, piece: Seq<T>, out: Seq<T>) -> bool {
    out == before + piece
}

/// `out` is what the first `n` triangles of `indices` add to the frame's
/// triangles, one after the other.
pub open spec fn is_output<
    W,
    T,
    A: Fn(usize) -> W,
    O: Fn(&W) -> bool,
    E: Fn(&W, &W) -> W,
    Pj: Fn(&[W; 3]) -> Option<T>,
>(
    view_vertex: &A,
    is_outside: &O,
    clip_edge: &E,
    project: &Pj,
    indices: Seq<usize>,
    n: int,
    out: Seq<T>,
) -> bool
    decreases n,
{
    if n <= 0 {
        out.len() == 0
    } else {
        exists|before: Seq<T>, piece: Seq<T>|
            is_output(view_vertex, is_outside, clip_edge, project, indices, n - 1, before)
                && #[trigger] is_appended(before, piece, out) && is_triangle_output(
                view_vertex,
                is_outside,
                clip_edge,
                project,
                (indices[3 * (n - 1)], indices[3 * (n - 1) + 1], indices[3 * (n - 1) + 2]),
                piece,
            )
    }
}

/// Projects one clipped triangle and adds it to `out`, unless `project`
/// drops it.
fn emit<W: Copy, T, Pj: Fn(&[W; 3]) -> Option<T>>(project: &Pj, triangle: &[W; 3], out: &mut Vec<T>)
    requires
        forall|corners: &[W; 3]| call_requires(*project, (corners,)),
    ensures
        old(out)@.len() <= final(out)@.len(),
        final(out)@ == old(out)@ + final(out)@.skip(old(out)@.len() as int),
        is_projection(project, triangle@, final(out)@.skip(old(out)@.len() as int)),
{
    let projected = project(triangle);
    let ghost result = projected;
    let ghost piece = if result.is_some() {
        seq![result.unwrap()]
    } else {
        Seq::<T>::empty()
    };
    proof {
        assert(is_projection_of(project, triangle@, *triangle, result, piece));
    }
    match projected {
        Some(t) => {
            out.push(t);
        },
        None => {},
    }
    proof {
        assert(out@.skip(old(out)@.len() as int) =~= piece);
        assert(out@ =~= old(out)@ + piece);
    }
}

/// Brings the triangles of a mesh to the screen and adds them to `out`.
///
/// `indices` lists the triangles as triples of vertex indices; indices after
/// the last whole triple are left alone.  For each triangle, in the order of
/// the list, `view_vertex` gives the three vertices as the camera sees them,
/// the triangle is clipped against the near plane, and `project` turns what
/// is left into triangles of the screen; it may drop a triangle, as one that
/// faces away from the camera.
pub fn project_triangles<
    W: Copy,
    T,
    A: Fn(usize) -> W,
    O: Fn(&W) -> bool,
    E: Fn(&W, &W) -> W,
    Pj: Fn(&[W; 3]) -> Option<T>,
>(
    indices: &[usize],
    view_vertex: &A,
    is_outside: &O,
    clip_edge: &E,
    project: &Pj,
    out: &mut Vec<T>,
)
    requires
        forall|k: int|
            0 <= k < indices@.len() ==> call_requires(*view_vertex, (#[trigger] indices@[k],)),
        forall|w: &W| call_requires(*is_outside, (w,)),
        forall|a: &W, b: &W| call_requires(*clip_edge, (a, b)),
        forall|corners: &[W; 3]| call_requires(*project, (corners,)),
    ensures
        old(out)@.len() <= final(out)@.len(),
        final(out)@.take(old(out)@.len() as int) == old(out)@,
        is_output(
            view_vertex,
            is_outside,
            clip_edge,
            project,
            indices@,
            indices@.len() as int / 3,
            final(out)@.skip(old(out)@.len() as int),
        ),
{
    let len = indices.len();
    let count = len / 3;
    let ghost mut added: Seq<T> = Seq::empty();
    let mut t: usize = 0;
    proof {
        assert(out@ =~= old(out)@ + added);
    }
    while t < count
        invariant
            t <= count,
            len == indices@.len(),
            count == len / 3,
            out@ == old(out)@ + added,
            is_output(view_vertex, is_outside, clip_edge, project, indices@, t as int, added),
            forall|k: int|
                0 <= k < indices@.len() ==> call_requires(*view_vertex, (#[trigger] indices@[k],)),
            forall|w: &W| call_requires(*is_outside, (w,)),
            forall|a: &W, b: &W| call_requires(*clip_edge, (a, b)),
            forall|corners: &[W; 3]| call_requires(*project, (corners,)),
        decreases count - t,
    {
        let i0 = indices[3 * t];
        let i1 = indices[3 * t + 1];
        let i2 = indices[3 * t + 2];
        let vertices = [view_vertex(i0), view_vertex(i1), view_vertex(i2)];
        let clipped = clip_triangle(vertices, is_outside, clip_edge);
        let ghost beyond = choose|o0: bool, o1: bool, o2: bool| #[trigger]
            is_clip_of(is_outside, clip_edge, vertices@, o0, o1, o2, clipped);
        let ghost before = added;
        let ghost mut first: Seq<T> = Seq::empty();
        let ghost mut second: Seq<T> = Seq::empty();
        match &clipped {
            ClipResult::Discard => {},
            ClipResult::One(a) => {
                let ghost start = out@;
                emit(project, a, out);
                proof {
                    first = out@.skip(start.len() as int);
                }
            },
            ClipResult::Two(a, b) => {
                let ghost start = out@;
                emit(project, a, out);
                let ghost middle = out@;
                emit(project, b, out);
                proof {
                    first = middle.skip(start.len() as int);
                    second = out@.skip(middle.len() as int);
                }
            },
        }
        proof {
            let piece = first + second;
            added = before + piece;
            assert(out@ =~= old(out)@ + added);
            assert(is_triangle_step(
                view_vertex,
                is_outside,
                clip_edge,
                project,
                (i0, i1, i2),
                vertices@,
                beyond,
                clipped,
                first,
                second,
                piece,
            ));
            assert(is_appended(before, piece, added));
        }
        t += 1;
    }
    proof {
        assert(out@.take(old(out)@.len() as int) =~= old(out)@);
        assert(out@.skip(old(out)@.len() as int) =~= added);
    }
}

} // verus!
