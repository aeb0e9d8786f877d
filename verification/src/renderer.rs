//! The frame: what is cleared, what is drawn, and which placements are
//! looked at.

use crate::asset_manager::AssetManager;
use crate::framebuffer::Framebuffer;
use crate::line::LineRenderer;
use crate::model::mesh::Mesh;
use crate::tile::TileRenderer;
use vstd::prelude::*;

verus! {

/// The placement `first` comes before the placement `second`: it belongs to
/// an earlier mesh, or to the same mesh and stands before it there.
pub open spec fn comes_before(first: (usize, usize), second: (usize, usize)) -> bool {
    first.0 < second.0 || (first.0 == second.0 && first.1 < second.1)
}

/// The pair names a placement: a mesh of the list and a place in the storage
/// of that mesh's placements.
pub open spec fn is_placement_of<V, P, B, X>(meshes: Seq<Mesh<V, P, B, X>>, pair: (usize, usize)) -> bool {
    pair.0 < meshes.len() && pair.1 < meshes[pair.0 as int].instances.dense().len()
}

/// The view-space box of a placement.
pub open spec fn view_bounds_of<V, P, B, X>(meshes: Seq<Mesh<V, P, B, X>>, pair: (usize, usize)) -> B {
    meshes[pair.0 as int].instances.dense()[pair.1 as int].view_bounds
}

/// `list` holds, in their order, the placements that come before `end` and
/// whose view-space box `visible` accepted; it rejected every other
/// placement that comes before `end`.
pub open spec fn is_visible_list<V, P, B, X, F: Fn(&B) -> bool>(
    visible: &F,
    meshes: Seq<Mesh<V, P, B, X>>,
    end: (usize, usize),
    list: Seq<(usize, usize)>,
) -> bool {
    &&& forall|k: int|
        0 <= k < list.len() ==> is_placement_of(meshes, #[trigger] list[k]) && comes_before(
            list[k],
            end,
        ) && call_ensures(*visible, (&view_bounds_of(meshes, list[k]),), true)
    &&& forall|j: int, k: int|
        0 <= j < k < list.len() ==> comes_before(#[trigger] list[j], #[trigger] list[k])
    &&& forall|pair: (usize, usize)|
        #[trigger] is_placement_of(meshes, pair) && comes_before(pair, end) ==> list.contains(pair)
            || call_ensures(*visible, (&view_bounds_of(meshes, pair),), false)
}

/// The placements that are looked at in a frame: those whose view-space box
/// `visible` accepts, mesh by mesh and, in each mesh, in the order in which
/// the placements are stored.  Each one is named by the place of its mesh in
/// `meshes` and its own place in the storage of that mesh's placements.
pub fn visible_instances<V, P, B: Copy, X, F: Fn(&B) -> bool>(meshes: &[Mesh<V, P, B, X>], visible: &F) -> (list:
    Vec<(usize, usize)>)
    requires
        forall|b: &B| call_requires(*visible, (b,)),
    ensures
        is_visible_list(visible, meshes@, (meshes@.len() as usize, 0usize), list@),
{
    let mut list: Vec<(usize, usize)> = Vec::new();
    let count = meshes.len();
    let mut m: usize = 0;
    while m < count
        invariant
            m <= count,
            count == meshes@.len(),
            forall|b: &B| call_requires(*visible, (b,)),
            is_visible_list(visible, meshes@, (m, 0usize), list@),
        decreases count - m,
    {
        let instances = meshes[m].instances.values();
        let mut p: usize = 0;
        while p < instances.len()
            invariant
                m < count,
                count == meshes@.len(),
                p <= instances@.len(),
                instances@ == meshes@[m as int].instances.dense(),
                forall|b: &B| call_requires(*visible, (b,)),
                is_visible_list(visible, meshes@, (m, p), list@),
            decreases instances@.len() - p,
        {
            let ghost before = list@;
            let seen = visible(&instances[p].view_bounds);
            if seen {
                list.push((m, p));
            }
            proof {
                let end = (m, (p + 1) as usize);
                assert forall|k: int| 0 <= k < list@.len() implies is_placement_of(
                    meshes@,
                    #[trigger] list@[k],
                ) && comes_before(list@[k], end) && call_ensures(
                    *visible,
                    (&view_bounds_of(meshes@, list@[k]),),
                    true,
                ) by {
                    if k < before.len() {
                        assert(list@[k] == before[k]);
                    }
                }
                assert forall|j: int, k: int| 0 <= j < k < list@.len() implies comes_before(
                    #[trigger] list@[j],
                    #[trigger] list@[k],
                ) by {
                    assert(list@[j] == before[j]);
                    if k < before.len() {
                        assert(list@[k] == before[k]);
                    }
                }
                assert forall|pair: (usize, usize)|
                    #[trigger] is_placement_of(meshes@, pair) && comes_before(
                        pair,
                        end,
                    ) implies list@.contains(pair) || call_ensures(
                    *visible,
                    (&view_bounds_of(meshes@, pair),),
                    false,
                ) by {
                    if pair == (m, p) {
                        if seen {
                            assert(list@[before.len() as int] == pair);
                        }
                    } else {
                        assert(comes_before(pair, (m, p)));
                        if before.contains(pair) {
                            let k = choose|k: int| 0 <= k < before.len() && before[k] == pair;
                            assert(list@[k] == pair);
                        }
                    }
                }
            }
            p += 1;
        }
        proof {
            let end = ((m + 1) as usize, 0usize);
            assert forall|pair: (usize, usize)|
                #[trigger] is_placement_of(meshes@, pair) && comes_before(
                    pair,
                    end,
                ) implies list@.contains(pair) || call_ensures(
                *visible,
                (&view_bounds_of(meshes@, pair),),
                false,
            ) by {
                assert(comes_before(pair, (m, p)));
            }
        }
        m += 1;
    }
    list
}

/// The renderer's own state: the framebuffer with the colour and the depth
/// that a frame starts from, the tile grid, the assets, and the triangles of
/// the frame.  The parts are public, so that a frame can read the assets and
/// the triangles while it draws on the framebuffer.
///
/// `C` is the type of a colour, `D` that of a depth, `T` that of a triangle
/// on the screen, `V` that of a vertex, `P` that of a position in the world
/// and `B` that of a bounding box.
pub struct Renderer<C, D, T, V, P, B> {
    pub framebuffer: Framebuffer<C, D>,
    pub tile_renderer: TileRenderer,
    pub line_renderer: LineRenderer,
    pub assets: AssetManager<V, P, B, C>,
    pub projected_triangles: Vec<T>,
    pub clear_colour: C,
    pub far: D,
}

impl<C: Copy, D: Copy, T, V, P, B: Copy> Renderer<C, D, T, V, P, B> {
    /// The framebuffer and the assets are valid, and the tile grid is either
    /// that of the framebuffer or still empty.
    pub open spec fn wf(&self) -> bool {
        &&& self.framebuffer.wf()
        &&& self.tile_renderer.wf()
        &&& self.tile_renderer.is_drained()
        &&& self.assets.wf()
        &&& (self.tile_renderer@.len() == 0 || (self.tile_renderer.spec_width()
            == self.framebuffer.spec_width() && self.tile_renderer.spec_height()
            == self.framebuffer.spec_height()))
    }

    /// A renderer with a `width` by `height` framebuffer, no assets and no
    /// tile grid: the grid is built when the viewport is first set.
    pub fn new(width: usize, height: usize, clear_colour: C, far: D) -> (r: Self)
        requires
            width * height <= usize::MAX,
        ensures
            r.wf(),
            r.framebuffer.spec_width() == width,
            r.framebuffer.spec_height() == height,
            r.tile_renderer@.len() == 0,
            r.projected_triangles@.len() == 0,
            r.clear_colour == clear_colour,
            r.far == far,
            forall|i: int| 0 <= i < width * height ==> #[trigger] r.framebuffer.colours()[i] == clear_colour,
            forall|i: int| 0 <= i < width * height ==> #[trigger] r.framebuffer.depths()[i] == far,
    {
        Self {
            framebuffer: Framebuffer::new(width, height, clear_colour, far),
            tile_renderer: TileRenderer::new(),
            line_renderer: LineRenderer,
            assets: AssetManager::new(),
            projected_triangles: Vec::new(),
            clear_colour,
            far,
        }
    }

    /// The width of the framebuffer.
    pub fn internal_width(&self) -> (w: usize)
        ensures
            w == self.framebuffer.spec_width(),
    {
        self.framebuffer.width()
    }

    /// The height of the framebuffer.
    pub fn internal_height(&self) -> (h: usize)
        ensures
            h == self.framebuffer.spec_height(),
    {
        self.framebuffer.height()
    }

    /// The colour plane, row by row.
    pub fn pixels(&self) -> (r: &[C])
        ensures
            r@ == self.framebuffer.colours(),
    {
        self.framebuffer.pixels()
    }

    /// The colour that a frame starts from.
    pub fn set_clear_colour(&mut self, colour: C)
        ensures
            final(self).clear_colour == colour,
            final(self).framebuffer == old(self).framebuffer,
            final(self).tile_renderer == old(self).tile_renderer,
            final(self).assets == old(self).assets,
            final(self).projected_triangles == old(self).projected_triangles,
            final(self).far == old(self).far,
    {
        self.clear_colour = colour;
    }

    /// Sets the size of the framebuffer and rebuilds the tile grid for it.  A
    /// width or a height of zero counts as one.  Every pixel gets the clear
    /// colour and the far depth.
    pub fn update_viewport(&mut self, width: usize, height: usize)
        requires
            old(self).assets.wf(),
            (if width == 0 {
                1
            } else {
                width as int
            }) * (if height == 0 {
                1
            } else {
                height as int
            }) <= usize::MAX,
        ensures
            final(self).wf(),
            final(self).framebuffer.spec_width() == (if width == 0 {
                1
            } else {
                width
            }),
            final(self).framebuffer.spec_height() == (if height == 0 {
                1
            } else {
                height
            }),
            final(self).tile_renderer.spec_width() == final(self).framebuffer.spec_width(),
            final(self).tile_renderer.spec_height() == final(self).framebuffer.spec_height(),
            forall|i: int|
                0 <= i < final(self).framebuffer.colours().len() ==> #[trigger] final(self).framebuffer.colours()[i] == old(self).clear_colour,
            forall|i: int|
                0 <= i < final(self).framebuffer.depths().len() ==> #[trigger] final(self).framebuffer.depths()[i] == old(self).far,
            final(self).assets == old(self).assets,
            final(self).projected_triangles == old(self).projected_triangles,
            final(self).clear_colour == old(self).clear_colour,
            final(self).far == old(self).far,
    {
        let width = if width == 0 {
            1
        } else {
            width
        };
        let height = if height == 0 {
            1
        } else {
            height
        };
        self.framebuffer = Framebuffer::new(width, height, self.clear_colour, self.far);
        self.tile_renderer.update_viewport(width, height);
        self.line_renderer.update_viewport(width, height);
    }

    /// Starts a frame: every pixel gets the clear colour and the far depth,
    /// and the frame has no triangle yet.
    pub fn clear(&mut self)
        requires
            old(self).wf(),
        ensures
            final(self).wf(),
            final(self).framebuffer.spec_width() == old(self).framebuffer.spec_width(),
            final(self).framebuffer.spec_height() == old(self).framebuffer.spec_height(),
            forall|i: int|
                0 <= i < final(self).framebuffer.colours().len() ==> #[trigger] final(self).framebuffer.colours()[i] == old(self).clear_colour,
            forall|i: int|
                0 <= i < final(self).framebuffer.depths().len() ==> #[trigger] final(self).framebuffer.depths()[i] == old(self).far,
            final(self).projected_triangles@.len() == 0,
            final(self).tile_renderer == old(self).tile_renderer,
            final(self).assets == old(self).assets,
            final(self).clear_colour == old(self).clear_colour,
            final(self).far == old(self).far,
    {
        self.framebuffer.clear_colour_buffer(self.clear_colour);
        self.framebuffer.clear_depth_buffer(self.far);
        self.projected_triangles.clear();
    }
}

} // verus!
