//! The screen as a grid of tiles: which tile a pixel belongs to, which
//! triangles are binned to which tile, and the walk over a tile's pixels.

use crate::framebuffer::Framebuffer;
use crate::sat::Overlap;
use crate::{TILE_HEIGHT, TILE_WIDTH};
use vstd::prelude::*;

verus! {

/// How a binned triangle covers its tile.
#[derive(Clone, Copy, Debug)]
pub enum Cover {
    Partial,
    Full,
}

/// A rectangle of pixels: the columns `min_x..max_x` of the rows
/// `min_y..max_y`.
#[derive(Clone, Copy, Debug)]
pub struct Bounds {
    pub min_x: usize,
    pub min_y: usize,
    pub max_x: usize,
    pub max_y: usize,
}

impl Bounds {
    /// Whether the pixel `(x, y)` lies in the rectangle.
    pub open spec fn contains(&self, x: int, y: int) -> bool {
        self.min_x <= x < self.max_x && self.min_y <= y < self.max_y
    }
}

/// One cell of the grid, with the triangles binned to it, in the order in
/// which they were binned.  A triangle is named by its index in the frame's
/// triangle list.
pub struct Tile {
    pub bounds: Bounds,
    pub triangles: Vec<(Cover, usize)>,
}

/// The number of cells of size `size` that it takes to cover `len` pixels.
pub open spec fn tiles_across(len: int, size: int) -> int {
    (len + size - 1) / size
}

/// The smaller of two numbers.
pub open spec fn min(a: int, b: int) -> int {
    if a <= b {
        a
    } else {
        b
    }
}

/// The pixels of the tile in column `tx` and row `ty` of the grid of a
/// `width` by `height` screen.
pub open spec fn tile_bounds(width: int, height: int, tx: int, ty: int) -> Bounds {
    Bounds {
        min_x: (tx * TILE_WIDTH) as usize,
        min_y: (ty * TILE_HEIGHT) as usize,
        max_x: min((tx + 1) * TILE_WIDTH, width) as usize,
        max_y: min((ty + 1) * TILE_HEIGHT, height) as usize,
    }
}

/// Every pixel of the screen lies in the tile at its coordinates divided by
/// the tile size, and that tile is in the grid.
pub proof fn law_pixel_has_tile(width: usize, height: usize, x: usize, y: usize)
    requires
        x < width,
        y < height,
    ensures
        x / TILE_WIDTH < tiles_across(width as int, TILE_WIDTH as int),
        y / TILE_HEIGHT < tiles_across(height as int, TILE_HEIGHT as int),
        tile_bounds(
            width as int,
            height as int,
            (x / TILE_WIDTH) as int,
            (y / TILE_HEIGHT) as int,
        ).contains(x as int, y as int),
{
}

/// No pixel lies in two tiles.
pub proof fn law_tiles_disjoint(
    width: usize,
    height: usize,
    tx: usize,
    ty: usize,
    ux: usize,
    uy: usize,
    x: usize,
    y: usize,
)
    requires
        tx < tiles_across(width as int, TILE_WIDTH as int),
        ty < tiles_across(height as int, TILE_HEIGHT as int),
        ux < tiles_across(width as int, TILE_WIDTH as int),
        uy < tiles_across(height as int, TILE_HEIGHT as int),
        tile_bounds(width as int, height as int, tx as int, ty as int).contains(
            x as int,
            y as int,
        ),
        tile_bounds(width as int, height as int, ux as int, uy as int).contains(
            x as int,
            y as int,
        ),
    ensures
        tx == ux,
        ty == uy,
        tx == x / TILE_WIDTH,
        ty == y / TILE_HEIGHT,
{
    lemma_tile_bounds(width, height, tx, ty);
    lemma_tile_bounds(width, height, ux, uy);
}

/// The bounds of a tile of the grid, without the casts.
pub proof fn lemma_tile_bounds(width: usize, height: usize, tx: usize, ty: usize)
    requires
        tx < tiles_across(width as int, TILE_WIDTH as int),
        ty < tiles_across(height as int, TILE_HEIGHT as int),
    ensures
        tile_bounds(width as int, height as int, tx as int, ty as int).min_x == tx * TILE_WIDTH,
        tile_bounds(width as int, height as int, tx as int, ty as int).min_y == ty * TILE_HEIGHT,
        tile_bounds(width as int, height as int, tx as int, ty as int).max_x == min(
            (tx + 1) * TILE_WIDTH,
            width as int,
        ),
        tile_bounds(width as int, height as int, tx as int, ty as int).max_y == min(
            (ty + 1) * TILE_HEIGHT,
            height as int,
        ),
        tx * TILE_WIDTH < width,
        ty * TILE_HEIGHT < height,
{
    assert(TILE_WIDTH == 8 && TILE_HEIGHT == 8);
    assert(tx < (width + 7) / 8);
    assert(ty < (height + 7) / 8);
    assert(tx * 8 < width);
    assert(ty * 8 < height);
}

/// Every tile of the grid holds at least one pixel and lies on the screen.
pub proof fn law_tile_on_screen(width: usize, height: usize, tx: usize, ty: usize)
    requires
        tx < tiles_across(width as int, TILE_WIDTH as int),
        ty < tiles_across(height as int, TILE_HEIGHT as int),
    ensures
        tile_bounds(width as int, height as int, tx as int, ty as int).min_x < tile_bounds(
            width as int,
            height as int,
            tx as int,
            ty as int,
        ).max_x <= width,
        tile_bounds(width as int, height as int, tx as int, ty as int).min_y < tile_bounds(
            width as int,
            height as int,
            tx as int,
            ty as int,
        ).max_y <= height,
{
    lemma_tile_bounds(width, height, tx, ty);
}

/// The tile grid of the screen, with a bucket of binned triangles for each
/// tile.
pub struct TileRenderer {
    width: usize,
    height: usize,
    tiles_x: usize,
    tiles_y: usize,
    tiles: Vec<Tile>,
}

impl TileRenderer {
    /// Width of the screen that the grid covers.
    pub closed spec fn spec_width(&self) -> usize {
        self.width
    }

    /// Height of the screen that the grid covers.
    pub closed spec fn spec_height(&self) -> usize {
        self.height
    }

    /// Number of tiles in a row of the grid.
    pub closed spec fn spec_tiles_x(&self) -> usize {
        self.tiles_x
    }

    /// Number of rows of the grid.
    pub closed spec fn spec_tiles_y(&self) -> usize {
        self.tiles_y
    }

    /// The tiles, row by row.
    pub closed spec fn view(&self) -> Seq<Tile> {
        self.tiles@
    }

    /// The bucket of tile `i`.
    pub open spec fn bucket(&self, i: int) -> Seq<(Cover, usize)> {
        self@[i].triangles@
    }

    /// The grid covers the screen: it has a tile for every `TILE_WIDTH` by
    /// `TILE_HEIGHT` cell that holds a pixel, row by row, each with the bounds
    /// of its cell cut off at the screen's edges.
    pub open spec fn wf(&self) -> bool {
        &&& self.spec_tiles_x() == tiles_across(self.spec_width() as int, TILE_WIDTH as int)
        &&& self.spec_tiles_y() == tiles_across(self.spec_height() as int, TILE_HEIGHT as int)
        &&& self@.len() == self.spec_tiles_x() * self.spec_tiles_y()
        &&& forall|i: int|
            0 <= i < self@.len() ==> (#[trigger] self@[i]).bounds == tile_bounds(
                self.spec_width() as int,
                self.spec_height() as int,
                i % (self.spec_tiles_x() as int),
                i / (self.spec_tiles_x() as int),
            )
    }

    /// Every bucket is empty.
    pub open spec fn is_drained(&self) -> bool {
        forall|i: int| 0 <= i < self@.len() ==> (#[trigger] self@[i]).triangles@.len() == 0
    }

    /// The grid of an empty screen: no tile.
    pub fn new() -> (r: Self)
        ensures
            r.wf(),
            r.spec_width() == 0,
            r.spec_height() == 0,
            r@.len() == 0,
    {
        Self { width: 0, height: 0, tiles_x: 0, tiles_y: 0, tiles: Vec::new() }
    }

    /// Width of the screen that the grid covers.
    pub fn width(&self) -> (w: usize)
        ensures
            w == self.spec_width(),
    {
        self.width
    }

    /// Height of the screen that the grid covers.
    pub fn height(&self) -> (h: usize)
        ensures
            h == self.spec_height(),
    {
        self.height
    }

    /// Number of tiles in a row of the grid.
    pub fn tiles_x(&self) -> (n: usize)
        ensures
            n == self.spec_tiles_x(),
    {
        self.tiles_x
    }

    /// Number of rows of the grid.
    pub fn tiles_y(&self) -> (n: usize)
        ensures
            n == self.spec_tiles_y(),
    {
        self.tiles_y
    }

    /// The tiles, row by row.
    pub fn tiles(&self) -> (r: &[Tile])
        ensures
            r@ == self@,
    {
        self.tiles.as_slice()
    }

    /// Rebuilds the grid for a `width` by `height` screen, with empty
    /// buckets.
    pub fn update_viewport(&mut self, width: usize, height: usize)
        ensures
            final(self).wf(),
            final(self).spec_width() == width,
            final(self).spec_height() == height,
            final(self).is_drained(),
    {
        self.width = width;
        self.height = height;
        self.tiles_x = width / TILE_WIDTH + if width % TILE_WIDTH != 0 {
            1
        } else {
            0
        };
        self.tiles_y = height / TILE_HEIGHT + if height % TILE_HEIGHT != 0 {
            1
        } else {
            0
        };
        self.tiles.clear();
        let tiles_x = self.tiles_x;
        let tiles_y = self.tiles_y;
        assert(TILE_WIDTH == 8 && TILE_HEIGHT == 8);

        let mut y: usize = 0;
        while y < tiles_y
            invariant
                y <= tiles_y,
                self.width == width,
                self.height == height,
                self.tiles_x == tiles_x,
                self.tiles_y == tiles_y,
                tiles_x == tiles_across(width as int, TILE_WIDTH as int),
                tiles_y == tiles_across(height as int, TILE_HEIGHT as int),
                self.tiles@.len() == y * tiles_x,
                forall|i: int|
                    0 <= i < self.tiles@.len() ==> (#[trigger] self.tiles@[i]).bounds
                        == tile_bounds(
                        width as int,
                        height as int,
                        i % (tiles_x as int),
                        i / (tiles_x as int),
                    ) && self.tiles@[i].triangles@.len() == 0,
            decreases tiles_y - y,
        {
            let mut x: usize = 0;
            while x < tiles_x
                invariant
                    y < tiles_y,
                    x <= tiles_x,
                    self.width == width,
                    self.height == height,
                    self.tiles_x == tiles_x,
                    self.tiles_y == tiles_y,
                    tiles_x == tiles_across(width as int, TILE_WIDTH as int),
                    tiles_y == tiles_across(height as int, TILE_HEIGHT as int),
                    self.tiles@.len() == y * tiles_x + x,
                    forall|i: int|
                        0 <= i < self.tiles@.len() ==> (#[trigger] self.tiles@[i]).bounds
                            == tile_bounds(
                            width as int,
                            height as int,
                            i % (tiles_x as int),
                            i / (tiles_x as int),
                        ) && self.tiles@[i].triangles@.len() == 0,
                decreases tiles_x - x,
            {
                proof {
                    lemma_tile_bounds(width, height, x, y);
                    lemma_cell_in_grid(tiles_x as int, tiles_y as int, x as int, y as int);
                }
                let min_x = x * TILE_WIDTH;
                let min_y = y * TILE_HEIGHT;
                let max_x = if width - min_x >= TILE_WIDTH {
                    min_x + TILE_WIDTH
                } else {
                    width
                };
                let max_y = if height - min_y >= TILE_HEIGHT {
                    min_y + TILE_HEIGHT
                } else {
                    height
                };
                let bounds = Bounds { min_x, min_y, max_x, max_y };
                self.tiles.push(Tile { bounds, triangles: Vec::new() });
                x += 1;
            }
            y += 1;
            assert(self.tiles@.len() == y * tiles_x) by (nonlinear_arith)
                requires
                    self.tiles@.len() == (y - 1) * tiles_x + tiles_x,
            ;
        }
        assert(self.tiles@.len() == tiles_x * tiles_y) by (nonlinear_arith)
            requires
                self.tiles@.len() == y * tiles_x,
                y == tiles_y,
        ;
    }
}

/// The cell in column `x` of row `y` of a grid with `columns` columns and
/// `rows` rows has the index `y * columns + x`, and no other cell has it.
pub proof fn lemma_cell_in_grid(columns: int, rows: int, x: int, y: int)
    requires
        0 <= x < columns,
        0 <= y < rows,
    ensures
        0 <= y * columns + x < columns * rows,
        (y * columns + x) / columns == y,
        (y * columns + x) % columns == x,
{
    assert(0 <= y * columns && y * columns + columns <= columns * rows) by (nonlinear_arith)
        requires
            0 <= y < rows,
            0 < columns,
    ;
    vstd::arithmetic::div_mod::lemma_fundamental_div_mod_converse(y * columns + x, columns, y, x);
}

/// The cell with the index `i` lies in column `i % columns` of row
/// `i / columns`.
pub proof fn lemma_cell_of_index(columns: int, rows: int, i: int)
    requires
        0 <= i < columns * rows,
        0 <= columns,
    ensures
        0 < columns,
        0 <= i % columns < columns,
        0 <= i / columns < rows,
        i == (i / columns) * columns + i % columns,
{
    assert(0 < columns) by (nonlinear_arith)
        requires
            0 <= i < columns * rows,
            0 <= columns,
    ;
    vstd::arithmetic::div_mod::lemma_fundamental_div_mod(i, columns);
    assert(i / columns < rows) by (nonlinear_arith)
        requires
            i == columns * (i / columns) + i % columns,
            0 <= i % columns,
            i < columns * rows,
            0 < columns,
    ;
    assert(0 <= i / columns) by (nonlinear_arith)
        requires
            i == columns * (i / columns) + i % columns,
            i % columns < columns,
            0 <= i,
            0 < columns,
    ;
    assert(columns * (i / columns) == (i / columns) * columns) by (nonlinear_arith);
}

/// The colour and the depth of the pixel `(x, y)`.
pub open spec fn pixel<C: Copy, D: Copy>(fb: &Framebuffer<C, D>, x: int, y: int) -> (C, D) {
    (fb.colours()[y * fb.spec_width() + x], fb.depths()[y * fb.spec_width() + x])
}

/// What drawing the binned triangle `entry` makes of a pixel: `shade` is
/// asked with the pixel's coordinates and its depth, and either leaves the
/// pixel as it was or gives it a new colour and depth.
pub open spec fn is_shaded<C, D, F: Fn(Cover, usize, usize, usize, D) -> Option<(C, D)>>(
    shade: &F,
    entry: (Cover, usize),
    x: int,
    y: int,
    before: (C, D),
    after: (C, D),
) -> bool {
    ||| (call_ensures(*shade, (entry.0, entry.1, x as usize, y as usize, before.1), None::<(C, D)>)
        && after == before)
    ||| call_ensures(*shade, (entry.0, entry.1, x as usize, y as usize, before.1), Some(after))
}

/// `shade` may be asked about every pixel of a `width` by `height` screen.
pub open spec fn shades_screen<C, D, F: Fn(Cover, usize, usize, usize, D) -> Option<(C, D)>>(
    shade: &F,
    width: usize,
    height: usize,
) -> bool {
    forall|cover: Cover, triangle: usize, x: usize, y: usize, depth: D|
        x < width && y < height ==> call_requires(*shade, (cover, triangle, x, y, depth))
}

/// The pixel `(x, y)` of the rectangle comes before `(next_x, next_y)` in the
/// walk over the rectangle, row by row and from left to right.
pub open spec fn is_walked(bounds: &Bounds, next_x: int, next_y: int, x: int, y: int) -> bool {
    bounds.contains(x, y) && (y < next_y || (y == next_y && x < next_x))
}

/// Draws one binned triangle on the pixels of one tile.  The pixels of
/// `bounds` are visited row by row and from left to right; `shade` decides for
/// each of them, from its coordinates and its depth, whether it is drawn on
/// and with which colour and depth.  No other pixel changes.
pub fn render_tile<C: Copy, D: Copy, F: Fn(Cover, usize, usize, usize, D) -> Option<(C, D)>>(
    fb: &mut Framebuffer<C, D>,
    bounds: &Bounds,
    cover: Cover,
    triangle: usize,
    shade: &F,
)
    requires
        old(fb).wf(),
        bounds.max_x <= old(fb).spec_width(),
        bounds.max_y <= old(fb).spec_height(),
        shades_screen(shade, old(fb).spec_width(), old(fb).spec_height()),
    ensures
        final(fb).wf(),
        final(fb).spec_width() == old(fb).spec_width(),
        final(fb).spec_height() == old(fb).spec_height(),
        forall|x: int, y: int|
            0 <= x < old(fb).spec_width() && 0 <= y < old(fb).spec_height() ==> (if bounds.contains(
                x,
                y,
            ) {
                is_shaded(
                    shade,
                    (cover, triangle),
                    x,
                    y,
                    pixel(old(fb), x, y),
                    #[trigger] pixel(final(fb), x, y),
                )
            } else {
                pixel(final(fb), x, y) == pixel(old(fb), x, y)
            }),
{
    if bounds.min_x >= bounds.max_x || bounds.min_y >= bounds.max_y {
        return ;
    }
    let width = fb.width();
    let len = fb.pixels().len();
    let ghost w = fb.spec_width() as int;
    let ghost h = fb.spec_height() as int;
    proof {
        assert(len == w * h);
        lemma_cell_in_grid(w, h, bounds.min_x as int, bounds.min_y as int);
        assert(0 <= bounds.min_y * width) by (nonlinear_arith);
    }
    let mut index: usize = bounds.min_y * width + bounds.min_x;
    let mut y: usize = bounds.min_y;
    while y < bounds.max_y
        invariant
            bounds.min_x < bounds.max_x <= w,
            bounds.min_y <= y <= bounds.max_y <= h,
            fb.wf(),
            w == fb.spec_width(),
            h == fb.spec_height(),
            w == old(fb).spec_width(),
            h == old(fb).spec_height(),
            width == w,
            len == w * h,
            old(fb).wf(),
            shades_screen(shade, old(fb).spec_width(), old(fb).spec_height()),
            y < bounds.max_y ==> index == y * w + bounds.min_x,
            forall|px: int, py: int|
                0 <= px < w && 0 <= py < h ==> (if is_walked(bounds, bounds.min_x as int, y as int, px, py) {
                    is_shaded(
                        shade,
                        (cover, triangle),
                        px,
                        py,
                        pixel(old(fb), px, py),
                        #[trigger] pixel(fb, px, py),
                    )
                } else {
                    pixel(fb, px, py) == pixel(old(fb), px, py)
                }),
        decreases bounds.max_y - y,
    {
        let mut x: usize = bounds.min_x;
        while x < bounds.max_x
            invariant
                bounds.min_x <= x <= bounds.max_x <= w,
                bounds.min_y <= y < bounds.max_y <= h,
                fb.wf(),
                w == fb.spec_width(),
                h == fb.spec_height(),
                w == old(fb).spec_width(),
                h == old(fb).spec_height(),
                width == w,
                len == w * h,
                old(fb).wf(),
                shades_screen(shade, old(fb).spec_width(), old(fb).spec_height()),
                index == y * w + x,
                forall|px: int, py: int|
                    0 <= px < w && 0 <= py < h ==> (if is_walked(bounds, x as int, y as int, px, py) {
                        is_shaded(
                            shade,
                            (cover, triangle),
                            px,
                            py,
                            pixel(old(fb), px, py),
                            #[trigger] pixel(fb, px, py),
                        )
                    } else {
                        pixel(fb, px, py) == pixel(old(fb), px, py)
                    }),
            decreases bounds.max_x - x,
        {
            proof {
                lemma_cell_in_grid(w, h, x as int, y as int);
            }
            let ghost before = *fb;
            let depth = fb.depth_at(index);
            assert(pixel(&before, x as int, y as int) == pixel(old(fb), x as int, y as int));
            match shade(cover, triangle, x, y, depth) {
                Some((colour, depth)) => {
                    fb.write(index, colour, depth);
                },
                None => {},
            }
            proof {
                assert forall|px: int, py: int| 0 <= px < w && 0 <= py < h implies (if is_walked(
                    bounds,
                    x as int + 1,
                    y as int,
                    px,
                    py,
                ) {
                    is_shaded(
                        shade,
                        (cover, triangle),
                        px,
                        py,
                        pixel(old(fb), px, py),
                        #[trigger] pixel(fb, px, py),
                    )
                } else {
                    pixel(fb, px, py) == pixel(old(fb), px, py)
                }) by {
                    lemma_cell_in_grid(w, h, px, py);
                    if px == x && py == y {
                    } else {
                        assert(py * w + px != y * w + x);
                        assert(pixel(fb, px, py) == pixel(&before, px, py));
                    }
                }
            }
            index += 1;
            x += 1;
        }
        if y + 1 < bounds.max_y {
            proof {
                lemma_cell_in_grid(w, h, bounds.min_x as int, y as int + 1);
                assert((y + 1) * w == y * w + w) by (nonlinear_arith);
            }
            index += width - (bounds.max_x - bounds.min_x);
        }
        y += 1;
    }
}

/// The cover that a classification stands for, for the two that bin a
/// triangle.
pub open spec fn overlap_of(cover: Cover) -> Overlap {
    match cover {
        Cover::Partial => Overlap::Partial,
        Cover::Full => Overlap::Full,
    }
}

/// Whether the tile in column `tx` and row `ty` is a candidate for a triangle
/// whose screen extent, in pixels, is `extent`: the tiles that the extent
/// touches, as far as the grid has them.
pub open spec fn in_tile_range(extent: Bounds, tiles_x: int, tiles_y: int, tx: int, ty: int) -> bool {
    &&& extent.min_x as int / TILE_WIDTH as int <= tx < min(
        tiles_across(extent.max_x as int, TILE_WIDTH as int),
        tiles_x,
    )
    &&& extent.min_y as int / TILE_HEIGHT as int <= ty < min(
        tiles_across(extent.max_y as int, TILE_HEIGHT as int),
        tiles_y,
    )
}

/// The bucket `after` is the bucket `before` with the first `n` triangles
/// binned.  The triangles binned to the tile are those for which the tile is
/// a candidate and which `overlap_test` found to meet it; they follow what the
/// bucket held, in the order of their indices, each with the cover that the
/// test found.
pub open spec fn is_binned<F: Fn(usize, &Bounds) -> Overlap>(
    overlap_test: &F,
    extents: Seq<Bounds>,
    n: int,
    tiles_x: int,
    tiles_y: int,
    tx: int,
    ty: int,
    bounds: Bounds,
    before: Seq<(Cover, usize)>,
    after: Seq<(Cover, usize)>,
) -> bool {
    &&& before.len() <= after.len()
    &&& after.subrange(0, before.len() as int) == before
    &&& forall|k: int|
        before.len() <= k < after.len() ==> (#[trigger] after[k]).1 < n && in_tile_range(
            extents[after[k].1 as int],
            tiles_x,
            tiles_y,
            tx,
            ty,
        ) && call_ensures(*overlap_test, (after[k].1, &bounds), overlap_of(after[k].0))
    &&& forall|j: int, k: int|
        before.len() <= j < k < after.len() ==> (#[trigger] after[j]).1 < (#[trigger] after[k]).1
    &&& forall|i: int|
        0 <= i < n && #[trigger] in_tile_range(extents[i], tiles_x, tiles_y, tx, ty) ==> (exists|
            k: int,
        |
            before.len() <= k < after.len() && (#[trigger] after[k]).1 == i) || call_ensures(
            *overlap_test,
            (i as usize, &bounds),
            Overlap::Disjoint,
        )
}

/// A triangle for which the tile is no candidate leaves the bucket as it is.
proof fn lemma_bin_skip<F: Fn(usize, &Bounds) -> Overlap>(
    overlap_test: &F,
    extents: Seq<Bounds>,
    n: int,
    tiles_x: int,
    tiles_y: int,
    tx: int,
    ty: int,
    bounds: Bounds,
    before: Seq<(Cover, usize)>,
    after: Seq<(Cover, usize)>,
)
    requires
        0 <= n < extents.len(),
        is_binned(overlap_test, extents, n, tiles_x, tiles_y, tx, ty, bounds, before, after),
        !in_tile_range(extents[n], tiles_x, tiles_y, tx, ty) || call_ensures(
            *overlap_test,
            (n as usize, &bounds),
            Overlap::Disjoint,
        ),
        n <= usize::MAX,
    ensures
        is_binned(overlap_test, extents, n + 1, tiles_x, tiles_y, tx, ty, bounds, before, after),
{
    assert forall|i: int|
        0 <= i < n + 1 && #[trigger] in_tile_range(
            extents[i],
            tiles_x,
            tiles_y,
            tx,
            ty,
        ) implies (exists|k: int|
        before.len() <= k < after.len() && (#[trigger] after[k]).1 == i) || call_ensures(
        *overlap_test,
        (i as usize, &bounds),
        Overlap::Disjoint,
    ) by {
        if i < n {
        }
    }
}

/// A triangle that meets a candidate tile is added at the end of the bucket.
proof fn lemma_bin_push<F: Fn(usize, &Bounds) -> Overlap>(
    overlap_test: &F,
    extents: Seq<Bounds>,
    n: int,
    tiles_x: int,
    tiles_y: int,
    tx: int,
    ty: int,
    bounds: Bounds,
    before: Seq<(Cover, usize)>,
    after: Seq<(Cover, usize)>,
    cover: Cover,
)
    requires
        0 <= n < extents.len(),
        n <= usize::MAX,
        is_binned(overlap_test, extents, n, tiles_x, tiles_y, tx, ty, bounds, before, after),
        in_tile_range(extents[n], tiles_x, tiles_y, tx, ty),
        call_ensures(*overlap_test, (n as usize, &bounds), overlap_of(cover)),
    ensures
        is_binned(
            overlap_test,
            extents,
            n + 1,
            tiles_x,
            tiles_y,
            tx,
            ty,
            bounds,
            before,
            after.push((cover, n as usize)),
        ),
{
    let grown = after.push((cover, n as usize));
    assert(grown.subrange(0, before.len() as int) =~= after.subrange(0, before.len() as int));
    assert forall|k: int| before.len() <= k < grown.len() implies (#[trigger] grown[k]).1 < n + 1
        && in_tile_range(extents[grown[k].1 as int], tiles_x, tiles_y, tx, ty) && call_ensures(
        *overlap_test,
        (grown[k].1, &bounds),
        overlap_of(grown[k].0),
    ) by {
        if k < after.len() {
            assert(grown[k] == after[k]);
        }
    }
    assert forall|j: int, k: int| before.len() <= j < k < grown.len() implies (#[trigger] grown[j]).1
        < (#[trigger] grown[k]).1 by {
        assert(grown[j] == after[j]);
        if k < after.len() {
            assert(grown[k] == after[k]);
        }
    }
    assert forall|i: int|
        0 <= i < n + 1 && #[trigger] in_tile_range(
            extents[i],
            tiles_x,
            tiles_y,
            tx,
            ty,
        ) implies (exists|k: int|
        before.len() <= k < grown.len() && (#[trigger] grown[k]).1 == i) || call_ensures(
        *overlap_test,
        (i as usize, &bounds),
        Overlap::Disjoint,
    ) by {
        if i < n {
            if !call_ensures(*overlap_test, (i as usize, &bounds), Overlap::Disjoint) {
                let k = choose|k: int|
                    before.len() <= k < after.len() && (#[trigger] after[k]).1 == i;
                assert(grown[k] == after[k]);
            }
        } else {
            assert(grown[after.len() as int].1 == i);
        }
    }
}

/// The tile `(tx, ty)` is a candidate of the triangle with the extent
/// `extent` and comes before `(next_x, next_y)` in the walk over the
/// candidates, row by row and from left to right.
pub open spec fn is_placed(
    extent: Bounds,
    tiles_x: int,
    tiles_y: int,
    next_x: int,
    next_y: int,
    tx: int,
    ty: int,
) -> bool {
    in_tile_range(extent, tiles_x, tiles_y, tx, ty) && (ty < next_y || (ty == next_y && tx
        < next_x))
}

/// The number of triangles that are binned to tile `t` while triangle `i`
/// walks over its candidates and is about to test `(next_x, next_y)`.
pub open spec fn binned_count(
    extent: Bounds,
    tiles_x: int,
    tiles_y: int,
    next_x: int,
    next_y: int,
    t: int,
    i: int,
) -> int {
    if is_placed(extent, tiles_x, tiles_y, next_x, next_y, t % tiles_x, t / tiles_x) {
        i + 1
    } else {
        i
    }
}

/// The number of tiles of size `size` that it takes to cover `len` pixels.
fn tiles_to_cover(len: usize, size: usize) -> (n: usize)
    requires
        size > 0,
    ensures
        n == tiles_across(len as int, size as int),
{
    let whole = len / size;
    let rest = len % size;
    proof {
        vstd::arithmetic::div_mod::lemma_fundamental_div_mod(len as int, size as int);
        if rest == 0 {
            assert(len + size - 1 == whole * size + (size - 1)) by (nonlinear_arith)
                requires
                    len == size * whole + rest,
                    rest == 0,
            ;
            vstd::arithmetic::div_mod::lemma_fundamental_div_mod_converse(
                len + size - 1,
                size as int,
                whole as int,
                size - 1,
            );
        } else {
            assert(len + size - 1 == (whole + 1) * size + (rest - 1)) by (nonlinear_arith)
                requires
                    len == size * whole + rest,
            ;
            vstd::arithmetic::div_mod::lemma_fundamental_div_mod_converse(
                len + size - 1,
                size as int,
                whole + 1,
                rest - 1,
            );
            assert(whole < len) by (nonlinear_arith)
                requires
                    len == size * whole + rest,
                    rest > 0,
                    size > 0,
            ;
        }
    }
    if rest == 0 {
        whole
    } else {
        whole + 1
    }
}

impl TileRenderer {
    /// The bucket of tile `t` is what it was in `before` with the first `n`
    /// triangles binned.
    pub open spec fn is_tile_binned<F: Fn(usize, &Bounds) -> Overlap>(
        &self,
        before: &Self,
        overlap_test: &F,
        extents: Seq<Bounds>,
        n: int,
        t: int,
    ) -> bool {
        is_binned(
            overlap_test,
            extents,
            n,
            self.spec_tiles_x() as int,
            self.spec_tiles_y() as int,
            t % (self.spec_tiles_x() as int),
            t / (self.spec_tiles_x() as int),
            self@[t].bounds,
            before@[t].triangles@,
            self@[t].triangles@,
        )
    }

    /// Bins the triangles of a frame.  Triangle `i` has the screen extent
    /// `extents[i]`, in pixels.  Each triangle is tested with `overlap_test`
    /// against every tile that its extent touches, and is added to the bucket
    /// of each tile that it meets, with its cover.  The buckets keep the order
    /// of the triangles.
    pub fn place_triangles<F: Fn(usize, &Bounds) -> Overlap>(
        &mut self,
        extents: &[Bounds],
        overlap_test: &F,
    )
        requires
            old(self).wf(),
            forall|i: usize, bounds: &Bounds|
                i < extents@.len() ==> call_requires(*overlap_test, (i, bounds)),
        ensures
            final(self).wf(),
            final(self).spec_width() == old(self).spec_width(),
            final(self).spec_height() == old(self).spec_height(),
            final(self)@.len() == old(self)@.len(),
            forall|t: int|
                0 <= t < final(self)@.len() ==> #[trigger] final(self).is_tile_binned(
                    old(self),
                    overlap_test,
                    extents@,
                    extents@.len() as int,
                    t,
                ),
    {
        let tiles_x = self.tiles_x;
        let tiles_y = self.tiles_y;
        let count = extents.len();
        let total = self.tiles.len();
        let ghost tx_n = tiles_x as int;
        let ghost ty_n = tiles_y as int;
        assert(TILE_WIDTH == 8 && TILE_HEIGHT == 8);
        assert forall|t: int| 0 <= t < self@.len() implies #[trigger] self.is_tile_binned(
            old(self),
            overlap_test,
            extents@,
            0,
            t,
        ) by {
            assert(self@[t].triangles@.subrange(0, self@[t].triangles@.len() as int)
                =~= self@[t].triangles@);
        }
        let mut i: usize = 0;
        while i < count
            invariant
                i <= count,
                count == extents@.len(),
                self.wf(),
                old(self).wf(),
                self.tiles_x == tiles_x,
                self.tiles_y == tiles_y,
                tx_n == tiles_x,
                ty_n == tiles_y,
                self.width == old(self).width,
                self.height == old(self).height,
                self.tiles_x == old(self).tiles_x,
                self@.len() == old(self)@.len(),
                total == self@.len(),
                forall|i: usize, bounds: &Bounds|
                    i < extents@.len() ==> call_requires(*overlap_test, (i, bounds)),
                forall|t: int|
                    0 <= t < self@.len() ==> #[trigger] self.is_tile_binned(
                        old(self),
                        overlap_test,
                        extents@,
                        i as int,
                        t,
                    ),
            decreases count - i,
        {
            let extent = extents[i];
            let x_min = extent.min_x / TILE_WIDTH;
            let x_cover = tiles_to_cover(extent.max_x, TILE_WIDTH);
            let x_max = if x_cover < tiles_x {
                x_cover
            } else {
                tiles_x
            };
            let y_min = extent.min_y / TILE_HEIGHT;
            let y_cover = tiles_to_cover(extent.max_y, TILE_HEIGHT);
            let y_max = if y_cover < tiles_y {
                y_cover
            } else {
                tiles_y
            };
            if x_min < x_max && y_min < y_max {
                let mut y: usize = y_min;
                while y < y_max
                    invariant
                        y_min <= y <= y_max <= tiles_y,
                        x_min < x_max <= tiles_x,
                        i < count,
                        count == extents@.len(),
                        extent == extents@[i as int],
                        x_min == extent.min_x as int / 8,
                        y_min == extent.min_y as int / 8,
                        x_max == min(tiles_across(extent.max_x as int, 8), tx_n),
                        y_max == min(tiles_across(extent.max_y as int, 8), ty_n),
                        self.wf(),
                        old(self).wf(),
                        self.tiles_x == tiles_x,
                        self.tiles_y == tiles_y,
                        tx_n == tiles_x,
                        ty_n == tiles_y,
                        self.width == old(self).width,
                        self.height == old(self).height,
                        self.tiles_x == old(self).tiles_x,
                        self@.len() == old(self)@.len(),
                        total == self@.len(),
                        forall|i: usize, bounds: &Bounds|
                            i < extents@.len() ==> call_requires(*overlap_test, (i, bounds)),
                        forall|t: int|
                            0 <= t < self@.len() ==> #[trigger] self.is_tile_binned(
                                old(self),
                                overlap_test,
                                extents@,
                                binned_count(extent, tx_n, ty_n, x_min as int, y as int, t, i as int),
                                t,
                            ),
                    decreases y_max - y,
                {
                    let mut x: usize = x_min;
                    while x < x_max
                        invariant
                            y_min <= y < y_max <= tiles_y,
                            x_min <= x <= x_max <= tiles_x,
                            i < count,
                            count == extents@.len(),
                            extent == extents@[i as int],
                            x_min == extent.min_x as int / 8,
                            y_min == extent.min_y as int / 8,
                            x_max == min(tiles_across(extent.max_x as int, 8), tx_n),
                            y_max == min(tiles_across(extent.max_y as int, 8), ty_n),
                            self.wf(),
                            old(self).wf(),
                            self.tiles_x == tiles_x,
                            self.tiles_y == tiles_y,
                            tx_n == tiles_x,
                            ty_n == tiles_y,
                            self.width == old(self).width,
                            self.height == old(self).height,
                            self.tiles_x == old(self).tiles_x,
                            self@.len() == old(self)@.len(),
                            total == self@.len(),
                            forall|i: usize, bounds: &Bounds|
                                i < extents@.len() ==> call_requires(*overlap_test, (i, bounds)),
                            forall|t: int|
                                0 <= t < self@.len() ==> #[trigger] self.is_tile_binned(
                                    old(self),
                                    overlap_test,
                                    extents@,
                                    binned_count(extent, tx_n, ty_n, x as int, y as int, t, i as int),
                                    t,
                                ),
                        decreases x_max - x,
                    {
                        proof {
                            lemma_cell_in_grid(tx_n, ty_n, x as int, y as int);
                        }
                        let index = y * tiles_x + x;
                        let ghost previous = *self;
                        let bounds = self.tiles[index].bounds;
                        proof {
                            assert(TILE_WIDTH == 8 && TILE_HEIGHT == 8);
                            assert(self.is_tile_binned(
                                old(self),
                                overlap_test,
                                extents@,
                                binned_count(extent, tx_n, ty_n, x as int, y as int, index as int, i as int),
                                index as int,
                            ));
                            assert(in_tile_range(extent, tx_n, ty_n, x as int, y as int));
                        }
                        match overlap_test(i, &bounds) {
                            Overlap::Disjoint => {
                                proof {
                                    lemma_bin_skip(
                                        overlap_test,
                                        extents@,
                                        i as int,
                                        tx_n,
                                        ty_n,
                                        x as int,
                                        y as int,
                                        bounds,
                                        old(self)@[index as int].triangles@,
                                        self@[index as int].triangles@,
                                    );
                                }
                            },
                            Overlap::Partial => {
                                self.tiles[index].triangles.push((Cover::Partial, i));
                                proof {
                                    lemma_bin_push(
                                        overlap_test,
                                        extents@,
                                        i as int,
                                        tx_n,
                                        ty_n,
                                        x as int,
                                        y as int,
                                        bounds,
                                        old(self)@[index as int].triangles@,
                                        previous@[index as int].triangles@,
                                        Cover::Partial,
                                    );
                                }
                            },
                            Overlap::Full => {
                                self.tiles[index].triangles.push((Cover::Full, i));
                                proof {
                                    lemma_bin_push(
                                        overlap_test,
                                        extents@,
                                        i as int,
                                        tx_n,
                                        ty_n,
                                        x as int,
                                        y as int,
                                        bounds,
                                        old(self)@[index as int].triangles@,
                                        previous@[index as int].triangles@,
                                        Cover::Full,
                                    );
                                }
                            },
                        }
                        proof {
                            assert forall|t: int| 0 <= t < self@.len() implies 
                                #[trigger] self.is_tile_binned(
                                    old(self),
                                    overlap_test,
                                    extents@,
                                    binned_count(extent, tx_n, ty_n, x as int + 1, y as int, t, i as int),
                                    t,
                                ) by {
                                lemma_cell_of_index(tx_n, ty_n, t);
                                if t != index {
                                    assert(self@[t] == previous@[t]);
                                    assert(previous.is_tile_binned(
                                        old(self),
                                        overlap_test,
                                        extents@,
                                        binned_count(extent, tx_n, ty_n, x as int, y as int, t, i as int),
                                        t,
                                    ));
                                }
                            }
                        }
                        x += 1;
                    }
                    proof {
                        assert forall|t: int| 0 <= t < self@.len() implies 
                            #[trigger] self.is_tile_binned(
                                old(self),
                                overlap_test,
                                extents@,
                                binned_count(extent, tx_n, ty_n, x_min as int, y as int + 1, t, i as int),
                                t,
                            ) by {
                            assert(TILE_WIDTH == 8 && TILE_HEIGHT == 8);
                            assert(self.is_tile_binned(
                                old(self),
                                overlap_test,
                                extents@,
                                binned_count(extent, tx_n, ty_n, x as int, y as int, t, i as int),
                                t,
                            ));
                        }
                    }
                    y += 1;
                }
                proof {
                    assert forall|t: int| 0 <= t < self@.len() implies #[trigger] self.is_tile_binned(
                        old(self),
                        overlap_test,
                        extents@,
                        i + 1,
                        t,
                    ) by {
                        assert(TILE_WIDTH == 8 && TILE_HEIGHT == 8);
                        lemma_cell_of_index(tx_n, ty_n, t);
                        assert(self.is_tile_binned(
                            old(self),
                            overlap_test,
                            extents@,
                            binned_count(extent, tx_n, ty_n, x_min as int, y as int, t, i as int),
                            t,
                        ));
                        if !in_tile_range(extent, tx_n, ty_n, t % tx_n, t / tx_n) {
                            lemma_bin_skip(
                                overlap_test,
                                extents@,
                                i as int,
                                tx_n,
                                ty_n,
                                t % tx_n,
                                t / tx_n,
                                self@[t].bounds,
                                old(self)@[t].triangles@,
                                self@[t].triangles@,
                            );
                        }
                    }
                }
            } else {
                proof {
                    assert forall|t: int| 0 <= t < self@.len() implies #[trigger] self.is_tile_binned(
                        old(self),
                        overlap_test,
                        extents@,
                        i + 1,
                        t,
                    ) by {
                        assert(TILE_WIDTH == 8 && TILE_HEIGHT == 8);
                        assert(self.is_tile_binned(old(self), overlap_test, extents@, i as int, t));
                        assert(!in_tile_range(extent, tx_n, ty_n, t % tx_n, t / tx_n));
                        lemma_bin_skip(
                            overlap_test,
                            extents@,
                            i as int,
                            tx_n,
                            ty_n,
                            t % tx_n,
                            t / tx_n,
                            self@[t].bounds,
                            old(self)@[t].triangles@,
                            self@[t].triangles@,
                        );
                    }
                }
            }
            i += 1;
        }
    }
}

/// What drawing the binned triangles `entries`, one after the other, makes of
/// a pixel.
pub open spec fn is_shaded_by_all<C, D, F: Fn(Cover, usize, usize, usize, D) -> Option<(C, D)>>(
    shade: &F,
    entries: Seq<(Cover, usize)>,
    x: int,
    y: int,
    before: (C, D),
    after: (C, D),
) -> bool
    decreases entries.len(),
{
    if entries.len() == 0 {
        after == before
    } else {
        exists|mid: (C, D)|
            is_shaded_by_all(shade, entries.drop_last(), x, y, before, mid) && is_shaded(
                shade,
                entries.last(),
                x,
                y,
                mid,
                after,
            )
    }
}

/// A pixel that the binned triangles of its tile left in another state than
/// they found it in was drawn on by one of them: `shade` gave a colour and a
/// depth for that triangle at that pixel.
pub proof fn law_changed_pixel_was_drawn<
    C,
    D,
    F: Fn(Cover, usize, usize, usize, D) -> Option<(C, D)>,
>(shade: &F, entries: Seq<(Cover, usize)>, x: int, y: int, before: (C, D), after: (C, D))
    requires
        is_shaded_by_all(shade, entries, x, y, before, after),
        after != before,
    ensures
        exists|k: int, depth: D, drawn: (C, D)|
            0 <= k < entries.len() && #[trigger] call_ensures(
                *shade,
                (entries[k].0, entries[k].1, x as usize, y as usize, depth),
                Some(drawn),
            ),
    decreases entries.len(),
{
    if entries.len() > 0 {
        let mid = choose|mid: (C, D)|
            is_shaded_by_all(shade, entries.drop_last(), x, y, before, mid) && is_shaded(
                shade,
                entries.last(),
                x,
                y,
                mid,
                after,
            );
        if mid != after {
            let k = entries.len() - 1;
            assert(call_ensures(
                *shade,
                (entries[k].0, entries[k].1, x as usize, y as usize, mid.1),
                Some(after),
            ));
        } else {
            law_changed_pixel_was_drawn(shade, entries.drop_last(), x, y, before, mid);
            let (k, depth, drawn) = choose|k: int, depth: D, drawn: (C, D)|
                0 <= k < entries.drop_last().len() && #[trigger] call_ensures(
                    *shade,
                    (
                        entries.drop_last()[k].0,
                        entries.drop_last()[k].1,
                        x as usize,
                        y as usize,
                        depth,
                    ),
                    Some(drawn),
                );
            assert(entries.drop_last()[k] == entries[k]);
            assert(call_ensures(
                *shade,
                (entries[k].0, entries[k].1, x as usize, y as usize, depth),
                Some(drawn),
            ));
        }
    }
}

/// A pixel whose tile holds no triangle stays as it is.
pub proof fn law_empty_bucket_draws_nothing<
    C,
    D,
    F: Fn(Cover, usize, usize, usize, D) -> Option<(C, D)>,
>(shade: &F, x: int, y: int, before: (C, D), after: (C, D))
    requires
        is_shaded_by_all(shade, Seq::<(Cover, usize)>::empty(), x, y, before, after),
    ensures
        after == before,
{
}

/// The index of the tile that holds the pixel `(x, y)`, in a grid with
/// `tiles_x` tiles in a row.
pub open spec fn tile_index_of(tiles_x: int, x: int, y: int) -> int {
    (y / TILE_HEIGHT as int) * tiles_x + x / TILE_WIDTH as int
}

/// The tile of a pixel of the screen is a tile of the grid.
pub proof fn lemma_pixel_tile_index(width: usize, height: usize, x: int, y: int)
    requires
        0 <= x < width,
        0 <= y < height,
    ensures
        0 <= tile_index_of(tiles_across(width as int, TILE_WIDTH as int), x, y) < tiles_across(
            width as int,
            TILE_WIDTH as int,
        ) * tiles_across(height as int, TILE_HEIGHT as int),
{
    assert(TILE_WIDTH == 8 && TILE_HEIGHT == 8);
    lemma_cell_in_grid(
        tiles_across(width as int, TILE_WIDTH as int),
        tiles_across(height as int, TILE_HEIGHT as int),
        x / 8,
        y / 8,
    );
}

/// A pixel of the screen lies in the tile with the index `t` exactly if `t`
/// is the index of the pixel's tile.
pub proof fn lemma_tile_of_pixel(width: usize, height: usize, t: int, x: int, y: int)
    requires
        0 <= x < width,
        0 <= y < height,
        0 <= t < tiles_across(width as int, TILE_WIDTH as int) * tiles_across(
            height as int,
            TILE_HEIGHT as int,
        ),
    ensures
        0 <= tile_index_of(tiles_across(width as int, TILE_WIDTH as int), x, y) < tiles_across(
            width as int,
            TILE_WIDTH as int,
        ) * tiles_across(height as int, TILE_HEIGHT as int),
        tile_bounds(
            width as int,
            height as int,
            t % tiles_across(width as int, TILE_WIDTH as int),
            t / tiles_across(width as int, TILE_WIDTH as int),
        ).contains(x, y) <==> t == tile_index_of(
            tiles_across(width as int, TILE_WIDTH as int),
            x,
            y,
        ),
{
    let tiles_x = tiles_across(width as int, TILE_WIDTH as int);
    let tiles_y = tiles_across(height as int, TILE_HEIGHT as int);
    assert(TILE_WIDTH == 8 && TILE_HEIGHT == 8);
    lemma_cell_of_index(tiles_x, tiles_y, t);
    lemma_tile_bounds(width, height, (t % tiles_x) as usize, (t / tiles_x) as usize);
    lemma_cell_in_grid(tiles_x, tiles_y, x / 8, y / 8);
    if t == tile_index_of(tiles_x, x, y) {
    } else {
        if t % tiles_x == x / 8 && t / tiles_x == y / 8 {
            assert(false);
        }
    }
}

impl TileRenderer {
    /// Draws the binned triangles and empties the buckets.  The tiles are
    /// taken in the order of the grid and, in each tile, the triangles in the
    /// order of the bucket; every pixel is shaded by the triangles of its own
    /// tile, one after the other, and by nothing else.
    pub fn draw_tiles<C: Copy, D: Copy, F: Fn(Cover, usize, usize, usize, D) -> Option<(C, D)>>(
        &mut self,
        fb: &mut Framebuffer<C, D>,
        shade: &F,
    )
        requires
            old(self).wf(),
            old(fb).wf(),
            old(fb).spec_width() == old(self).spec_width(),
            old(fb).spec_height() == old(self).spec_height(),
            shades_screen(shade, old(fb).spec_width(), old(fb).spec_height()),
        ensures
            final(self).wf(),
            final(self).spec_width() == old(self).spec_width(),
            final(self).spec_height() == old(self).spec_height(),
            final(self).is_drained(),
            final(fb).wf(),
            final(fb).spec_width() == old(fb).spec_width(),
            final(fb).spec_height() == old(fb).spec_height(),
            forall|x: int, y: int|
                0 <= x < old(fb).spec_width() && 0 <= y < old(fb).spec_height()
                    ==> is_shaded_by_all(
                    shade,
                    old(self).bucket(tile_index_of(old(self).spec_tiles_x() as int, x, y)),
                    x,
                    y,
                    pixel(old(fb), x, y),
                    #[trigger] pixel(final(fb), x, y),
                ),
    {
        let count = self.tiles.len();
        let ghost w = self.width;
        let ghost h = self.height;
        let ghost tiles_x = self.tiles_x as int;
        let mut t: usize = 0;
        while t < count
            invariant
                t <= count,
                count == self@.len(),
                count == old(self)@.len(),
                self.wf(),
                old(self).wf(),
                self.width == old(self).width,
                self.height == old(self).height,
                self.tiles_x == old(self).tiles_x,
                self.tiles_y == old(self).tiles_y,
                w == self.width,
                h == self.height,
                tiles_x == self.tiles_x,
                fb.wf(),
                old(fb).wf(),
                fb.spec_width() == w,
                fb.spec_height() == h,
                old(fb).spec_width() == w,
                old(fb).spec_height() == h,
                shades_screen(shade, w, h),
                forall|i: int| 0 <= i < t ==> (#[trigger] self@[i]).triangles@.len() == 0,
                forall|i: int| t <= i < count ==> (#[trigger] self@[i]) == old(self)@[i],
                forall|x: int, y: int|
                    0 <= x < w && 0 <= y < h ==> (if tile_index_of(tiles_x, x, y) < t {
                        is_shaded_by_all(
                            shade,
                            old(self).bucket(tile_index_of(tiles_x, x, y)),
                            x,
                            y,
                            pixel(old(fb), x, y),
                            #[trigger] pixel(fb, x, y),
                        )
                    } else {
                        pixel(fb, x, y) == pixel(old(fb), x, y)
                    }),
            decreases count - t,
        {
            let bounds = self.tiles[t].bounds;
            let entries = self.tiles[t].triangles.len();
            let ghost bucket = self@[t as int].triangles@;
            let ghost start = *fb;
            proof {
                lemma_cell_of_index(tiles_x, self.tiles_y as int, t as int);
                law_tile_on_screen(
                    w,
                    h,
                    (t as int % tiles_x) as usize,
                    (t as int / tiles_x) as usize,
                );
            }
            let mut k: usize = 0;
            while k < entries
                invariant
                    k <= entries,
                    t < count,
                    count == self@.len(),
                    entries == bucket.len(),
                    bucket == self@[t as int].triangles@,
                    bounds == self@[t as int].bounds,
                    bounds.max_x <= w,
                    bounds.max_y <= h,
                    fb.wf(),
                    start.wf(),
                    fb.spec_width() == w,
                    fb.spec_height() == h,
                    start.spec_width() == w,
                    start.spec_height() == h,
                    shades_screen(shade, w, h),
                    forall|x: int, y: int|
                        0 <= x < w && 0 <= y < h ==> (if bounds.contains(x, y) {
                            is_shaded_by_all(
                                shade,
                                bucket.take(k as int),
                                x,
                                y,
                                pixel(&start, x, y),
                                #[trigger] pixel(fb, x, y),
                            )
                        } else {
                            pixel(fb, x, y) == pixel(&start, x, y)
                        }),
                decreases entries - k,
            {
                let (cover, triangle) = self.tiles[t].triangles[k];
                let ghost previous = *fb;
                render_tile(fb, &bounds, cover, triangle, shade);
                proof {
                    assert forall|x: int, y: int| 0 <= x < w && 0 <= y < h implies (if bounds.contains(
                        x,
                        y,
                    ) {
                        is_shaded_by_all(
                            shade,
                            bucket.take(k as int + 1),
                            x,
                            y,
                            pixel(&start, x, y),
                            #[trigger] pixel(fb, x, y),
                        )
                    } else {
                        pixel(fb, x, y) == pixel(&start, x, y)
                    }) by {
                        let _ = pixel(&previous, x, y);
                        if bounds.contains(x, y) {
                            let grown = bucket.take(k as int + 1);
                            assert(grown.drop_last() =~= bucket.take(k as int));
                            assert(grown.last() == (cover, triangle));
                            assert(is_shaded_by_all(
                                shade,
                                grown.drop_last(),
                                x,
                                y,
                                pixel(&start, x, y),
                                pixel(&previous, x, y),
                            ));
                            assert(is_shaded(
                                shade,
                                grown.last(),
                                x,
                                y,
                                pixel(&previous, x, y),
                                pixel(fb, x, y),
                            ));
                        }
                    }
                }
                k += 1;
            }
            self.tiles[t].triangles.clear();
            proof {
                assert(bucket.take(entries as int) =~= bucket);
                assert forall|x: int, y: int| 0 <= x < w && 0 <= y < h implies (if tile_index_of(
                    tiles_x,
                    x,
                    y,
                ) < t + 1 {
                    is_shaded_by_all(
                        shade,
                        old(self).bucket(tile_index_of(tiles_x, x, y)),
                        x,
                        y,
                        pixel(old(fb), x, y),
                        #[trigger] pixel(fb, x, y),
                    )
                } else {
                    pixel(fb, x, y) == pixel(old(fb), x, y)
                }) by {
                    lemma_tile_of_pixel(w, h, t as int, x, y);
                    let _ = pixel(&start, x, y);
                }
            }
            t += 1;
        }
        proof {
            assert forall|x: int, y: int| 0 <= x < w && 0 <= y < h implies is_shaded_by_all(
                shade,
                old(self).bucket(tile_index_of(tiles_x, x, y)),
                x,
                y,
                pixel(old(fb), x, y),
                #[trigger] pixel(fb, x, y),
            ) by {
                lemma_pixel_tile_index(w, h, x, y);
            }
        }
    }

    /// Empties every bucket without drawing.
    pub fn drain(&mut self)
        requires
            old(self).wf(),
        ensures
            final(self).wf(),
            final(self).spec_width() == old(self).spec_width(),
            final(self).spec_height() == old(self).spec_height(),
            final(self).is_drained(),
    {
        let count = self.tiles.len();
        let mut t: usize = 0;
        while t < count
            invariant
                t <= count,
                count == self@.len(),
                self.wf(),
                self.width == old(self).width,
                self.height == old(self).height,
                forall|i: int| 0 <= i < t ==> (#[trigger] self@[i]).triangles@.len() == 0,
            decreases count - t,
        {
            self.tiles[t].triangles.clear();
            t += 1;
        }
    }

    /// Renders a frame's triangles: bins them, then draws tile by tile.
    pub fn render<
        C: Copy,
        D: Copy,
        T: Fn(usize, &Bounds) -> Overlap,
        F: Fn(Cover, usize, usize, usize, D) -> Option<(C, D)>,
    >(&mut self, fb: &mut Framebuffer<C, D>, extents: &[Bounds], overlap_test: &T, shade: &F)
        requires
            old(self).wf(),
            old(fb).wf(),
            old(fb).spec_width() == old(self).spec_width(),
            old(fb).spec_height() == old(self).spec_height(),
            forall|i: usize, bounds: &Bounds|
                i < extents@.len() ==> call_requires(*overlap_test, (i, bounds)),
            shades_screen(shade, old(fb).spec_width(), old(fb).spec_height()),
        ensures
            final(self).wf(),
            final(self).spec_width() == old(self).spec_width(),
            final(self).spec_height() == old(self).spec_height(),
            final(self).is_drained(),
            final(fb).wf(),
            final(fb).spec_width() == old(fb).spec_width(),
            final(fb).spec_height() == old(fb).spec_height(),
            exists|binned: TileRenderer|
                {
                    &&& binned.wf()
                    &&& binned.spec_width() == old(self).spec_width()
                    &&& binned.spec_height() == old(self).spec_height()
                    &&& forall|t: int|
                        0 <= t < binned@.len() ==> #[trigger] binned.is_tile_binned(
                            old(self),
                            overlap_test,
                            extents@,
                            extents@.len() as int,
                            t,
                        )
                    &&& forall|x: int, y: int|
                        0 <= x < old(fb).spec_width() && 0 <= y < old(fb).spec_height()
                            ==> is_shaded_by_all(
                            shade,
                            binned.bucket(tile_index_of(binned.spec_tiles_x() as int, x, y)),
                            x,
                            y,
                            pixel(old(fb), x, y),
                            #[trigger] pixel(final(fb), x, y),
                        )
                },
    {
        self.place_triangles(extents, overlap_test);
        let ghost binned = *self;
        self.draw_tiles(fb, shade);
        proof {
            assert(binned.wf());
        }
    }
}

/// The number of tiles that a worker claims at a time.
pub const CHUNK: isize = 32;

/// The value of the counter of unclaimed tiles that tells the workers to
/// stop.
pub const DONE: isize = isize::MIN;

/// The counter of unclaimed tiles after a worker read `available` from it:
/// one chunk less, or the stop value where no tile was left.
pub fn next_available(available: isize) -> (next: isize)
    ensures
        next == (if available < 1 {
            DONE
        } else {
            (available - CHUNK) as isize
        }),
{
    if available < 1 {
        DONE
    } else {
        available - CHUNK
    }
}

/// The tiles that fall to the worker that read `available` from the counter
/// of unclaimed tiles: the last chunk of the tiles below `available`, as a
/// range of tile indices, or nothing where no tile was left.
pub fn claimed_chunk(available: isize) -> (chunk: Option<(usize, usize)>)
    ensures
        chunk.is_some() == (available >= 1),
        chunk.is_some() ==> chunk.unwrap().1 == available && chunk.unwrap().0 == (if available
            > CHUNK {
            available - CHUNK
        } else {
            0
        }),
{
    if available < 1 {
        None
    } else {
        let from = if available > CHUNK {
            available - CHUNK
        } else {
            0
        };
        Some((from as usize, available as usize))
    }
}

/// The counter of unclaimed tiles after `claims` workers read it, starting
/// from `tiles`.
pub open spec fn available_after(tiles: int, claims: nat) -> int
    decreases claims,
{
    if claims == 0 {
        tiles
    } else if available_after(tiles, (claims - 1) as nat) < 1 {
        DONE as int
    } else {
        available_after(tiles, (claims - 1) as nat) - CHUNK
    }
}

/// Every tile is claimed exactly once: tile `i` of `tiles` falls to the
/// worker that makes claim number `(tiles - 1 - i) / CHUNK`, and to no other.
pub proof fn law_tile_is_claimed_once(tiles: int, i: int, claims: nat)
    requires
        0 <= i < tiles <= isize::MAX,
    ensures
        available_after(tiles, claims) >= 1 ==> available_after(tiles, claims) == tiles - CHUNK
            * claims,
        (available_after(tiles, claims) >= 1 && (if available_after(tiles, claims) > CHUNK {
            available_after(tiles, claims) - CHUNK
        } else {
            0
        }) <= i < available_after(tiles, claims)) <==> claims == (tiles - 1 - i) / (CHUNK as int),
    decreases claims,
{
    assert(CHUNK == 32);
    lemma_available(tiles, claims);
    if tiles - 32 * claims >= 1 {
    } else {
    }
}

/// The counter goes down by a chunk with each claim until no tile is left,
/// and shows the stop value or less than one tile from then on.
proof fn lemma_available(tiles: int, claims: nat)
    requires
        0 <= tiles <= isize::MAX,
    ensures
        tiles - CHUNK * claims >= 1 ==> available_after(tiles, claims) == tiles - CHUNK * claims,
        tiles - CHUNK * claims < 1 ==> available_after(tiles, claims) < 1,
    decreases claims,
{
    assert(CHUNK == 32);
    if claims > 0 {
        lemma_available(tiles, (claims - 1) as nat);
    }
}

} // verus!
