use renderer::framebuffer::Framebuffer;
use renderer::line::LineRenderer;
use renderer::sat::{overlap_test, AxisTest, Overlap};
use renderer::tile::{
    claimed_chunk, next_available, render_tile, Bounds, Cover, TileRenderer, CHUNK, DONE,
};

fn axis(overlaps: bool, contains: bool) -> AxisTest {
    AxisTest { overlaps, contains }
}

fn bounds(min_x: usize, min_y: usize, max_x: usize, max_y: usize) -> Bounds {
    Bounds { min_x, min_y, max_x, max_y }
}

fn corners(b: &Bounds) -> (usize, usize, usize, usize) {
    (b.min_x, b.min_y, b.max_x, b.max_y)
}

fn bucket(tiles: &TileRenderer, index: usize) -> Vec<(bool, usize)> {
    tiles.tiles()[index].triangles.iter().map(|(c, t)| (matches!(c, Cover::Full), *t)).collect()
}

#[test]
fn framebuffer_starts_cleared() {
    let fb: Framebuffer<u32, i64> = Framebuffer::new(4, 3, 7, i64::MAX);
    assert_eq!(fb.width(), 4);
    assert_eq!(fb.height(), 3);
    assert_eq!(fb.pixels(), &[7u32; 12][..]);
    assert_eq!(fb.depth(), &[i64::MAX; 12][..]);
}

#[test]
fn framebuffer_write_and_clear() {
    let mut fb: Framebuffer<u32, i64> = Framebuffer::new(4, 3, 0, 100);
    fb.write(5, 9, 50);
    assert_eq!(fb.pixel_at(5), 9);
    assert_eq!(fb.depth_at(5), 50);
    assert_eq!(fb.pixel_at(4), 0);
    fb.set_pixel(6, 3);
    assert_eq!(fb.pixel_at(6), 3);
    assert_eq!(fb.depth_at(6), 100);
    fb.pixels_mut()[0] = 1;
    fb.depth_mut()[0] = 2;
    assert_eq!(fb.pixel_at(0), 1);
    assert_eq!(fb.depth_at(0), 2);
    fb.clear_depth_buffer(77);
    assert_eq!(fb.depth(), &[77i64; 12][..]);
    assert_eq!(fb.pixel_at(5), 9);
    fb.clear_colour_buffer(4);
    assert_eq!(fb.pixels(), &[4u32; 12][..]);
    assert_eq!(fb.depth(), &[77i64; 12][..]);
}

#[test]
fn framebuffer_without_pixels() {
    let mut fb: Framebuffer<u32, i64> = Framebuffer::new(0, 5, 7, 1);
    assert!(fb.pixels().is_empty());
    fb.clear_colour_buffer(1);
    fb.clear_depth_buffer(2);
    assert!(fb.depth().is_empty());
}

#[test]
fn overlap_test_classifies() {
    assert!(matches!(overlap_test(&[axis(true, true); 5]), Overlap::Full));
    assert!(matches!(
        overlap_test(&[axis(true, true), axis(true, false), axis(true, true)]),
        Overlap::Partial
    ));
    assert!(matches!(
        overlap_test(&[axis(true, true), axis(true, true), axis(false, false)]),
        Overlap::Disjoint
    ));
    assert!(matches!(
        overlap_test(&[axis(false, true), axis(true, true)]),
        Overlap::Disjoint
    ));
    assert!(matches!(
        overlap_test(&[axis(true, false), axis(false, true)]),
        Overlap::Disjoint
    ));
    assert!(matches!(overlap_test(&[]), Overlap::Full));
}

#[test]
fn tile_grid_covers_the_screen() {
    let mut tiles = TileRenderer::new();
    assert_eq!(tiles.tiles().len(), 0);
    tiles.update_viewport(20, 10);
    assert_eq!(tiles.tiles_x(), 3);
    assert_eq!(tiles.tiles_y(), 2);
    assert_eq!(tiles.tiles().len(), 6);
    assert_eq!(corners(&tiles.tiles()[0].bounds), (0, 0, 8, 8));
    assert_eq!(corners(&tiles.tiles()[1].bounds), (8, 0, 16, 8));
    assert_eq!(corners(&tiles.tiles()[2].bounds), (16, 0, 20, 8));
    assert_eq!(corners(&tiles.tiles()[3].bounds), (0, 8, 8, 10));
    assert_eq!(corners(&tiles.tiles()[5].bounds), (16, 8, 20, 10));
    assert!(tiles.tiles().iter().all(|t| t.triangles.is_empty()));
}

#[test]
fn tile_grid_of_whole_tiles_and_of_nothing() {
    let mut tiles = TileRenderer::new();
    tiles.update_viewport(16, 8);
    assert_eq!((tiles.tiles_x(), tiles.tiles_y()), (2, 1));
    assert_eq!(corners(&tiles.tiles()[1].bounds), (8, 0, 16, 8));
    tiles.update_viewport(0, 0);
    assert_eq!((tiles.tiles_x(), tiles.tiles_y()), (0, 0));
    assert!(tiles.tiles().is_empty());
    tiles.update_viewport(1, 1);
    assert_eq!(tiles.tiles().len(), 1);
    assert_eq!(corners(&tiles.tiles()[0].bounds), (0, 0, 1, 1));
}

#[test]
fn every_pixel_lies_in_one_tile() {
    let mut tiles = TileRenderer::new();
    tiles.update_viewport(19, 13);
    for y in 0..13 {
        for x in 0..19 {
            let holders: Vec<usize> = (0..tiles.tiles().len())
                .filter(|t| {
                    let b = &tiles.tiles()[*t].bounds;
                    b.min_x <= x && x < b.max_x && b.min_y <= y && y < b.max_y
                })
                .collect();
            assert_eq!(holders, vec![(y / 8) * tiles.tiles_x() + x / 8]);
        }
    }
}

#[test]
fn place_triangles_bins_by_extent_and_test() {
    let mut tiles = TileRenderer::new();
    tiles.update_viewport(24, 16);
    // triangle 0 touches the four tiles on the left, 1 only the tile in the
    // corner, 2 lies off the screen, 3 touches everything but meets nothing
    let extents = [
        bounds(2, 3, 12, 12),
        bounds(17, 9, 23, 15),
        bounds(30, 30, 40, 40),
        bounds(0, 0, 24, 16),
    ];
    tiles.place_triangles(&extents, &|triangle, tile: &Bounds| match triangle {
        0 => {
            if tile.min_x == 0 && tile.min_y == 0 {
                Overlap::Full
            } else {
                Overlap::Partial
            }
        }
        1 => Overlap::Full,
        _ => Overlap::Disjoint,
    });
    assert_eq!(bucket(&tiles, 0), vec![(true, 0)]);
    assert_eq!(bucket(&tiles, 1), vec![(false, 0)]);
    assert_eq!(bucket(&tiles, 2), vec![]);
    assert_eq!(bucket(&tiles, 3), vec![(false, 0)]);
    assert_eq!(bucket(&tiles, 4), vec![(false, 0)]);
    assert_eq!(bucket(&tiles, 5), vec![(true, 1)]);
}

#[test]
fn place_triangles_keeps_the_order_of_the_triangles() {
    let mut tiles = TileRenderer::new();
    tiles.update_viewport(8, 8);
    let extents = [bounds(0, 0, 8, 8), bounds(1, 1, 2, 2), bounds(0, 0, 1, 1)];
    tiles.place_triangles(&extents, &|_, _: &Bounds| Overlap::Partial);
    assert_eq!(bucket(&tiles, 0), vec![(false, 0), (false, 1), (false, 2)]);
    // a second round is added behind the first
    tiles.place_triangles(&extents[..1], &|_, _: &Bounds| Overlap::Full);
    assert_eq!(bucket(&tiles, 0), vec![(false, 0), (false, 1), (false, 2), (true, 0)]);
}

#[test]
fn place_triangles_tests_only_candidate_tiles() {
    let mut tiles = TileRenderer::new();
    tiles.update_viewport(32, 8);
    // the extent ends exactly on a tile edge: the tile behind it is no candidate
    let extents = [bounds(8, 0, 16, 8), bounds(7, 0, 17, 1)];
    tiles.place_triangles(&extents, &|_, _: &Bounds| Overlap::Full);
    assert_eq!(bucket(&tiles, 0), vec![(true, 1)]);
    assert_eq!(bucket(&tiles, 1), vec![(true, 0), (true, 1)]);
    assert_eq!(bucket(&tiles, 2), vec![(true, 1)]);
    assert_eq!(bucket(&tiles, 3), vec![]);
}

#[test]
fn render_tile_visits_the_tile_row_by_row() {
    let mut fb: Framebuffer<usize, usize> = Framebuffer::new(5, 4, 0, 1000);
    let tile = bounds(1, 1, 4, 3);
    // the colour records the coordinates, the depth the triangle
    render_tile(&mut fb, &tile, Cover::Full, 6, &|_, triangle, x, y, depth| {
        assert_eq!(depth, 1000);
        Some((10 * y + x, triangle))
    });
    let expected = vec![
        0,  0,  0,  0, 0,
        0, 11, 12, 13, 0,
        0, 21, 22, 23, 0,
        0,  0,  0,  0, 0,
    ];
    assert_eq!(fb.pixels(), &expected[..]);
    let depths: Vec<usize> = expected.iter().map(|c| if *c == 0 { 1000 } else { 6 }).collect();
    assert_eq!(fb.depth(), &depths[..]);
}

#[test]
fn render_tile_leaves_what_the_shader_skips() {
    let mut fb: Framebuffer<usize, usize> = Framebuffer::new(3, 3, 0, 9);
    render_tile(&mut fb, &bounds(0, 0, 3, 3), Cover::Partial, 0, &|_, _, x, y, _| {
        if x == y {
            Some((1, 5))
        } else {
            None
        }
    });
    assert_eq!(fb.pixels(), &[1, 0, 0, 0, 1, 0, 0, 0, 1]);
    assert_eq!(fb.depth(), &[5, 9, 9, 9, 5, 9, 9, 9, 5]);
    // an empty tile touches nothing
    render_tile(&mut fb, &bounds(2, 2, 2, 3), Cover::Full, 0, &|_, _, _, _, _| Some((8, 8)));
    render_tile(&mut fb, &bounds(3, 3, 3, 3), Cover::Full, 0, &|_, _, _, _, _| Some((8, 8)));
    assert_eq!(fb.pixels(), &[1, 0, 0, 0, 1, 0, 0, 0, 1]);
}

#[test]
fn draw_tiles_shades_in_bucket_order_and_drains() {
    let mut tiles = TileRenderer::new();
    tiles.update_viewport(10, 8);
    let mut fb: Framebuffer<usize, usize> = Framebuffer::new(10, 8, 0, 100);
    // triangles 0 and 1 have the same depth everywhere, 2 is nearer
    let depths = [50, 50, 40];
    let extents = [bounds(0, 0, 10, 8), bounds(0, 0, 10, 8), bounds(8, 0, 10, 8)];
    tiles.place_triangles(&extents, &|_, _: &Bounds| Overlap::Full);
    tiles.draw_tiles(&mut fb, &|_, triangle, _, _, depth| {
        if depths[triangle] < depth {
            Some((triangle + 1, depths[triangle]))
        } else {
            None
        }
    });
    for y in 0..8 {
        for x in 0..10 {
            let i = y * 10 + x;
            // on equal depth the triangle that was binned first stays
            let expected = if x < 8 { (1, 50) } else { (3, 40) };
            assert_eq!((fb.pixels()[i], fb.depth()[i]), expected);
        }
    }
    assert!(tiles.tiles().iter().all(|t| t.triangles.is_empty()));
}

#[test]
fn render_bins_and_draws() {
    let mut tiles = TileRenderer::new();
    tiles.update_viewport(16, 16);
    let mut fb: Framebuffer<usize, usize> = Framebuffer::new(16, 16, 0, 100);
    let extents = [bounds(4, 4, 12, 12)];
    tiles.render(
        &mut fb,
        &extents,
        &|_, _: &Bounds| Overlap::Partial,
        &|cover, _, x, y, _| {
            assert!(matches!(cover, Cover::Partial));
            if (4..12).contains(&x) && (4..12).contains(&y) {
                Some((1, 1))
            } else {
                None
            }
        },
    );
    for y in 0..16 {
        for x in 0..16 {
            let inside = (4..12).contains(&x) && (4..12).contains(&y);
            assert_eq!(fb.pixels()[y * 16 + x], inside as usize);
        }
    }
    assert!(tiles.tiles().iter().all(|t| t.triangles.is_empty()));
}

#[test]
fn line_renderer_ignores_the_viewport() {
    let mut lines = LineRenderer;
    lines.update_viewport(100, 50);
    lines.update_viewport(0, 0);
}

#[test]
fn horizontal_and_vertical_lines() {
    let mut lines = LineRenderer;
    let mut fb: Framebuffer<u8, u8> = Framebuffer::new(5, 4, 0, 9);
    lines.draw_h_line(&mut fb, 1, 2, 3, 7);
    lines.draw_v_line(&mut fb, 4, 0, 4, 5);
    lines.draw_v_line(&mut fb, 0, 1, 2, 3);
    lines.draw_h_line(&mut fb, 2, 0, 0, 1);
    lines.draw_v_line(&mut fb, 2, 4, 0, 1);
    let expected = vec![
        0, 0, 0, 0, 5,
        3, 0, 0, 0, 5,
        3, 7, 7, 7, 5,
        0, 0, 0, 0, 5,
    ];
    assert_eq!(fb.pixels(), &expected[..]);
    assert_eq!(fb.depth(), &[9u8; 20][..]);
}

#[test]
fn drain_empties_the_buckets() {
    let mut tiles = TileRenderer::new();
    tiles.update_viewport(16, 8);
    tiles.place_triangles(&[bounds(0, 0, 16, 8)], &|_, _: &Bounds| Overlap::Full);
    assert_eq!(bucket(&tiles, 1), vec![(true, 0)]);
    tiles.drain();
    assert!(tiles.tiles().iter().all(|t| t.triangles.is_empty()));
    assert_eq!((tiles.width(), tiles.height()), (16, 8));
    assert_eq!(corners(&tiles.tiles()[1].bounds), (8, 0, 16, 8));
}

#[test]
fn chunks_are_claimed_from_the_top() {
    assert_eq!(CHUNK, 32);
    assert_eq!(claimed_chunk(100), Some((68, 100)));
    assert_eq!(next_available(100), 68);
    assert_eq!(claimed_chunk(33), Some((1, 33)));
    assert_eq!(claimed_chunk(32), Some((0, 32)));
    assert_eq!(claimed_chunk(5), Some((0, 5)));
    assert_eq!(next_available(5), -27);
    assert_eq!(claimed_chunk(0), None);
    assert_eq!(claimed_chunk(-27), None);
    assert_eq!(next_available(-27), DONE);
    assert_eq!(next_available(0), DONE);
    assert_eq!(claimed_chunk(DONE), None);
    assert_eq!(next_available(DONE), DONE);
}

#[test]
fn every_tile_is_claimed_once() {
    for tiles in [0usize, 1, 31, 32, 33, 64, 100] {
        let mut claimed = vec![0; tiles];
        let mut available = tiles as isize;
        while available != DONE {
            if let Some((from, to)) = claimed_chunk(available) {
                for i in from..to {
                    claimed[i] += 1;
                }
            }
            available = next_available(available);
        }
        assert!(claimed.iter().all(|n| *n == 1));
    }
}
