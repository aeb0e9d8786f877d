use renderer::asset_manager::Named;
use renderer::texture::mipmap::{
    calculate_mip_levels, clamp_mip_level, downscale_3x3_box_filter, generate_mip_maps,
    mip_total_fits, sample_clamp, sample_wrap,
};
use renderer::texture::{Bitmap, MipLevel, Texture};
use renderer::MIP_LEVELS;

fn average(window: &[f32; 9]) -> f32 {
    let mut sum = 0.0;
    for sample in window {
        sum += sample;
    }
    sum / 9.0
}

fn sum_u32(window: &[u32; 9]) -> u32 {
    window.iter().sum()
}

fn level(levels: &[MipLevel; MIP_LEVELS], k: usize) -> (usize, usize, usize) {
    (levels[k].width, levels[k].height, levels[k].offset)
}

#[test]
fn mip_levels_halve_and_add_up() {
    let bitmap: Bitmap<u8> = Bitmap::new(8, 4, vec![0; 32]);
    let levels = calculate_mip_levels(&bitmap);
    assert_eq!(level(&levels, 0), (8, 4, 0));
    assert_eq!(level(&levels, 1), (4, 2, 32));
    assert_eq!(level(&levels, 2), (2, 1, 40));
}

#[test]
fn mip_levels_round_down() {
    let bitmap: Bitmap<u8> = Bitmap::new(5, 3, vec![0; 15]);
    let levels = calculate_mip_levels(&bitmap);
    assert_eq!(level(&levels, 0), (5, 3, 0));
    assert_eq!(level(&levels, 1), (2, 1, 15));
    assert_eq!(level(&levels, 2), (1, 0, 17));
}

#[test]
fn mip_levels_of_empty_bitmap() {
    let bitmap: Bitmap<u8> = Bitmap::new(0, 0, Vec::new());
    let levels = calculate_mip_levels(&bitmap);
    for k in 0..MIP_LEVELS {
        assert_eq!(level(&levels, k), (0, 0, 0));
    }
}

#[test]
fn texture_buffer_holds_every_level() {
    for (w, h) in [(1usize, 1usize), (2, 2), (4, 4), (5, 3), (8, 4), (16, 9)] {
        let bitmap: Bitmap<f32> = Bitmap::new(w, h, vec![0.5; w * h]);
        let texture = Texture::from_bitmap(bitmap, "t".to_owned(), 0.0, &average);
        let mut total = 0;
        for k in 0..MIP_LEVELS {
            assert_eq!(texture.levels[k].width, w >> k);
            assert_eq!(texture.levels[k].height, h >> k);
            assert_eq!(texture.levels[k].offset, total);
            total += (w >> k) * (h >> k);
        }
        assert_eq!(texture.pixels.len(), total);
    }
}

#[test]
fn sample_wrap_wraps_round() {
    let src: Vec<u32> = (0..12).collect();
    assert_eq!(sample_wrap(&src, 4, 3, 0, 0), 0);
    assert_eq!(sample_wrap(&src, 4, 3, 3, 2), 11);
    assert_eq!(sample_wrap(&src, 4, 3, -1, 0), 3);
    assert_eq!(sample_wrap(&src, 4, 3, 0, -1), 8);
    assert_eq!(sample_wrap(&src, 4, 3, -1, -1), 11);
    assert_eq!(sample_wrap(&src, 4, 3, 4, 3), 0);
    assert_eq!(sample_wrap(&src, 4, 3, 5, 1), 5);
    assert_eq!(sample_wrap(&src, 4, 3, -5, -4), 11);
    assert_eq!(sample_wrap(&src, 4, 3, -4, -3), 0);
}

#[test]
fn sample_clamp_stops_at_the_edge() {
    let src: Vec<u32> = (0..12).collect();
    assert_eq!(sample_clamp(&src, 4, 3, 1, 1), 5);
    assert_eq!(sample_clamp(&src, 4, 3, -1, 0), 0);
    assert_eq!(sample_clamp(&src, 4, 3, -3, -3), 0);
    assert_eq!(sample_clamp(&src, 4, 3, 4, 1), 7);
    assert_eq!(sample_clamp(&src, 4, 3, 9, 9), 11);
    assert_eq!(sample_clamp(&src, 4, 3, 2, -1), 2);
}

#[test]
fn downscale_sums_the_box_with_wrapping() {
    // 4 x 2 image; the filter sums instead of averaging, to keep integers
    //   0 1 2 3
    //   4 5 6 7
    let src: Vec<u32> = (0..8).collect();
    let mut dst = vec![100u32; 4];
    downscale_3x3_box_filter(&src, 4, 2, &mut dst, &sum_u32);
    // pixel (0,0): columns 3,0,1 and rows 1,0,1
    let left = (7 + 4 + 5) + (3 + 0 + 1) + (7 + 4 + 5);
    // pixel (1,0): columns 1,2,3 and rows 1,0,1
    let right = (5 + 6 + 7) + (1 + 2 + 3) + (5 + 6 + 7);
    assert_eq!(dst, vec![left, right, 100, 100]);
}

#[test]
fn downscale_of_a_row_or_a_column_writes_nothing() {
    let src: Vec<u32> = (0..4).collect();
    let mut dst = vec![9u32; 2];
    downscale_3x3_box_filter(&src, 4, 1, &mut dst, &sum_u32);
    assert_eq!(dst, vec![9, 9]);
    downscale_3x3_box_filter(&src, 1, 4, &mut dst, &sum_u32);
    assert_eq!(dst, vec![9, 9]);
}

#[test]
fn downscale_averages_floats() {
    let src = vec![1.0f32; 16];
    let mut dst = vec![0.0f32; 4];
    downscale_3x3_box_filter(&src, 4, 4, &mut dst, &average);
    for value in dst {
        assert!((value - 1.0).abs() < 1e-6);
    }
}

#[test]
fn generate_mip_maps_fills_the_later_levels() {
    let bitmap: Bitmap<u32> = Bitmap::new(4, 4, vec![1; 16]);
    let levels = calculate_mip_levels(&bitmap);
    let mut buffer = vec![1u32; 16];
    buffer.extend(vec![0u32; 5]);
    generate_mip_maps(&levels, &mut buffer, &sum_u32);
    assert_eq!(&buffer[..16], &[1u32; 16][..]);
    assert_eq!(&buffer[16..20], &[9u32; 4][..]);
    assert_eq!(buffer[20], 81);
}

#[test]
fn texture_from_bitmap_keeps_level_zero() {
    let pixels: Vec<f32> = (0..16).map(|i| i as f32).collect();
    let bitmap = Bitmap::new(4, 4, pixels.clone());
    let texture = Texture::from_bitmap(bitmap, "wood".to_owned(), -1.0, &average);
    assert_eq!(texture.name(), "wood");
    assert_eq!(&texture.pixels[..16], &pixels[..]);
    assert_eq!(texture.pixels.len(), 16 + 4 + 1);
    // level 1, pixel (1, 1): the box round source pixel (2, 2)
    let expected = (5.0 + 6.0 + 7.0 + 9.0 + 10.0 + 11.0 + 13.0 + 14.0 + 15.0) / 9.0;
    assert!((texture.texel(1, 1, 1) - expected).abs() < 1e-5);
}

#[test]
fn texture_from_short_bitmap_is_filled() {
    let bitmap = Bitmap::new(2, 2, vec![3u32, 4]);
    let texture = Texture::from_bitmap(bitmap, "short".to_owned(), 7, &sum_u32);
    assert_eq!(&texture.pixels[..4], &[3, 4, 7, 7]);
    assert_eq!(texture.pixels.len(), 5);
    // level 1 is one pixel: the box round (0, 0) wraps over the whole image
    assert_eq!(texture.pixels[4], 3 * 1 + 4 * 2 + 7 * 2 + 7 * 4);
}

#[test]
fn texel_reads_each_level() {
    let pixels: Vec<u32> = (0..32).collect();
    let bitmap = Bitmap::new(8, 4, pixels);
    let texture = Texture::from_bitmap(bitmap, "t".to_owned(), 0, &sum_u32);
    assert_eq!(texture.texel(0, 0, 0), 0);
    assert_eq!(texture.texel(7, 3, 0), 31);
    assert_eq!(texture.texel(3, 2, 0), 19);
    assert_eq!(texture.texel(0, 0, 1), texture.pixels[32]);
    assert_eq!(texture.texel(3, 1, 1), texture.pixels[32 + 7]);
    assert_eq!(texture.texel(1, 0, 2), texture.pixels[41]);
}

#[test]
fn bitmap_accessors() {
    let bitmap = Bitmap::new(3, 2, vec![1u8, 2, 3, 4, 5, 6]);
    assert_eq!(bitmap.width(), 3);
    assert_eq!(bitmap.height(), 2);
    assert_eq!(bitmap.pixels(), &[1, 2, 3, 4, 5, 6]);
}

#[test]
fn bitmap_from_rgba8_drops_alpha() {
    let bytes = [10u8, 20, 30, 255, 40, 50, 60, 0, 70, 80];
    let bitmap = Bitmap::from_rgba8(2, 1, &bytes, &|r, g, b| (r, g, b));
    assert_eq!(bitmap.width(), 2);
    assert_eq!(bitmap.height(), 1);
    assert_eq!(bitmap.pixels(), &[(10, 20, 30), (40, 50, 60)]);
}

#[test]
fn mip_level_is_clamped() {
    assert_eq!(clamp_mip_level(0), 0);
    assert_eq!(clamp_mip_level(1), 1);
    assert_eq!(clamp_mip_level(2), 2);
    assert_eq!(clamp_mip_level(3), 2);
    assert_eq!(clamp_mip_level(usize::MAX), 2);
}

#[test]
fn mip_total_is_the_sum_of_the_levels() {
    assert_eq!(mip_total_fits(8, 4), Some(32 + 8 + 2));
    assert_eq!(mip_total_fits(5, 3), Some(15 + 2 + 0));
    assert_eq!(mip_total_fits(0, 9), Some(0));
    assert_eq!(mip_total_fits(1, 1), Some(1));
    assert_eq!(mip_total_fits(usize::MAX, 1), Some(usize::MAX));
    assert_eq!(mip_total_fits(usize::MAX, 2), None);
    // the first level fits, the second does not fit beside it
    assert_eq!(mip_total_fits(usize::MAX / 2, 2), None);
}
