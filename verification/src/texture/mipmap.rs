//! The layout of a mip chain in one buffer, and the filter that fills it.

use super::bitmap::Bitmap;
use crate::MIP_LEVELS;
use vstd::prelude::*;

verus! {

/// Where one mip level lies in a texture's pixel buffer.
#[derive(Clone, Copy, Debug)]
pub struct MipLevel {
    pub width: usize,
    pub height: usize,
    pub offset: usize,
}

/// A dimension of mip level `k` of an image whose dimension is `d`: `d`
/// halved `k` times, rounding down.
pub open spec fn mip_dim(d: nat, k: nat) -> nat
    decreases k,
{
    if k == 0 {
        d
    } else {
        mip_dim(d, (k - 1) as nat) / 2
    }
}

/// The number of pixels in the levels below `k` of a `w` by `h` image: the
/// offset of level `k` in the pixel buffer.
pub open spec fn mip_offset(w: nat, h: nat, k: nat) -> nat
    decreases k,
{
    if k == 0 {
        0
    } else {
        mip_offset(w, h, (k - 1) as nat) + mip_dim(w, (k - 1) as nat) * mip_dim(
            h,
            (k - 1) as nat,
        )
    }
}

/// The number of pixels in all the levels of a `w` by `h` image.
pub open spec fn mip_total(w: nat, h: nat) -> nat {
    mip_offset(w, h, MIP_LEVELS as nat)
}

/// `levels` describes the mip chain of a `w` by `h` image.
pub open spec fn is_mip_chain(levels: Seq<MipLevel>, w: nat, h: nat) -> bool {
    &&& levels.len() == MIP_LEVELS
    &&& forall|k: int|
        0 <= k < MIP_LEVELS ==> (#[trigger] levels[k]).width == mip_dim(w, k as nat)
            && levels[k].height == mip_dim(h, k as nat) && levels[k].offset == mip_offset(
            w,
            h,
            k as nat,
        )
}

/// The total of a mip chain is the sum, over the levels, of the products of
/// the dimensions shifted right by the number of the level, and each level
/// starts at the sum of the levels before it.
pub proof fn law_mip_chain_totals(w: usize, h: usize)
    ensures
        mip_dim(w as nat, 0) == w,
        mip_dim(w as nat, 1) == w >> 1,
        mip_dim(w as nat, 2) == w >> 2,
        mip_offset(w as nat, h as nat, 0) == 0,
        mip_offset(w as nat, h as nat, 1) == w * h,
        mip_offset(w as nat, h as nat, 2) == w * h + (w >> 1) * (h >> 1),
        mip_total(w as nat, h as nat) == w * h + (w >> 1) * (h >> 1) + (w >> 2) * (h >> 2),
{
    reveal_with_fuel(mip_dim, 3);
    reveal_with_fuel(mip_offset, 4);
    assert(w >> 1 == w / 2 && w >> 2 == w / 2 / 2) by (bit_vector);
    assert(h >> 1 == h / 2 && h >> 2 == h / 2 / 2) by (bit_vector);
}

/// Level 0 has the size of the image and starts the buffer; level 1 follows
/// it directly.
pub proof fn lemma_mip_level_zero(w: nat, h: nat)
    ensures
        mip_dim(w, 0) == w,
        mip_dim(h, 0) == h,
        mip_offset(w, h, 0) == 0,
        mip_offset(w, h, 1) == w * h,
{
    reveal_with_fuel(mip_offset, 2);
}

/// Each level ends where the next one starts.
pub proof fn lemma_mip_level_end(w: nat, h: nat, k: nat)
    ensures
        mip_offset(w, h, k + 1) == mip_offset(w, h, k) + mip_dim(w, k) * mip_dim(h, k),
        mip_dim(w, k + 1) == mip_dim(w, k) / 2,
        mip_dim(h, k + 1) == mip_dim(h, k) / 2,
{
    reveal_with_fuel(mip_offset, 2);
    reveal_with_fuel(mip_dim, 2);
}

/// The offsets of a mip chain grow with the level, up to the total.
pub proof fn lemma_mip_offset_monotonic(w: nat, h: nat, j: nat, k: nat)
    requires
        j <= k,
    ensures
        mip_offset(w, h, j) <= mip_offset(w, h, k),
    decreases k,
{
    if j < k {
        lemma_mip_offset_monotonic(w, h, j, (k - 1) as nat);
        assert(mip_dim(w, (k - 1) as nat) * mip_dim(h, (k - 1) as nat) >= 0) by (nonlinear_arith);
    }
}

/// The number of pixels in all the levels of a `width` by `height` image, or
/// nothing where that number does not fit the machine's index type.
pub fn mip_total_fits(width: usize, height: usize) -> (total: Option<usize>)
    ensures
        total.is_some() == (mip_total(width as nat, height as nat) <= usize::MAX),
        total.is_some() ==> total.unwrap() == mip_total(width as nat, height as nat),
{
    let ghost w = width as nat;
    let ghost h = height as nat;
    let mut mip_width: usize = width;
    let mut mip_height: usize = height;
    let mut offset: usize = 0;
    let mut i: usize = 0;
    while i < MIP_LEVELS
        invariant
            i <= MIP_LEVELS,
            w == width,
            h == height,
            mip_width == mip_dim(w, i as nat),
            mip_height == mip_dim(h, i as nat),
            offset == mip_offset(w, h, i as nat),
        decreases MIP_LEVELS - i,
    {
        proof {
            lemma_mip_level_end(w, h, i as nat);
            lemma_mip_offset_monotonic(w, h, (i + 1) as nat, MIP_LEVELS as nat);
            assert(mip_offset(w, h, (i + 1) as nat) == offset + mip_width * mip_height);
            assert(mip_total(w, h) >= offset + mip_width * mip_height);
        }
        let pixels = mip_width.checked_mul(mip_height);
        if pixels.is_none() {
            return None;
        }
        let end = offset.checked_add(pixels.unwrap());
        if end.is_none() {
            return None;
        }
        offset = end.unwrap();
        mip_width /= 2;
        mip_height /= 2;
        i += 1;
    }
    Some(offset)
}

/// The layout of the mip chain of `bitmap`: each level has half the
/// dimensions of the one before and starts where that one ends.
pub fn calculate_mip_levels<P>(bitmap: &Bitmap<P>) -> (levels: [MipLevel; MIP_LEVELS])
    requires
        mip_total(bitmap.spec_width() as nat, bitmap.spec_height() as nat) <= usize::MAX,
    ensures
        is_mip_chain(levels@, bitmap.spec_width() as nat, bitmap.spec_height() as nat),
{
    let ghost w = bitmap.spec_width() as nat;
    let ghost h = bitmap.spec_height() as nat;
    let mut mip_width: usize = bitmap.width();
    let mut mip_height: usize = bitmap.height();
    let mut offset: usize = 0;
    let mut levels: [MipLevel; MIP_LEVELS] = [MipLevel { width: 0, height: 0, offset: 0 };
        MIP_LEVELS];
    let mut i: usize = 0;
    while i < MIP_LEVELS
        invariant
            i <= MIP_LEVELS,
            w == bitmap.spec_width(),
            h == bitmap.spec_height(),
            mip_total(w, h) <= usize::MAX,
            mip_width == mip_dim(w, i as nat),
            mip_height == mip_dim(h, i as nat),
            offset == mip_offset(w, h, i as nat),
            forall|k: int|
                0 <= k < i ==> (#[trigger] levels@[k]).width == mip_dim(w, k as nat)
                    && levels@[k].height == mip_dim(h, k as nat) && levels@[k].offset
                    == mip_offset(w, h, k as nat),
        decreases MIP_LEVELS - i,
    {
        levels[i] = MipLevel { width: mip_width, height: mip_height, offset };
        proof {
            lemma_mip_offset_monotonic(w, h, (i + 1) as nat, MIP_LEVELS as nat);
        }
        offset += mip_width * mip_height;
        mip_width /= 2;
        mip_height /= 2;
        i += 1;
    }
    levels
}

/// The mip level to sample for a level computed from the depth: the last
/// level where the computed one is past it.
pub fn clamp_mip_level(level: usize) -> (r: usize)
    ensures
        r < MIP_LEVELS,
        r == (if level < MIP_LEVELS {
            level
        } else {
            (MIP_LEVELS - 1) as usize
        }),
{
    if level < MIP_LEVELS - 1 {
        level
    } else {
        MIP_LEVELS - 1
    }
}

/// The index `i` reduced into `0..n` by wrapping round, as texture
/// coordinates repeat.
pub open spec fn wrap(i: int, n: int) -> int {
    i % n
}

/// The index `i` moved to the nearest index in `0..n`.
pub open spec fn clamp(i: int, n: int) -> int {
    if i < 0 {
        0
    } else if i >= n {
        n - 1
    } else {
        i
    }
}

/// The position in a `w` by `h` image of sample `k` of the three by three
/// box round the pixel `(2x, 2y)`, rows first, wrapping at the edges.
pub open spec fn box_sample_index(w: int, h: int, x: int, y: int, k: int) -> int {
    wrap(2 * y + k / 3 - 1, h) * w + wrap(2 * x + k % 3 - 1, w)
}

/// The nine samples of the box round the pixel `(2x, 2y)` of `src`.
pub open spec fn box_samples<P>(src: Seq<P>, w: int, h: int, x: int, y: int) -> Seq<P> {
    Seq::new(9, |k: int| src[box_sample_index(w, h, x, y, k)])
}

/// `out` is what `average` made of the nine `samples`.
pub open spec fn is_box_average<P, F: Fn(&[P; 9]) -> P>(average: &F, samples: Seq<P>, out: P) -> bool {
    exists|window: [P; 9]| window@ == samples && call_ensures(*average, (&window,), out)
}

/// The first `(w / 2) * (h / 2)` pixels of `dst` are the `w` by `h` image
/// `src` at half the size: each one is the average of the box round the
/// source pixel at twice its coordinates.
pub open spec fn is_downscaled<P, F: Fn(&[P; 9]) -> P>(
    average: &F,
    src: Seq<P>,
    w: int,
    h: int,
    dst: Seq<P>,
) -> bool {
    forall|i: int|
        0 <= i < (w / 2) * (h / 2) ==> is_box_average(
            average,
            box_samples(src, w, h, i % (w / 2), i / (w / 2)),
            #[trigger] dst[i],
        )
}

/// A pixel of row `y` and column `x` lies inside a `w` by `h` image.
pub proof fn lemma_pixel_in_image(w: int, h: int, x: int, y: int)
    requires
        0 <= x < w,
        0 <= y < h,
    ensures
        0 <= y * w + x < w * h,
        y * w + x + (w - x) <= w * h,
        (y * w + x) / w == y,
        (y * w + x) % w == x,
{
    assert(0 <= y * w && y * w + w <= w * h) by (nonlinear_arith)
        requires
            0 <= y < h,
            0 < w,
    ;
    vstd::arithmetic::div_mod::lemma_fundamental_div_mod_converse(y * w + x, w, y, x);
}

/// The index `i`, which may be negative, wrapped into `0..n`.
fn wrap_index(i: isize, n: usize) -> (r: usize)
    requires
        0 < n <= isize::MAX,
    ensures
        r == wrap(i as int, n as int),
        r < n,
{
    if i >= 0 {
        (i as usize) % n
    } else {
        let k: usize = (-(i + 1)) as usize;
        let m: usize = k % n;
        proof {
            let q = (k as int) / (n as int);
            vstd::arithmetic::div_mod::lemma_fundamental_div_mod(k as int, n as int);
            assert(i as int == (-q - 1) * n + (n - 1 - m)) by (nonlinear_arith)
                requires
                    k as int == n * q + m,
                    i as int == -(k as int) - 1,
            ;
            vstd::arithmetic::div_mod::lemma_fundamental_div_mod_converse(
                i as int,
                n as int,
                -q - 1,
                n - 1 - m,
            );
        }
        n - 1 - m
    }
}

/// The pixel of `src` at `(x, y)`, where coordinates outside the image are
/// moved to the nearest edge.
pub fn sample_clamp<P: Copy>(src: &[P], src_width: usize, src_height: usize, x: isize, y: isize) -> (r:
    P)
    requires
        0 < src_width <= isize::MAX,
        0 < src_height <= isize::MAX,
        src@.len() >= src_width * src_height,
    ensures
        r == src@[clamp(y as int, src_height as int) * src_width + clamp(
            x as int,
            src_width as int,
        )],
{
    let cx: usize = if x < 0 {
        0
    } else if x as usize >= src_width {
        src_width - 1
    } else {
        x as usize
    };
    let cy: usize = if y < 0 {
        0
    } else if y as usize >= src_height {
        src_height - 1
    } else {
        y as usize
    };
    let len = src.len();
    proof {
        lemma_pixel_in_image(src_width as int, src_height as int, cx as int, cy as int);
        assert(0 <= cy * src_width) by (nonlinear_arith);
    }
    src[cy * src_width + cx]
}

/// The pixel of `src` at `(x, y)`, where coordinates outside the image wrap
/// round to the opposite edge.
pub fn sample_wrap<P: Copy>(src: &[P], src_width: usize, src_height: usize, x: isize, y: isize) -> (r:
    P)
    requires
        0 < src_width <= isize::MAX,
        0 < src_height <= isize::MAX,
        src@.len() >= src_width * src_height,
    ensures
        r == src@[wrap(y as int, src_height as int) * src_width + wrap(x as int, src_width as int)],
{
    let wx = wrap_index(x, src_width);
    let wy = wrap_index(y, src_height);
    let len = src.len();
    proof {
        lemma_pixel_in_image(src_width as int, src_height as int, wx as int, wy as int);
        assert(0 <= wy * src_width) by (nonlinear_arith);
    }
    src[wy * src_width + wx]
}

/// Fills `dst` with the `src_width` by `src_height` image `src` at half the
/// size.  Each pixel is `average` of the three by three box round the source
/// pixel at twice its coordinates; the box wraps round at the edges of the
/// source.  The rest of `dst` keeps what it held.
pub fn downscale_3x3_box_filter<P: Copy, F: Fn(&[P; 9]) -> P>(
    src: &[P],
    src_width: usize,
    src_height: usize,
    dst: &mut [P],
    average: &F,
)
    requires
        src@.len() >= src_width * src_height,
        old(dst)@.len() >= (src_width / 2) * (src_height / 2),
        forall|window: &[P; 9]| call_requires(*average, (window,)),
    ensures
        final(dst)@.len() == old(dst)@.len(),
        is_downscaled(average, src@, src_width as int, src_height as int, final(dst)@),
        forall|i: int|
            (src_width / 2) * (src_height / 2) <= i < old(dst)@.len() ==> final(dst)@[i] == old(
                dst,
            )@[i],
{
    let dst_width: usize = src_width / 2;
    let dst_height: usize = src_height / 2;
    let ghost w = src_width as int;
    let ghost h = src_height as int;
    let ghost dw = dst_width as int;
    let ghost dh = dst_height as int;
    if dst_width == 0 || dst_height == 0 {
        assert(dw * dh == 0) by (nonlinear_arith)
            requires
                dw == 0 || dh == 0,
        ;
        return ;
    }
    let len = src.len();
    proof {
        // Both dimensions are at least two, so they fit a signed index.
        assert(w * 2 <= w * h && h * 2 <= w * h) by (nonlinear_arith)
            requires
                w >= 2,
                h >= 2,
        ;
    }
    let mut index: usize = 0;
    let mut dst_y: usize = 0;
    while dst_y < dst_height
        invariant
            dst_y <= dst_height,
            index == dst_y * dst_width,
            w == src_width,
            h == src_height,
            dw == dst_width,
            dh == dst_height,
            dw == w / 2,
            dh == h / 2,
            dw > 0,
            dh > 0,
            0 < src_width <= isize::MAX,
            0 < src_height <= isize::MAX,
            src@.len() >= src_width * src_height,
            dst@.len() == old(dst)@.len(),
            dst@.len() >= dw * dh,
            forall|window: &[P; 9]| call_requires(*average, (window,)),
            forall|i: int|
                0 <= i < index ==> is_box_average(
                    average,
                    box_samples(src@, w, h, i % dw, i / dw),
                    #[trigger] dst@[i],
                ),
            forall|i: int| index <= i < dst@.len() ==> dst@[i] == old(dst)@[i],
        decreases dst_height - dst_y,
    {
        let mut dst_x: usize = 0;
        while dst_x < dst_width
            invariant
                dst_y < dst_height,
                dst_x <= dst_width,
                index == dst_y * dst_width + dst_x,
                w == src_width,
                h == src_height,
                dw == dst_width,
                dh == dst_height,
                dw == w / 2,
                dh == h / 2,
                dw > 0,
                dh > 0,
                0 < src_width <= isize::MAX,
                0 < src_height <= isize::MAX,
                src@.len() >= src_width * src_height,
                dst@.len() == old(dst)@.len(),
                dst@.len() >= dw * dh,
                forall|window: &[P; 9]| call_requires(*average, (window,)),
                forall|i: int|
                    0 <= i < index ==> is_box_average(
                        average,
                        box_samples(src@, w, h, i % dw, i / dw),
                        #[trigger] dst@[i],
                    ),
                forall|i: int| index <= i < dst@.len() ==> dst@[i] == old(dst)@[i],
            decreases dst_width - dst_x,
        {
            proof {
                lemma_pixel_in_image(dw, dh, dst_x as int, dst_y as int);
            }
            let src_x: isize = (dst_x * 2) as isize;
            let src_y: isize = (dst_y * 2) as isize;
            let samples: [P; 9] = [
                sample_wrap(src, src_width, src_height, src_x - 1, src_y - 1),
                sample_wrap(src, src_width, src_height, src_x, src_y - 1),
                sample_wrap(src, src_width, src_height, src_x + 1, src_y - 1),
                sample_wrap(src, src_width, src_height, src_x - 1, src_y),
                sample_wrap(src, src_width, src_height, src_x, src_y),
                sample_wrap(src, src_width, src_height, src_x + 1, src_y),
                sample_wrap(src, src_width, src_height, src_x - 1, src_y + 1),
                sample_wrap(src, src_width, src_height, src_x, src_y + 1),
                sample_wrap(src, src_width, src_height, src_x + 1, src_y + 1),
            ];
            let pixel = average(&samples);
            proof {
                assert(samples@ =~= box_samples(src@, w, h, dst_x as int, dst_y as int));
                assert(is_box_average(
                    average,
                    box_samples(src@, w, h, index as int % dw, index as int / dw),
                    pixel,
                ));
            }
            dst[index] = pixel;
            index += 1;
            dst_x += 1;
        }
        dst_y += 1;
        assert(index == dst_y * dst_width) by (nonlinear_arith)
            requires
                index == (dst_y - 1) * dst_width + dst_width,
        ;
    }
    assert(index == dw * dh) by (nonlinear_arith)
        requires
            index == dst_y * dst_width,
            dst_y == dh,
            dst_width == dw,
    ;
}

/// Fills every mip level but the first from the level before it, in
/// `buffer`, which holds all the levels one after the other.
pub fn generate_mip_maps<P: Copy, F: Fn(&[P; 9]) -> P>(
    levels: &[MipLevel; MIP_LEVELS],
    buffer: &mut [P],
    average: &F,
)
    requires
        is_mip_chain(levels@, levels@[0].width as nat, levels@[0].height as nat),
        old(buffer)@.len() == mip_total(levels@[0].width as nat, levels@[0].height as nat),
        forall|window: &[P; 9]| call_requires(*average, (window,)),
    ensures
        final(buffer)@.len() == old(buffer)@.len(),
        forall|i: int|
            0 <= i < levels@[0].width * levels@[0].height ==> final(buffer)@[i] == old(
                buffer,
            )@[i],
        forall|k: int| 1 <= k < MIP_LEVELS ==> #[trigger] is_level_downscaled(average, levels@, final(buffer)@, k),
{
    let ghost w = levels@[0].width as nat;
    let ghost h = levels@[0].height as nat;
    let mut i: usize = 1;
    while i < MIP_LEVELS
        invariant
            1 <= i <= MIP_LEVELS,
            w == levels@[0].width,
            h == levels@[0].height,
            is_mip_chain(levels@, w, h),
            buffer@.len() == old(buffer)@.len(),
            buffer@.len() == mip_total(w, h),
            forall|window: &[P; 9]| call_requires(*average, (window,)),
            forall|j: int| 0 <= j < w * h ==> buffer@[j] == old(buffer)@[j],
            forall|k: int| 1 <= k < i ==> #[trigger] is_level_downscaled(average, levels@, buffer@, k),
        decreases MIP_LEVELS - i,
    {
        let src_width = levels[i - 1].width;
        let src_height = levels[i - 1].height;
        let read_index = levels[i - 1].offset;
        let write_index = levels[i].offset;
        let ghost before = buffer@;
        proof {
            lemma_mip_offset_monotonic(w, h, (i + 1) as nat, MIP_LEVELS as nat);
            lemma_mip_offset_monotonic(w, h, 1, i as nat);
            assert(mip_offset(w, h, 1) == w * h);
            assert(levels@[i - 1].offset == mip_offset(w, h, (i - 1) as nat));
            assert(levels@[i as int].offset == mip_offset(w, h, i as nat));
            assert(mip_dim(w, i as nat) == src_width / 2);
            assert(mip_dim(h, i as nat) == src_height / 2);
        }
        let (head, dst) = buffer.split_at_mut(write_index);
        let ghost head_pixels = head@;
        let ghost tail_pixels = dst@;
        let src = &head[read_index..write_index];
        let ghost src_pixels = src@;
        downscale_3x3_box_filter(src, src_width, src_height, dst, average);
        let ghost new_tail = dst@;
        proof {
            let after = buffer@;
            assert(after =~= head_pixels + new_tail);
            assert(before =~= head_pixels + tail_pixels);
            assert(after.subrange(read_index as int, write_index as int) =~= src_pixels);
            assert(after.subrange(write_index as int, after.len() as int) =~= new_tail);
            assert forall|k: int| 1 <= k < i + 1 implies #[trigger] is_level_downscaled(
                average,
                levels@,
                after,
                k,
            ) by {
                if k < i {
                    assert(is_level_downscaled(average, levels@, before, k));
                    lemma_mip_offset_monotonic(w, h, (k + 1) as nat, i as nat);
                    assert(level_pixels(levels@, after, k - 1) =~= level_pixels(
                        levels@,
                        before,
                        k - 1,
                    ));
                    assert(level_pixels(levels@, after, k) =~= level_pixels(levels@, before, k));
                } else {
                    assert(level_pixels(levels@, after, k - 1) =~= src_pixels);
                    assert forall|j: int|
                        0 <= j < (src_width as int / 2) * (src_height as int / 2) implies 
                        is_box_average(
                            average,
                            box_samples(
                                src_pixels,
                                src_width as int,
                                src_height as int,
                                j % (src_width as int / 2),
                                j / (src_width as int / 2),
                            ),
                            #[trigger] level_pixels(levels@, after, k)[j],
                        ) by {
                        assert(level_pixels(levels@, after, k)[j] == new_tail[j]);
                    }
                }
            }
        }
        i += 1;
    }
}

/// The pixels of level `k` in a buffer that holds all the levels.
pub open spec fn level_pixels<P>(levels: Seq<MipLevel>, buffer: Seq<P>, k: int) -> Seq<P> {
    buffer.subrange(
        levels[k].offset as int,
        levels[k].offset + levels[k].width * levels[k].height,
    )
}

/// Level `k` of the buffer is level `k - 1` at half the size.
pub open spec fn is_level_downscaled<P, F: Fn(&[P; 9]) -> P>(
    average: &F,
    levels: Seq<MipLevel>,
    buffer: Seq<P>,
    k: int,
) -> bool {
    is_downscaled(
        average,
        level_pixels(levels, buffer, k - 1),
        levels[k - 1].width as int,
        levels[k - 1].height as int,
        level_pixels(levels, buffer, k),
    )
}

} // verus!
