use super::bitmap::Bitmap;
use super::mipmap::{
    calculate_mip_levels, generate_mip_maps, is_level_downscaled, is_mip_chain,
    lemma_mip_level_end, lemma_mip_level_zero, lemma_mip_offset_monotonic,
    lemma_pixel_in_image, mip_dim, mip_offset, mip_total, MipLevel,
};
use crate::asset_manager::Named;
use crate::{DIM_POW_2, MIP_LEVELS};
use vstd::prelude::*;

verus! {

/// An image with its mip chain: the pixels of every level in one buffer,
/// level 0 first, and the place of each level in it.
#[derive(Debug)]
pub struct Texture<P> {
    pub name: String,
    pub levels: [MipLevel; MIP_LEVELS],
    pub pixels: Vec<P>,
}

impl<P> Named for Texture<P> {
    open spec fn name_spec(&self) -> Seq<char> {
        self.name@
    }

    fn name(&self) -> (r: &str) {
        self.name.as_str()
    }
}

/// Whether `n` is a power of two.
pub open spec fn is_power_of_two(n: nat) -> bool {
    exists|k: nat| n == vstd::arithmetic::power2::pow2(k)
}

impl<P: Copy> Texture<P> {
    /// Width of the image at level 0.
    pub open spec fn spec_width(&self) -> nat {
        self.levels@[0].width as nat
    }

    /// Height of the image at level 0.
    pub open spec fn spec_height(&self) -> nat {
        self.levels@[0].height as nat
    }

    /// Validity of a texture: the levels form the mip chain of the image and
    /// the buffer holds exactly their pixels.
    pub open spec fn wf(&self) -> bool {
        &&& is_mip_chain(self.levels@, self.spec_width(), self.spec_height())
        &&& self.pixels@.len() == mip_total(self.spec_width(), self.spec_height())
    }

    /// The pixel at column `x` and row `y` of level `level`.
    pub open spec fn spec_texel(&self, x: int, y: int, level: int) -> P {
        self.pixels@[self.levels@[level].offset + y * self.levels@[level].width + x]
    }

    /// Builds the texture of `bitmap`.  Level 0 holds the bitmap's pixels, and
    /// `fill` where the bitmap has fewer pixels than its dimensions say; each
    /// further level is the one before it at half the size, filtered by
    /// `average`.
    pub fn from_bitmap<F: Fn(&[P; 9]) -> P>(bitmap: Bitmap<P>, name: String, fill: P, average: &F) -> (r:
        Self)
        requires
            mip_total(bitmap.spec_width() as nat, bitmap.spec_height() as nat) <= usize::MAX,
            bitmap@.len() <= mip_total(bitmap.spec_width() as nat, bitmap.spec_height() as nat),
            DIM_POW_2 ==> is_power_of_two(bitmap.spec_width() as nat) && is_power_of_two(
                bitmap.spec_height() as nat,
            ),
            forall|window: &[P; 9]| call_requires(*average, (window,)),
        ensures
            r.wf(),
            r.name_spec() == name@,
            r.spec_width() == bitmap.spec_width(),
            r.spec_height() == bitmap.spec_height(),
            forall|i: int|
                0 <= i < bitmap.spec_width() * bitmap.spec_height() ==> #[trigger] r.pixels@[i]
                    == (if i < bitmap@.len() {
                    bitmap@[i]
                } else {
                    fill
                }),
            forall|k: int|
                1 <= k < MIP_LEVELS ==> #[trigger] is_level_downscaled(
                    average,
                    r.levels@,
                    r.pixels@,
                    k,
                ),
    {
        let ghost w = bitmap.spec_width() as nat;
        let ghost h = bitmap.spec_height() as nat;
        let levels = calculate_mip_levels(&bitmap);
        let last = levels[MIP_LEVELS - 1];
        proof {
            lemma_mip_level_end(w, h, (MIP_LEVELS - 1) as nat);
            lemma_mip_offset_monotonic(w, h, 1, MIP_LEVELS as nat);
            lemma_mip_level_zero(w, h);
        }
        let buffer_size = last.offset + last.width * last.height;
        let mut pixels: Vec<P> = Vec::new();
        while pixels.len() < buffer_size
            invariant
                pixels@.len() <= buffer_size,
                forall|i: int| 0 <= i < pixels@.len() ==> pixels@[i] == fill,
            decreases buffer_size - pixels@.len(),
        {
            pixels.push(fill);
        }
        let source = bitmap.pixels();
        let count = source.len();
        let mut i: usize = 0;
        while i < count
            invariant
                i <= count,
                count == source@.len(),
                count <= buffer_size,
                pixels@.len() == buffer_size,
                forall|j: int| 0 <= j < i ==> pixels@[j] == source@[j],
                forall|j: int| i <= j < buffer_size ==> pixels@[j] == fill,
            decreases count - i,
        {
            pixels[i] = source[i];
            i += 1;
        }
        generate_mip_maps(&levels, pixels.as_mut_slice(), average);
        Self { name, levels, pixels }
    }

    /// The pixel at column `x` and row `y` of level `level`.
    pub fn texel(&self, x: usize, y: usize, level: usize) -> (r: P)
        requires
            self.wf(),
            level < MIP_LEVELS,
            x < self.levels@[level as int].width,
            y < self.levels@[level as int].height,
        ensures
            r == self.spec_texel(x as int, y as int, level as int),
    {
        let mip = self.levels[level];
        let len = self.pixels.len();
        proof {
            lemma_mip_level_end(self.spec_width(), self.spec_height(), level as nat);
            let w = self.spec_width();
            let h = self.spec_height();
            lemma_pixel_in_image(mip.width as int, mip.height as int, x as int, y as int);
            lemma_mip_offset_monotonic(w, h, (level + 1) as nat, MIP_LEVELS as nat);
            assert(0 <= y * mip.width) by (nonlinear_arith);
            assert(mip.offset == mip_offset(w, h, level as nat));
            assert(mip.width == mip_dim(w, level as nat));
            assert(mip.height == mip_dim(h, level as nat));
        }
        let local_offset = y * mip.width + x;
        let global_offset = mip.offset + local_offset;
        self.pixels[global_offset]
    }
}

} // verus!
