//! The render target: a colour plane and a depth plane of the same size.

use vstd::prelude::*;

verus! {

/// A colour and a depth for every pixel of a `width` by `height` screen, row
/// by row.  The depth of a pixel is the distance of what was drawn there;
/// smaller is nearer.
pub struct Framebuffer<C, D> {
    width: usize,
    height: usize,
    depth: Vec<D>,
    pixels: Vec<C>,
}

impl<C: Copy, D: Copy> Framebuffer<C, D> {
    /// The number of columns.
    pub closed spec fn spec_width(&self) -> usize {
        self.width
    }

    /// The number of rows.
    pub closed spec fn spec_height(&self) -> usize {
        self.height
    }

    /// The colour plane.
    pub closed spec fn colours(&self) -> Seq<C> {
        self.pixels@
    }

    /// The depth plane.
    pub closed spec fn depths(&self) -> Seq<D> {
        self.depth@
    }

    /// Both planes hold one entry for each pixel.
    pub open spec fn wf(&self) -> bool {
        &&& self.colours().len() == self.spec_width() * self.spec_height()
        &&& self.depths().len() == self.spec_width() * self.spec_height()
    }

    /// A framebuffer in which every pixel has the colour `colour` and the
    /// depth `far`.
    pub fn new(width: usize, height: usize, colour: C, far: D) -> (r: Self)
        requires
            width * height <= usize::MAX,
        ensures
            r.wf(),
            r.spec_width() == width,
            r.spec_height() == height,
            forall|i: int| 0 <= i < width * height ==> #[trigger] r.colours()[i] == colour,
            forall|i: int| 0 <= i < width * height ==> #[trigger] r.depths()[i] == far,
    {
        let len = width * height;
        let mut depth: Vec<D> = Vec::new();
        let mut pixels: Vec<C> = Vec::new();
        let mut i: usize = 0;
        while i < len
            invariant
                i <= len,
                depth@.len() == i,
                pixels@.len() == i,
                forall|j: int| 0 <= j < i ==> pixels@[j] == colour,
                forall|j: int| 0 <= j < i ==> depth@[j] == far,
            decreases len - i,
        {
            depth.push(far);
            pixels.push(colour);
            i += 1;
        }
        Self { width, height, depth, pixels }
    }

    /// The number of columns.
    pub fn width(&self) -> (w: usize)
        ensures
            w == self.spec_width(),
    {
        self.width
    }

    /// The number of rows.
    pub fn height(&self) -> (h: usize)
        ensures
            h == self.spec_height(),
    {
        self.height
    }

    /// The depth plane, row by row.
    pub fn depth(&self) -> (r: &[D])
        ensures
            r@ == self.depths(),
    {
        self.depth.as_slice()
    }

    /// The colour plane, row by row.
    pub fn pixels(&self) -> (r: &[C])
        ensures
            r@ == self.colours(),
    {
        self.pixels.as_slice()
    }

    /// The depth plane, to be written by the caller.
    pub fn depth_mut(&mut self) -> (r: &mut [D])
        ensures
            r@ == old(self).depths(),
            final(self).depths() == final(r)@,
            final(r)@.len() == r@.len() ==> final(self).wf() == old(self).wf(),
            final(self).colours() == old(self).colours(),
            final(self).spec_width() == old(self).spec_width(),
            final(self).spec_height() == old(self).spec_height(),
    {
        self.depth.as_mut_slice()
    }

    /// The colour plane, to be written by the caller.
    pub fn pixels_mut(&mut self) -> (r: &mut [C])
        ensures
            r@ == old(self).colours(),
            final(self).colours() == final(r)@,
            final(r)@.len() == r@.len() ==> final(self).wf() == old(self).wf(),
            final(self).depths() == old(self).depths(),
            final(self).spec_width() == old(self).spec_width(),
            final(self).spec_height() == old(self).spec_height(),
    {
        self.pixels.as_mut_slice()
    }

    /// The depth of pixel `index`.
    pub fn depth_at(&self, index: usize) -> (d: D)
        requires
            index < self.depths().len(),
        ensures
            d == self.depths()[index as int],
    {
        self.depth[index]
    }

    /// The colour of pixel `index`.
    pub fn pixel_at(&self, index: usize) -> (c: C)
        requires
            index < self.colours().len(),
        ensures
            c == self.colours()[index as int],
    {
        self.pixels[index]
    }

    /// Draws on pixel `index`: sets its colour and its depth.
    pub fn write(&mut self, index: usize, colour: C, depth: D)
        requires
            index < old(self).colours().len(),
            index < old(self).depths().len(),
        ensures
            final(self).colours() == old(self).colours().update(index as int, colour),
            final(self).depths() == old(self).depths().update(index as int, depth),
            final(self).spec_width() == old(self).spec_width(),
            final(self).spec_height() == old(self).spec_height(),
    {
        self.pixels[index] = colour;
        self.depth[index] = depth;
    }

    /// Sets the colour of pixel `index` and leaves its depth.
    pub fn set_pixel(&mut self, index: usize, colour: C)
        requires
            index < old(self).colours().len(),
        ensures
            final(self).colours() == old(self).colours().update(index as int, colour),
            final(self).depths() == old(self).depths(),
            final(self).spec_width() == old(self).spec_width(),
            final(self).spec_height() == old(self).spec_height(),
    {
        self.pixels[index] = colour;
    }

    /// Gives every pixel the depth `far`.
    pub fn clear_depth_buffer(&mut self, far: D)
        ensures
            final(self).depths().len() == old(self).depths().len(),
            forall|i: int| 0 <= i < final(self).depths().len() ==> #[trigger] final(self).depths()[i] == far,
            final(self).colours() == old(self).colours(),
            final(self).spec_width() == old(self).spec_width(),
            final(self).spec_height() == old(self).spec_height(),
    {
        let len = self.depth.len();
        let mut i: usize = 0;
        while i < len
            invariant
                i <= len,
                len == self.depth@.len(),
                self.pixels == old(self).pixels,
                self.width == old(self).width,
                self.height == old(self).height,
                forall|j: int| 0 <= j < i ==> self.depth@[j] == far,
            decreases len - i,
        {
            self.depth[i] = far;
            i += 1;
        }
    }

    /// Gives every pixel the colour `colour`.
    pub fn clear_colour_buffer(&mut self, colour: C)
        ensures
            final(self).colours().len() == old(self).colours().len(),
            forall|i: int| 0 <= i < final(self).colours().len() ==> #[trigger] final(self).colours()[i] == colour,
            final(self).depths() == old(self).depths(),
            final(self).spec_width() == old(self).spec_width(),
            final(self).spec_height() == old(self).spec_height(),
    {
        let len = self.pixels.len();
        let mut i: usize = 0;
        while i < len
            invariant
                i <= len,
                len == self.pixels@.len(),
                self.depth == old(self).depth,
                self.width == old(self).width,
                self.height == old(self).height,
                forall|j: int| 0 <= j < i ==> self.pixels@[j] == colour,
            decreases len - i,
        {
            self.pixels[i] = colour;
            i += 1;
        }
    }
}

} // verus!
