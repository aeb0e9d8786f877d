use vstd::prelude::*;

verus! {

/// A decoded image: `width * height` pixels, row by row.
#[derive(Debug)]
pub struct Bitmap<P> {
    width: usize,
    height: usize,
    pixels: Vec<P>,
}

impl<P> Bitmap<P> {
    /// The number of columns.
    pub closed spec fn spec_width(&self) -> usize {
        self.width
    }

    /// The number of rows.
    pub closed spec fn spec_height(&self) -> usize {
        self.height
    }

    /// The pixels, row by row.
    pub closed spec fn view(&self) -> Seq<P> {
        self.pixels@
    }

    /// A bitmap of the given size with the given pixels.  Nothing is asked of
    /// the number of pixels.
    pub fn new(width: usize, height: usize, pixels: Vec<P>) -> (r: Self)
        ensures
            r.spec_width() == width,
            r.spec_height() == height,
            r@ == pixels@,
    {
        Self { width, height, pixels }
    }

    /// The bitmap of a decoded image with four bytes to the pixel: red,
    /// green, blue and alpha.  `colour` makes a pixel of the first three; the
    /// alpha byte is dropped, and so are bytes after the last whole pixel.
    pub fn from_rgba8<F: Fn(u8, u8, u8) -> P>(width: usize, height: usize, bytes: &[u8], colour: &F) -> (r:
        Self)
        requires
            forall|red: u8, green: u8, blue: u8| call_requires(*colour, (red, green, blue)),
        ensures
            r.spec_width() == width,
            r.spec_height() == height,
            r@.len() == bytes@.len() / 4,
            forall|i: int|
                0 <= i < r@.len() ==> call_ensures(
                    *colour,
                    (bytes@[4 * i], bytes@[4 * i + 1], bytes@[4 * i + 2]),
                    #[trigger] r@[i],
                ),
    {
        let len = bytes.len();
        let count = len / 4;
        let mut pixels: Vec<P> = Vec::new();
        let mut i: usize = 0;
        while i < count
            invariant
                i <= count,
                len == bytes@.len(),
                count == len / 4,
                pixels@.len() == i,
                forall|red: u8, green: u8, blue: u8| call_requires(*colour, (red, green, blue)),
                forall|j: int|
                    0 <= j < i ==> call_ensures(
                        *colour,
                        (bytes@[4 * j], bytes@[4 * j + 1], bytes@[4 * j + 2]),
                        #[trigger] pixels@[j],
                    ),
            decreases count - i,
        {
            let pixel = colour(bytes[4 * i], bytes[4 * i + 1], bytes[4 * i + 2]);
            pixels.push(pixel);
            i += 1;
        }
        Self { width, height, pixels }
    }

    /// The number of columns.
    pub fn width(&self) -> (w: usize)
        ensures
            w == self.spec_width(),
    {
        self.width
    }

    /// The number of rows.
    pub fn height(&self) -> (h: usize)
        ensures
            h == self.spec_height(),
    {
        self.height
    }

    /// The pixels, row by row.
    pub fn pixels(&self) -> (r: &[P])
        ensures
            r@ == self@,
    {
        self.pixels.as_slice()
    }
}

} // verus!
