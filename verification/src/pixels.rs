use vstd::prelude::*;

verus! {

/// One RGBA pixel: red, green, blue and alpha channels, in that order.
pub type Rgba = [u8; 4];

/// A fully transparent black pixel.
pub open spec fn clear_pixel() -> Rgba {
    [0u8, 0u8, 0u8, 0u8]
}

/// The offset of pixel `(x, y)` in the row-major pixel sequence of an image
/// that is `width` pixels wide.
pub open spec fn pixel_index(width: int, x: int, y: int) -> int {
    y * width + x
}

/// Every pixel of a `width` x `height` image has its own index inside
/// `0 .. width * height`.
pub proof fn lemma_pixel_index_bounds(width: int, height: int, x: int, y: int)
    requires
        0 <= x < width,
        0 <= y < height,
    ensures
        0 <= pixel_index(width, x, y) < width * height,
{
    assert(0 <= y * width) by (nonlinear_arith)
        requires
            0 <= y,
            0 <= width,
    ;
    assert(y * width + width <= height * width) by (nonlinear_arith)
        requires
            y + 1 <= height,
            0 <= width,
    ;
    assert(height * width == width * height) by (nonlinear_arith);
}

/// Two in-range pixels share an index only when they are the same pixel.
pub proof fn lemma_pixel_index_injective(width: int, x1: int, y1: int, x2: int, y2: int)
    requires
        0 <= x1 < width,
        0 <= x2 < width,
        0 <= y1,
        0 <= y2,
        pixel_index(width, x1, y1) == pixel_index(width, x2, y2),
    ensures
        x1 == x2,
        y1 == y2,
{
    if y1 < y2 {
        assert(y1 * width + width <= y2 * width) by (nonlinear_arith)
            requires
                y1 + 1 <= y2,
                0 <= width,
        ;
    } else if y2 < y1 {
        assert(y2 * width + width <= y1 * width) by (nonlinear_arith)
            requires
                y2 + 1 <= y1,
                0 <= width,
        ;
    }
}

/// The mathematical content of an image: its size and its pixels, row after row.
pub struct ImageView {
    pub width: u32,
    pub height: u32,
    pub pixels: Seq<Rgba>,
}

impl ImageView {
    /// The image holds exactly `width * height` pixels.
    pub open spec fn wf(self) -> bool {
        self.pixels.len() == self.width as int * self.height as int
    }

    /// Whether `(x, y)` names a pixel of this image.
    pub open spec fn contains(self, x: int, y: int) -> bool {
        0 <= x < self.width && 0 <= y < self.height
    }

    /// The pixel at column `x` of row `y`.
    pub open spec fn at(self, x: int, y: int) -> Rgba {
        self.pixels[pixel_index(self.width as int, x, y)]
    }

    /// Two well-formed images are equal when they have the same size and agree on every pixel.
    pub proof fn lemma_ext_equal(self, other: ImageView)
        requires
            self.wf(),
            other.wf(),
            self.width == other.width,
            self.height == other.height,
            forall|x: int, y: int| self.contains(x, y) ==> #[trigger] self.at(x, y) == other.at(x, y),
        ensures
            self == other,
    {
        let w = self.width as int;
        assert forall|i: int| 0 <= i < self.pixels.len() implies self.pixels[i] == other.pixels[i] by {
            let y = i / w;
            let x = i % w;
            assert(w > 0) by (nonlinear_arith)
                requires
                    0 <= i < w * self.height,
                    0 <= self.height,
            ;
            assert(i == y * w + x && 0 <= x < w) by (nonlinear_arith)
                requires
                    w > 0,
                    y == i / w,
                    x == i % w,
            ;
            assert(0 <= y < self.height) by (nonlinear_arith)
                requires
                    w > 0,
                    y == i / w,
                    0 <= i < w * self.height,
            ;
            assert(self.at(x, y) == other.at(x, y));
        }
        assert(self.pixels =~= other.pixels);
    }
}

/// A row-major RGBA image of `width` x `height` pixels.
#[derive(Debug, Clone)]
pub struct PixelBuffer {
    width: u32,
    height: u32,
    data: Vec<Rgba>,
}

impl View for PixelBuffer {
    type V = ImageView;

    closed spec fn view(&self) -> ImageView {
        ImageView { width: self.width, height: self.height, pixels: self.data@ }
    }
}

impl PixelBuffer {
    /// A fully transparent black image of the given size.
    pub fn new(width: u32, height: u32) -> (img: PixelBuffer)
        requires
            width as int * height as int <= usize::MAX,
        ensures
            img@.wf(),
            img@.width == width,
            img@.height == height,
            forall|x: int, y: int| img@.contains(x, y) ==> #[trigger] img@.at(x, y) == clear_pixel(),
    {
        let n: usize = (width as usize) * (height as usize);
        let clear: Rgba = [0u8, 0u8, 0u8, 0u8];
        let data: Vec<Rgba> = vec![clear; n];
        let img = PixelBuffer { width, height, data };
        proof {
            assert forall|x: int, y: int| img@.contains(x, y) implies #[trigger] img@.at(x, y)
                == clear_pixel() by {
                lemma_pixel_index_bounds(width as int, height as int, x, y);
            }
        }
        img
    }

    /// An image made of the given pixels, row after row; `None` when the
    /// number of pixels is not `width * height`.
    pub fn from_pixels(width: u32, height: u32, pixels: Vec<Rgba>) -> (img: Option<PixelBuffer>)
        ensures
            match img {
                Some(img) => {
                    &&& img@.wf()
                    &&& img@ == (ImageView { width, height, pixels: pixels@ })
                },
                None => pixels@.len() != width as int * height as int,
            },
    {
        proof {
            assert((width as int) * (height as int) <= u64::MAX) by (nonlinear_arith)
                requires
                    width <= u32::MAX,
                    height <= u32::MAX,
            ;
        }
        let n: u64 = (width as u64) * (height as u64);
        if pixels.len() as u64 == n {
            Some(PixelBuffer { width, height, data: pixels })
        } else {
            None
        }
    }

    /// The width of the image, in pixels.
    pub fn width(&self) -> (w: u32)
        ensures
            w == self@.width,
    {
        self.width
    }

    /// The height of the image, in pixels.
    pub fn height(&self) -> (h: u32)
        ensures
            h == self@.height,
    {
        self.height
    }

    /// The width and height of the image.
    pub fn dimensions(&self) -> (d: (u32, u32))
        ensures
            d == (self@.width, self@.height),
    {
        (self.width, self.height)
    }

    /// All pixels, row after row.
    pub fn pixels(&self) -> (p: &Vec<Rgba>)
        ensures
            p@ == self@.pixels,
    {
        &self.data
    }

    /// Hands the pixels out, row after row.
    pub fn into_pixels(self) -> (p: Vec<Rgba>)
        ensures
            p@ == self@.pixels,
    {
        self.data
    }

    /// The pixel at column `x` of row `y`.
    pub fn get_pixel(&self, x: u32, y: u32) -> (p: Rgba)
        requires
            self@.wf(),
            self@.contains(x as int, y as int),
        ensures
            p == self@.at(x as int, y as int),
    {
        let _len: usize = self.data.len();
        proof {
            lemma_pixel_index_bounds(self.width as int, self.height as int, x as int, y as int);
        }
        let i: usize = (y as usize) * (self.width as usize) + (x as usize);
        self.data[i]
    }

    /// Sets the pixel at column `x` of row `y`; every other pixel stays.
    pub fn put_pixel(&mut self, x: u32, y: u32, p: Rgba)
        requires
            old(self)@.wf(),
            old(self)@.contains(x as int, y as int),
        ensures
            final(self)@.wf(),
            final(self)@.width == old(self)@.width,
            final(self)@.height == old(self)@.height,
            final(self)@.at(x as int, y as int) == p,
            forall|x2: int, y2: int|
                #![trigger final(self)@.at(x2, y2)]
                final(self)@.contains(x2, y2) && (x2 != x || y2 != y) ==> final(self)@.at(x2, y2)
                    == old(self)@.at(x2, y2),
    {
        let _len: usize = self.data.len();
        proof {
            lemma_pixel_index_bounds(self.width as int, self.height as int, x as int, y as int);
        }
        let i: usize = (y as usize) * (self.width as usize) + (x as usize);
        self.data.set(i, p);
        proof {
            let w = self.width as int;
            assert forall|x2: int, y2: int|
                #![trigger self@.at(x2, y2)]
                self@.contains(x2, y2) && (x2 != x || y2 != y) implies self@.at(x2, y2) == old(
                self,
            )@.at(x2, y2) by {
                lemma_pixel_index_bounds(w, self.height as int, x2, y2);
                if pixel_index(w, x2, y2) == pixel_index(w, x as int, y as int) {
                    lemma_pixel_index_injective(w, x2, y2, x as int, y as int);
                }
            }
        }
    }

    /// A copy of this image.
    pub fn duplicate(&self) -> (img: PixelBuffer)
        ensures
            img@ == self@,
    {
        let n: usize = self.data.len();
        let mut data: Vec<Rgba> = Vec::with_capacity(n);
        let mut i: usize = 0;
        while i < n
            invariant
                n == self.data@.len(),
                i <= n,
                data@ == self.data@.subrange(0, i as int),
            decreases n - i,
        {
            data.push(self.data[i]);
            i = i + 1;
            assert(data@ =~= self.data@.subrange(0, i as int));
        }
        assert(data@ =~= self.data@);
        PixelBuffer { width: self.width, height: self.height, data }
    }
}


/// `out` is the `width` x `height` window of `img` whose top-left corner is `(x0, y0)`.
pub open spec fn cropped(img: ImageView, x0: int, y0: int, width: int, height: int, out: ImageView) -> bool {
    &&& out.wf()
    &&& out.width == width
    &&& out.height == height
    &&& forall|x: int, y: int| #![trigger out.at(x, y)]
        out.contains(x, y) ==> out.at(x, y) == img.at(x0 + x, y0 + y)
}

impl PixelBuffer {
    /// The `width` x `height` window of this image whose top-left corner is `(x0, y0)`.
    pub fn crop(&self, x0: u32, y0: u32, width: u32, height: u32) -> (out: PixelBuffer)
        requires
            self@.wf(),
            x0 + width <= self@.width,
            y0 + height <= self@.height,
        ensures
            cropped(self@, x0 as int, y0 as int, width as int, height as int, out@),
    {
        let len: usize = self.data.len();
        proof {
            assert(width as int * height as int <= self.width as int * self.height as int)
                by (nonlinear_arith)
                requires
                    width <= self.width,
                    height <= self.height,
            ;
        }
        let mut out = PixelBuffer::new(width, height);
        let mut y: u32 = 0;
        while y < height
            invariant
                self@.wf(),
                x0 + width <= self@.width,
                y0 + height <= self@.height,
                y <= height,
                out@.wf(),
                out@.width == width,
                out@.height == height,
                forall|x: int, y2: int| #![trigger out@.at(x, y2)]
                    out@.contains(x, y2) && y2 < y ==> out@.at(x, y2) == self@.at(x0 + x, y0 + y2),
            decreases height - y,
        {
            let mut x: u32 = 0;
            while x < width
                invariant
                    self@.wf(),
                    x0 + width <= self@.width,
                    y0 + height <= self@.height,
                    y < height,
                    x <= width,
                    out@.wf(),
                    out@.width == width,
                    out@.height == height,
                    forall|x2: int, y2: int| #![trigger out@.at(x2, y2)]
                        out@.contains(x2, y2) && (y2 < y || (y2 == y && x2 < x)) ==> out@.at(x2, y2)
                            == self@.at(x0 + x2, y0 + y2),
                decreases width - x,
            {
                let p = self.get_pixel(x0 + x, y0 + y);
                out.put_pixel(x, y, p);
                x = x + 1;
            }
            y = y + 1;
        }
        out
    }
}

} // verus!
