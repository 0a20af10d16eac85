use std::hash::Hasher;
use vstd::prelude::*;
use vstd::std_specs::hash::DefaultHasherAdditionalSpecFns;

use crate::packer::MAX_SIZE;
use crate::pixels::{clear_pixel, cropped, ImageView, PixelBuffer, Rgba};

verus! {

/// The different error types that can occur when making a texture.
#[derive(Debug, Clone, Copy, PartialEq, Eq, Structural)]
pub enum TextureError {
    /// Invalid argument
    InvalidArg,
    /// The bytes are not an image of the format the extension names
    Undecodable,
    /// The image is too large to trim (a side beyond 2^31 pixels)
    TooLarge,
}

/// A texture: where it came from, its size, the frame it was trimmed out of,
/// a hash of its content and its RGBA pixels.
#[derive(Debug, Clone)]
pub struct Texture {
    /// is the file path.
    pub file_path: String,
    /// is the file name.
    pub file_name: String,
    /// is the width.
    pub width: u32,
    /// is the height.
    pub height: u32,
    /// is the x offset of the untrimmed frame (valid if trimmed).
    pub frame_x: i32,
    /// is the y offset of the untrimmed frame (valid if trimmed).
    pub frame_y: i32,
    /// is the width of the untrimmed frame (valid if trimmed).
    pub frame_w: u32,
    /// is the height of the untrimmed frame (valid if trimmed).
    pub frame_h: u32,
    /// is the hash value (width, height and buffer combined).
    pub hash_value: u64,
    /// is the raw buffer in RGBA format.
    pub buffer: PixelBuffer,
}

/// The mathematical content of a texture.
pub struct TextureView {
    pub file_path: Seq<char>,
    pub file_name: Seq<char>,
    pub width: u32,
    pub height: u32,
    pub frame_x: i32,
    pub frame_y: i32,
    pub frame_w: u32,
    pub frame_h: u32,
    pub hash_value: u64,
    pub image: ImageView,
}

impl View for Texture {
    type V = TextureView;

    open spec fn view(&self) -> TextureView {
        TextureView {
            file_path: self.file_path@,
            file_name: self.file_name@,
            width: self.width,
            height: self.height,
            frame_x: self.frame_x,
            frame_y: self.frame_y,
            frame_w: self.frame_w,
            frame_h: self.frame_h,
            hash_value: self.hash_value,
            image: self.buffer@,
        }
    }
}

impl TextureView {
    /// The texture's recorded size is the size of its pixel buffer.
    pub open spec fn consistent(self) -> bool {
        &&& self.image.wf()
        &&& self.image.width == self.width
        &&& self.image.height == self.height
    }

    /// The texture was cut out of a larger frame.
    pub open spec fn trimmed(self) -> bool {
        self.frame_w != self.width || self.frame_h != self.height
    }

    /// The same texture with other pixels; every other property stays.
    pub open spec fn with_image(self, image: ImageView) -> TextureView {
        TextureView { image, ..self }
    }
}

/// `dst` is `old` with `src` pasted at `(tx, ty)`.
pub open spec fn pasted(old: ImageView, src: ImageView, tx: int, ty: int, dst: ImageView) -> bool {
    &&& dst.wf()
    &&& dst.width == old.width
    &&& dst.height == old.height
    &&& forall|x: int, y: int|
        #![trigger dst.at(x, y)]
        dst.contains(x, y) ==> dst.at(x, y) == if tx <= x < tx + src.width && ty <= y < ty
            + src.height {
            src.at(x - tx, y - ty)
        } else {
            old.at(x, y)
        }
}

/// `dst` is `old` with `src`, turned 90 degrees clockwise, pasted at `(tx, ty)`:
/// column `c` of `src`, read bottom to top, becomes row `ty + c`.
pub open spec fn pasted_rot_90cw(
    old: ImageView,
    src: ImageView,
    tx: int,
    ty: int,
    dst: ImageView,
) -> bool {
    &&& dst.wf()
    &&& dst.width == old.width
    &&& dst.height == old.height
    &&& forall|x: int, y: int|
        #![trigger dst.at(x, y)]
        dst.contains(x, y) ==> dst.at(x, y) == if tx <= x < tx + src.height && ty <= y < ty
            + src.width {
            src.at(y - ty, src.height - 1 - (x - tx))
        } else {
            old.at(x, y)
        }
}

/// Whether source pixel `(sx, sy)` comes before `(x, y)` in row-major order.
pub open spec fn before(sx: int, sy: int, x: int, y: int) -> bool {
    sy < y || (sy == y && sx < x)
}

impl Texture {
    /// A new, empty texture (with a 1x1 transparent buffer).
    pub fn new() -> (t: Texture)
        ensures
            t@.file_path.len() == 0,
            t@.file_name.len() == 0,
            t.width == 0,
            t.height == 0,
            t.frame_x == 0,
            t.frame_y == 0,
            t.frame_w == 0,
            t.frame_h == 0,
            t.hash_value == 0,
            t@.image.wf(),
            t@.image.width == 1,
            t@.image.height == 1,
            t@.image.at(0, 0) == clear_pixel(),
    {
        Texture {
            file_path: String::new(),
            file_name: String::new(),
            width: 0,
            height: 0,
            frame_x: 0,
            frame_y: 0,
            frame_w: 0,
            frame_h: 0,
            hash_value: 0,
            buffer: PixelBuffer::new(1, 1),
        }
    }

    /// A new texture of the given size with a transparent buffer of that size.
    ///
    /// # Errors
    ///
    /// `InvalidArg` when `width == 0 || width > 8192 || height == 0 || height > 8192`.
    pub fn with_details(width: u32, height: u32) -> (r: Result<Texture, TextureError>)
        ensures
            match r {
                Ok(t) => {
                    &&& 0 < width <= MAX_SIZE
                    &&& 0 < height <= MAX_SIZE
                    &&& t@.file_path.len() == 0
                    &&& t@.file_name.len() == 0
                    &&& t.width == width
                    &&& t.height == height
                    &&& t.frame_x == 0
                    &&& t.frame_y == 0
                    &&& t.frame_w == 0
                    &&& t.frame_h == 0
                    &&& t.hash_value == 0
                    &&& t@.consistent()
                    &&& forall|x: int, y: int|
                        t@.image.contains(x, y) ==> #[trigger] t@.image.at(x, y) == clear_pixel()
                },
                Err(e) => {
                    &&& e == TextureError::InvalidArg
                    &&& !(0 < width <= MAX_SIZE && 0 < height <= MAX_SIZE)
                },
            },
    {
        if width > 0 && width <= MAX_SIZE && height > 0 && height <= MAX_SIZE {
            proof {
                assert(width as int * height as int <= usize::MAX) by (nonlinear_arith)
                    requires
                        width <= 8192,
                        height <= 8192,
                ;
            }
            Ok(
                Texture {
                    file_path: String::new(),
                    file_name: String::new(),
                    width,
                    height,
                    frame_x: 0,
                    frame_y: 0,
                    frame_w: 0,
                    frame_h: 0,
                    hash_value: 0,
                    buffer: PixelBuffer::new(width, height),
                },
            )
        } else {
            Err(TextureError::InvalidArg)
        }
    }

    /// The texture area (width * height).
    pub fn get_area(&self) -> (area: u32)
        requires
            self.width as int * self.height as int <= u32::MAX,
        ensures
            area == self.width as int * self.height as int,
    {
        self.width * self.height
    }

    /// Records the size the texture was loaded with: it is both the size and
    /// the (untrimmed) frame.
    pub fn update_initial_size(&mut self, width: u32, height: u32)
        ensures
            final(self)@ == (TextureView {
                frame_x: 0,
                frame_y: 0,
                frame_w: width,
                frame_h: height,
                width,
                height,
                ..old(self)@
            }),
    {
        self.frame_x = 0;
        self.frame_y = 0;
        self.frame_w = width;
        self.frame_h = height;
        self.width = width;
        self.height = height;
    }

    /// Copies the pixels of `src` into this texture with their top-left corner at `(tx, ty)`.
    pub fn copy_pixels(&mut self, src: &Texture, tx: u32, ty: u32)
        requires
            old(self)@.image.wf(),
            src@.image.wf(),
            src@.image.width == 0 || src@.image.height == 0 || (tx + src@.image.width
                <= old(self)@.image.width && ty + src@.image.height <= old(self)@.image.height),
        ensures
            final(self)@ == old(self)@.with_image(final(self)@.image),
            pasted(old(self)@.image, src@.image, tx as int, ty as int, final(self)@.image),
    {
        let (src_width, src_height) = src.buffer.dimensions();
        let ghost old_img = self.buffer@;
        let ghost s = src.buffer@;
        let mut y: u32 = 0;
        while y < src_height
            invariant
                self@ == old(self)@.with_image(self@.image),
                s == src.buffer@,
                s.wf(),
                src_width == s.width,
                src_height == s.height,
                y <= src_height,
                src_width == 0 || src_height == 0 || (tx + src_width <= old_img.width && ty
                    + src_height <= old_img.height),
                self.buffer@.wf(),
                self.buffer@.width == old_img.width,
                self.buffer@.height == old_img.height,
                old_img == old(self)@.image,
                forall|dx: int, dy: int|
                    #![trigger self.buffer@.at(dx, dy)]
                    self.buffer@.contains(dx, dy) ==> self.buffer@.at(dx, dy) == if tx <= dx < tx
                        + src_width && ty <= dy < ty + y {
                        s.at(dx - tx, dy - ty)
                    } else {
                        old_img.at(dx, dy)
                    },
            decreases src_height - y,
        {
            let mut x: u32 = 0;
            while x < src_width
                invariant
                    self@ == old(self)@.with_image(self@.image),
                    s == src.buffer@,
                    s.wf(),
                    src_width == s.width,
                    src_height == s.height,
                    y < src_height,
                    x <= src_width,
                    src_width == 0 || (tx + src_width <= old_img.width && ty + src_height
                        <= old_img.height),
                    self.buffer@.wf(),
                    self.buffer@.width == old_img.width,
                    self.buffer@.height == old_img.height,
                    old_img == old(self)@.image,
                    forall|dx: int, dy: int|
                        #![trigger self.buffer@.at(dx, dy)]
                        self.buffer@.contains(dx, dy) ==> self.buffer@.at(dx, dy) == if tx <= dx
                            < tx + src_width && ty <= dy < ty + src_height && before(
                            dx - tx,
                            dy - ty,
                            x as int,
                            y as int,
                        ) {
                            s.at(dx - tx, dy - ty)
                        } else {
                            old_img.at(dx, dy)
                        },
                decreases src_width - x,
            {
                let pixel = src.buffer.get_pixel(x, y);
                self.buffer.put_pixel(x + tx, y + ty, pixel);
                x = x + 1;
            }
            y = y + 1;
        }
    }

    /// Copies the pixels of `src`, turned 90 degrees clockwise, into this
    /// texture with their top-left corner at `(tx, ty)`.
    pub fn copy_pixels_rot_90cw(&mut self, src: &Texture, tx: u32, ty: u32)
        requires
            old(self)@.image.wf(),
            src@.image.wf(),
            src@.image.height >= 1,
            src@.image.width == 0 || (tx + src@.image.height <= old(self)@.image.width && ty
                + src@.image.width <= old(self)@.image.height),
        ensures
            final(self)@ == old(self)@.with_image(final(self)@.image),
            pasted_rot_90cw(old(self)@.image, src@.image, tx as int, ty as int, final(self)@.image),
    {
        let (src_width, src_height) = src.buffer.dimensions();
        let r: u32 = src_height - 1;
        let ghost old_img = self.buffer@;
        let ghost s = src.buffer@;
        let mut y: u32 = 0;
        while y < src_height
            invariant
                self@ == old(self)@.with_image(self@.image),
                s == src.buffer@,
                s.wf(),
                src_width == s.width,
                src_height == s.height,
                r == src_height - 1,
                y <= src_height,
                src_width == 0 || (tx + src_height <= old_img.width && ty + src_width
                    <= old_img.height),
                self.buffer@.wf(),
                self.buffer@.width == old_img.width,
                self.buffer@.height == old_img.height,
                old_img == old(self)@.image,
                forall|dx: int, dy: int|
                    #![trigger self.buffer@.at(dx, dy)]
                    self.buffer@.contains(dx, dy) ==> self.buffer@.at(dx, dy) == if tx <= dx < tx
                        + src_height && ty <= dy < ty + src_width && r - (dx - tx) < y {
                        s.at(dy - ty, r - (dx - tx))
                    } else {
                        old_img.at(dx, dy)
                    },
            decreases src_height - y,
        {
            let mut x: u32 = 0;
            while x < src_width
                invariant
                    self@ == old(self)@.with_image(self@.image),
                    s == src.buffer@,
                    s.wf(),
                    src_width == s.width,
                    src_height == s.height,
                    r == src_height - 1,
                    y < src_height,
                    x <= src_width,
                    src_width == 0 || (tx + src_height <= old_img.width && ty + src_width
                        <= old_img.height),
                    self.buffer@.wf(),
                    self.buffer@.width == old_img.width,
                    self.buffer@.height == old_img.height,
                    old_img == old(self)@.image,
                    forall|dx: int, dy: int|
                        #![trigger self.buffer@.at(dx, dy)]
                        self.buffer@.contains(dx, dy) ==> self.buffer@.at(dx, dy) == if tx <= dx
                            < tx + src_height && ty <= dy < ty + src_width && before(
                            dy - ty,
                            r - (dx - tx),
                            x as int,
                            y as int,
                        ) {
                            s.at(dy - ty, r - (dx - tx))
                        } else {
                            old_img.at(dx, dy)
                        },
                decreases src_width - x,
            {
                let pixel = src.buffer.get_pixel(x, y);
                self.buffer.put_pixel(r - y + tx, x + ty, pixel);
                x = x + 1;
            }
            y = y + 1;
        }
    }
}


/// Pixel `(x, y)` lies inside `img` and is not fully transparent.
pub open spec fn opaque(img: ImageView, x: int, y: int) -> bool {
    img.contains(x, y) && img.at(x, y)[3] > 0
}

/// `[x0, x1] x [y0, y1]` is the smallest box that holds every pixel of
/// `img` that is not fully transparent.
pub open spec fn is_opaque_bounds(img: ImageView, x0: int, y0: int, x1: int, y1: int) -> bool {
    &&& forall|x: int, y: int| #[trigger] opaque(img, x, y) ==> x0 <= x <= x1 && y0 <= y <= y1
    &&& exists|y: int| #[trigger] opaque(img, x0, y)
    &&& exists|y: int| #[trigger] opaque(img, x1, y)
    &&& exists|x: int| #[trigger] opaque(img, x, y0)
    &&& exists|x: int| #[trigger] opaque(img, x, y1)
}

/// The smallest box `(x0, y0, x1, y1)` (both corners included) that holds
/// every pixel of `img` that is not fully transparent; `None` when there is none.
pub open spec fn opaque_bounds(img: ImageView) -> Option<(u32, u32, u32, u32)> {
    if exists|b: (u32, u32, u32, u32)| is_opaque_bounds(img, b.0 as int, b.1 as int, b.2 as int, b.3 as int) {
        Some(choose|b: (u32, u32, u32, u32)| is_opaque_bounds(img, b.0 as int, b.1 as int, b.2 as int, b.3 as int))
    } else {
        None
    }
}

/// The smallest box around the opaque pixels is unique.
pub proof fn lemma_opaque_bounds_unique(
    img: ImageView,
    a: (u32, u32, u32, u32),
    b: (u32, u32, u32, u32),
)
    requires
        is_opaque_bounds(img, a.0 as int, a.1 as int, a.2 as int, a.3 as int),
        is_opaque_bounds(img, b.0 as int, b.1 as int, b.2 as int, b.3 as int),
    ensures
        a == b,
{
    let ya0 = choose|y: int| #[trigger] opaque(img, a.0 as int, y);
    let yb0 = choose|y: int| #[trigger] opaque(img, b.0 as int, y);
    let ya2 = choose|y: int| #[trigger] opaque(img, a.2 as int, y);
    let yb2 = choose|y: int| #[trigger] opaque(img, b.2 as int, y);
    let xa1 = choose|x: int| #[trigger] opaque(img, x, a.1 as int);
    let xb1 = choose|x: int| #[trigger] opaque(img, x, b.1 as int);
    let xa3 = choose|x: int| #[trigger] opaque(img, x, a.3 as int);
    let xb3 = choose|x: int| #[trigger] opaque(img, x, b.3 as int);
}

/// The smallest box that holds every pixel of `img` that is not fully
/// transparent, as `(min_x, min_y, max_x, max_y)`; `None` when every pixel is
/// fully transparent.
pub fn find_opaque_bounds(img: &PixelBuffer) -> (r: Option<(u32, u32, u32, u32)>)
    requires
        img@.wf(),
    ensures
        r == opaque_bounds(img@),
        r matches Some(b) ==> b.0 <= b.2 < img@.width && b.1 <= b.3 < img@.height,
{
    let (width, height) = img.dimensions();
    let ghost g = img@;
    let mut min_x: u32 = width;
    let mut min_y: u32 = height;
    let mut max_x: u32 = 0;
    let mut max_y: u32 = 0;
    let mut found: bool = false;
    let ghost mut w_min_x: int = 0;
    let ghost mut w_max_x: int = 0;
    let ghost mut w_min_y: int = 0;
    let ghost mut w_max_y: int = 0;
    let mut y: u32 = 0;
    while y < height
        invariant
            g == img@,
            g.wf(),
            width == g.width,
            height == g.height,
            y <= height,
            !found ==> forall|x: int, y2: int| #[trigger] opaque(g, x, y2) ==> y2 >= y,
            found ==> {
                &&& min_x <= max_x < width
                &&& min_y <= max_y < height
                &&& forall|x: int, y2: int|
                    #[trigger] opaque(g, x, y2) && y2 < y ==> min_x <= x <= max_x && min_y <= y2
                        <= max_y
                &&& opaque(g, min_x as int, w_min_x)
                &&& opaque(g, max_x as int, w_max_x)
                &&& opaque(g, w_min_y, min_y as int)
                &&& opaque(g, w_max_y, max_y as int)
            },
        decreases height - y,
    {
        let mut x: u32 = 0;
        while x < width
            invariant
                g == img@,
                g.wf(),
                width == g.width,
                height == g.height,
                y < height,
                x <= width,
                !found ==> forall|x2: int, y2: int|
                    #[trigger] opaque(g, x2, y2) ==> y2 > y || (y2 == y && x2 >= x),
                found ==> {
                    &&& min_x <= max_x < width
                    &&& min_y <= max_y < height
                    &&& forall|x2: int, y2: int|
                        #[trigger] opaque(g, x2, y2) && (y2 < y || (y2 == y && x2 < x)) ==> min_x
                            <= x2 <= max_x && min_y <= y2 <= max_y
                    &&& opaque(g, min_x as int, w_min_x)
                    &&& opaque(g, max_x as int, w_max_x)
                    &&& opaque(g, w_min_y, min_y as int)
                    &&& opaque(g, w_max_y, max_y as int)
                },
            decreases width - x,
        {
            let pixel = img.get_pixel(x, y);
            if pixel[3] > 0 {
                if !found {
                    min_x = x;
                    max_x = x;
                    min_y = y;
                    max_y = y;
                    found = true;
                    proof {
                        w_min_x = y as int;
                        w_max_x = y as int;
                        w_min_y = x as int;
                        w_max_y = x as int;
                    }
                } else {
                    if x < min_x {
                        min_x = x;
                        proof {
                            w_min_x = y as int;
                        }
                    }
                    if x > max_x {
                        max_x = x;
                        proof {
                            w_max_x = y as int;
                        }
                    }
                    if y < min_y {
                        min_y = y;
                        proof {
                            w_min_y = x as int;
                        }
                    }
                    if y > max_y {
                        max_y = y;
                        proof {
                            w_max_y = x as int;
                        }
                    }
                }
                assert(opaque(g, x as int, y as int));
            } else {
                assert(!opaque(g, x as int, y as int));
            }
            x = x + 1;
        }
        y = y + 1;
    }
    if !found {
        proof {
            assert forall|b: (u32, u32, u32, u32)|
                !is_opaque_bounds(g, b.0 as int, b.1 as int, b.2 as int, b.3 as int) by {
                if is_opaque_bounds(g, b.0 as int, b.1 as int, b.2 as int, b.3 as int) {
                    let yy = choose|yy: int| #[trigger] opaque(g, b.0 as int, yy);
                }
            }
        }
        None
    } else {
        let b = (min_x, min_y, max_x, max_y);
        proof {
            assert(is_opaque_bounds(g, b.0 as int, b.1 as int, b.2 as int, b.3 as int));
            let c = choose|c: (u32, u32, u32, u32)|
                is_opaque_bounds(g, c.0 as int, c.1 as int, c.2 as int, c.3 as int);
            lemma_opaque_bounds_unique(g, b, c);
        }
        Some(b)
    }
}

impl Texture {
    /// Trims the fully transparent border off `img` and returns what is left.
    ///
    /// When `img` has no pixel that is not fully transparent, the result is a
    /// 1x1 transparent buffer and the texture is unchanged. When the border
    /// is empty, the result is a copy of `img` and the texture is unchanged.
    /// Otherwise the texture records the frame it was cut out of: `frame_x`
    /// and `frame_y` are minus the offset of the kept window, `frame_w` and
    /// `frame_h` the size of `img`, and `width` and `height` the size of the window.
    pub fn trim(&mut self, img: &PixelBuffer) -> (out: PixelBuffer)
        requires
            img@.wf(),
            opaque_bounds(img@) matches Some(b) ==> b.0 <= i32::MAX && b.1 <= i32::MAX,
        ensures
            match opaque_bounds(img@) {
                None => {
                    &&& final(self)@ == old(self)@
                    &&& out@.wf()
                    &&& out@.width == 1
                    &&& out@.height == 1
                    &&& out@.at(0, 0) == clear_pixel()
                },
                Some(b) => {
                    let w = b.2 - b.0 + 1;
                    let h = b.3 - b.1 + 1;
                    &&& cropped(img@, b.0 as int, b.1 as int, w, h, out@)
                    &&& final(self)@ == if w == img@.width && h == img@.height {
                        old(self)@
                    } else {
                        TextureView {
                            frame_x: (-b.0) as i32,
                            frame_y: (-b.1) as i32,
                            frame_w: img@.width,
                            frame_h: img@.height,
                            width: w as u32,
                            height: h as u32,
                            ..old(self)@
                        }
                    }
                },
            },
    {
        let (width, height) = img.dimensions();
        if width == 0 || height == 0 {
            proof {
                assert forall|b: (u32, u32, u32, u32)|
                    !is_opaque_bounds(img@, b.0 as int, b.1 as int, b.2 as int, b.3 as int) by {
                    if is_opaque_bounds(img@, b.0 as int, b.1 as int, b.2 as int, b.3 as int) {
                        let yy = choose|yy: int| #[trigger] opaque(img@, b.0 as int, yy);
                    }
                }
            }
            return PixelBuffer::new(1, 1);
        }
        match find_opaque_bounds(img) {
            None => PixelBuffer::new(1, 1),
            Some((min_x, min_y, max_x, max_y)) => {
                let new_width = (max_x - min_x) + 1;
                let new_height = (max_y - min_y) + 1;
                let trimmed = img.crop(min_x, min_y, new_width, new_height);
                if new_width == width && new_height == height {
                    return trimmed;
                }
                let x: i32 = min_x as i32;
                let y: i32 = min_y as i32;
                self.frame_x = -x;
                self.frame_y = -y;
                self.frame_w = width;
                self.frame_h = height;
                self.width = new_width;
                self.height = new_height;
                trimmed
            },
        }
    }
}

/// The four bytes of `v`, least significant first.
pub open spec fn le32(v: u32) -> Seq<u8> {
    seq![(v % 256) as u8, ((v / 256) % 256) as u8, ((v / 65536) % 256) as u8, (v / 16777216) as u8]
}

/// The bytes of the pixels, pixel after pixel, each as its red, green, blue
/// and alpha byte.
pub open spec fn pixel_bytes(ps: Seq<Rgba>) -> Seq<u8>
    decreases ps.len(),
{
    if ps.len() == 0 {
        Seq::empty()
    } else {
        let p = ps.last();
        pixel_bytes(ps.drop_last()) + seq![p[0], p[1], p[2], p[3]]
    }
}

/// What a texture's hash is computed from: one write each of its width and
/// its height (four bytes, least significant first) and of its pixel bytes.
pub open spec fn hash_input(width: u32, height: u32, image: ImageView) -> Seq<Seq<u8>> {
    seq![le32(width), le32(height), pixel_bytes(image.pixels)]
}

/// The four bytes of `le32(v)` give `v` back, least significant first.
pub proof fn lemma_le32_value(v: u32)
    ensures
        le32(v).len() == 4,
        v == le32(v)[0] + 256 * le32(v)[1] + 65536 * le32(v)[2] + 16777216 * le32(v)[3],
{
    let b = le32(v);
    assert(b[0] == v % 256);
    assert(b[1] == (v / 256) % 256);
    assert(b[2] == (v / 65536) % 256);
    assert(b[3] == v / 16777216);
    assert(v == v % 256 + 256 * ((v / 256) % 256) + 65536 * ((v / 65536) % 256) + 16777216 * (v
        / 16777216)) by (nonlinear_arith)
        requires
            v <= u32::MAX,
    ;
}

/// Law: the pixel bytes hold every channel of every pixel in its place:
/// four bytes per pixel, and byte `4 * i + j` is channel `j` of pixel `i`.
pub proof fn lemma_pixel_bytes_layout(ps: Seq<Rgba>)
    ensures
        pixel_bytes(ps).len() == 4 * ps.len(),
        forall|i: int, j: int|
            #![trigger ps[i][j]]
            0 <= i < ps.len() && 0 <= j < 4 ==> pixel_bytes(ps)[4 * i + j] == ps[i][j],
    decreases ps.len(),
{
    if ps.len() > 0 {
        let q = ps.drop_last();
        lemma_pixel_bytes_layout(q);
        assert forall|i: int, j: int|
            #![trigger ps[i][j]]
            0 <= i < ps.len() && 0 <= j < 4 implies pixel_bytes(ps)[4 * i + j] == ps[i][j] by {
            if i < ps.len() - 1 {
                assert(q[i] == ps[i]);
                assert(q[i][j] == ps[i][j]);
                assert(pixel_bytes(ps)[4 * i + j] == pixel_bytes(q)[4 * i + j]);
            } else {
                let p = ps.last();
                assert(pixel_bytes(ps)[4 * i + j] == seq![p[0], p[1], p[2], p[3]][j]);
            }
        }
    }
}

/// Law: what a texture is hashed from determines its width, its height and
/// every channel of every pixel: two textures whose hash inputs are equal
/// agree on all of them, so textures that differ in size or in any byte of
/// any pixel are hashed from different bytes.
pub proof fn lemma_hash_input_injective(
    w1: u32,
    h1: u32,
    img1: ImageView,
    w2: u32,
    h2: u32,
    img2: ImageView,
)
    requires
        hash_input(w1, h1, img1) == hash_input(w2, h2, img2),
    ensures
        w1 == w2,
        h1 == h2,
        img1.pixels.len() == img2.pixels.len(),
        forall|i: int, j: int|
            #![trigger img1.pixels[i][j]]
            0 <= i < img1.pixels.len() && 0 <= j < 4 ==> img1.pixels[i][j] == img2.pixels[i][j],
{
    let a = hash_input(w1, h1, img1);
    let b = hash_input(w2, h2, img2);
    assert(a[0] == b[0] && a[1] == b[1] && a[2] == b[2]);
    lemma_le32_value(w1);
    lemma_le32_value(w2);
    lemma_le32_value(h1);
    lemma_le32_value(h2);
    lemma_pixel_bytes_layout(img1.pixels);
    lemma_pixel_bytes_layout(img2.pixels);
    assert forall|i: int, j: int|
        #![trigger img1.pixels[i][j]]
        0 <= i < img1.pixels.len() && 0 <= j < 4 implies img1.pixels[i][j] == img2.pixels[i][j] by {
        assert(pixel_bytes(img1.pixels)[4 * i + j] == img1.pixels[i][j]);
        assert(pixel_bytes(img2.pixels)[4 * i + j] == img2.pixels[i][j]);
    }
}

/// Law: textures of the same size whose pixels differ in some channel of
/// some pixel are hashed from different bytes.
pub proof fn lemma_hash_input_tells_pixels_apart(w: u32, h: u32, img1: ImageView, img2: ImageView, i: int, j: int)
    requires
        0 <= i < img1.pixels.len(),
        0 <= j < 4,
        img1.pixels[i][j] != img2.pixels[i][j],
    ensures
        hash_input(w, h, img1) != hash_input(w, h, img2),
{
    if hash_input(w, h, img1) == hash_input(w, h, img2) {
        lemma_hash_input_injective(w, h, img1, w, h, img2);
        assert(img1.pixels[i][j] == img2.pixels[i][j]);
    }
}

/// The bytes of `v`, least significant first.
fn le32_bytes(v: u32) -> (b: Vec<u8>)
    ensures
        b@ == le32(v),
{
    let b = vec![(v % 256) as u8, ((v / 256) % 256) as u8, ((v / 65536) % 256) as u8, (v / 16777216) as u8];
    assert(b@ =~= le32(v));
    b
}

/// The bytes of the pixels, pixel after pixel.
fn pixel_byte_vec(ps: &Vec<Rgba>) -> (b: Vec<u8>)
    ensures
        b@ == pixel_bytes(ps@),
{
    let mut b: Vec<u8> = Vec::new();
    let mut i: usize = 0;
    proof {
        assert(ps@.take(0) =~= Seq::<Rgba>::empty());
    }
    while i < ps.len()
        invariant
            i <= ps@.len(),
            b@ == pixel_bytes(ps@.take(i as int)),
        decreases ps@.len() - i,
    {
        let p = ps[i];
        b.push(p[0]);
        b.push(p[1]);
        b.push(p[2]);
        b.push(p[3]);
        proof {
            let t = ps@.take(i + 1);
            assert(t.drop_last() =~= ps@.take(i as int));
            assert(t.last() == p);
            assert(b@ =~= pixel_bytes(ps@.take(i as int)) + seq![p[0], p[1], p[2], p[3]]);
        }
        i = i + 1;
    }
    proof {
        assert(ps@.take(ps@.len() as int) =~= ps@);
    }
    b
}

/// The size `image::DynamicImage::resize` gives a `width` x `height`
/// image asked to fit within `box_width` x `box_height`.
pub uninterp spec fn scaled_size(width: u32, height: u32, box_width: u32, box_height: u32) -> (u32, u32);

/// Scales the pixels with `image::DynamicImage::resize` and the Lanczos3
/// filter.
///
/// Claimed, as the crate documents: the result is the largest scaling of
/// the image (its aspect ratio kept) that fits within `width` x `height`;
/// its size is `scaled_size` of the image's size and the box (the crate
/// works it out from these four numbers alone), and, as its source shows,
/// each side is at least 1, and asking for the image's own size gives the
/// image back. Which pixels come out is not stated: the filter computes in
/// floating point.
#[verifier::external_body]
fn resize_pixels(buffer: &PixelBuffer, width: u32, height: u32) -> (r: PixelBuffer)
    requires
        buffer@.wf(),
        4 * buffer@.pixels.len() <= usize::MAX,
        buffer@.width > 0,
        buffer@.height > 0,
        width > 0,
        height > 0,
    ensures
        r@.wf(),
        (r@.width, r@.height) == scaled_size(buffer@.width, buffer@.height, width, height),
        1 <= r@.width <= width,
        1 <= r@.height <= height,
        width == buffer@.width && height == buffer@.height ==> r@ == buffer@,
{
    let raw: Vec<u8> = buffer.pixels().iter().flatten().copied().collect();
    let rgba = image::RgbaImage::from_raw(buffer.width(), buffer.height(), raw).unwrap();
    let scaled = image::DynamicImage::ImageRgba8(rgba).resize(
        width,
        height,
        image::imageops::FilterType::Lanczos3,
    ).to_rgba8();
    let (w, h) = scaled.dimensions();
    PixelBuffer::from_pixels(w, h, scaled.pixels().map(|p| p.0).collect()).unwrap()
}

/// What the `image` crate decodes `bytes` to, in the format that the file
/// extension `extension` names, as RGBA pixels; `None` when it cannot.
pub uninterp spec fn decoded_image(bytes: Seq<u8>, extension: Seq<char>) -> Option<ImageView>;

/// Decodes the bytes of an image file with
/// `image::load_from_memory_with_format`, the format picked by
/// `image::ImageFormat::from_extension` (as `image::ImageReader::open` picks
/// it from a path), and converts the result to RGBA pixels.
///
/// Claimed: the result is `decoded_image` of the bytes and the extension
/// (the decoders depend on nothing else), and a decoded image holds as many
/// pixels as its size says. Which bytes decode, and to which pixels, is the
/// crate's and not stated; nor is it stated that every decoder returns
/// rather than panics on every malformed file (not every decoder's source
/// was read for that).
#[verifier::external_body]
fn decode_image(bytes: &Vec<u8>, extension: &str) -> (r: Option<PixelBuffer>)
    ensures
        match r {
            Some(img) => img@.wf() && decoded_image(bytes@, extension@) == Some(img@),
            None => decoded_image(bytes@, extension@) is None,
        },
{
    let format = image::ImageFormat::from_extension(extension)?;
    let rgba = image::load_from_memory_with_format(bytes, format).ok()?.to_rgba8();
    let (w, h) = rgba.dimensions();
    PixelBuffer::from_pixels(w, h, rgba.pixels().map(|p| p.0).collect())
}

/// An image small enough to trim: both sides at most 2^31 pixels, so that
/// the trim offsets fit an `i32`.
pub open spec fn trim_fits(img: ImageView) -> bool {
    img.width <= 0x8000_0000 && img.height <= 0x8000_0000
}

/// The texture `new` is `old` after taking on the decoded `image` (what
/// `load_decoded` does): where it came from, its size and frame, and its
/// pixels, trimmed when `trim` is set.
pub open spec fn decoded_into(
    old: TextureView,
    file_path: Seq<char>,
    file_name: Option<Seq<char>>,
    image: ImageView,
    trim: bool,
    new: TextureView,
) -> bool {
    &&& new.file_path == file_path
    &&& new.file_name == match file_name {
        Some(n) => n,
        None => old.file_name,
    }
    &&& new.hash_value == old.hash_value
    &&& new.image.wf()
    &&& !trim || trims_nothing(image) ==> {
        &&& new.width == image.width
        &&& new.height == image.height
        &&& new.frame_x == 0
        &&& new.frame_y == 0
        &&& new.frame_w == image.width
        &&& new.frame_h == image.height
    }
    &&& !trim ==> new.image == image
    &&& trim ==> match opaque_bounds(image) {
        None => {
            &&& new.image.width == 1
            &&& new.image.height == 1
            &&& new.image.at(0, 0) == clear_pixel()
        },
        Some(b) => {
            let w = b.2 - b.0 + 1;
            let h = b.3 - b.1 + 1;
            &&& cropped(image, b.0 as int, b.1 as int, w, h, new.image)
            &&& (w != image.width || h != image.height) ==> {
                &&& new.frame_x == -b.0
                &&& new.frame_y == -b.1
                &&& new.frame_w == image.width
                &&& new.frame_h == image.height
                &&& new.width == w
                &&& new.height == h
            }
        },
    }
}

/// Trimming `img` keeps its whole frame: it has no opaque pixel at all, or
/// the box around its opaque pixels is the whole image.
pub open spec fn trims_nothing(img: ImageView) -> bool {
    match opaque_bounds(img) {
        None => true,
        Some(b) => b.2 - b.0 + 1 == img.width && b.3 - b.1 + 1 == img.height,
    }
}

impl Texture {
    /// Takes on a decoded image: remembers where it came from (the file name
    /// only when one is given), records its size as the texture size and
    /// frame, and keeps its pixels, with the transparent border trimmed off
    /// when `trim` is set.
    pub fn load_decoded(
        &mut self,
        file_path: String,
        file_name: Option<String>,
        image: PixelBuffer,
        trim: bool,
    )
        requires
            image@.wf(),
            trim ==> (opaque_bounds(image@) matches Some(b) ==> b.0 <= i32::MAX && b.1
                <= i32::MAX),
        ensures
            final(self)@.file_path == file_path@,
            final(self)@.file_name == match file_name {
                Some(n) => n@,
                None => old(self)@.file_name,
            },
            final(self).hash_value == old(self).hash_value,
            final(self)@.image.wf(),
            !trim || trims_nothing(image@) ==> {
                &&& final(self).width == image@.width
                &&& final(self).height == image@.height
                &&& final(self).frame_x == 0
                &&& final(self).frame_y == 0
                &&& final(self).frame_w == image@.width
                &&& final(self).frame_h == image@.height
            },
            !trim ==> final(self)@.image == image@,
            trim ==> match opaque_bounds(image@) {
                None => {
                    &&& final(self)@.image.width == 1
                    &&& final(self)@.image.height == 1
                    &&& final(self)@.image.at(0, 0) == clear_pixel()
                },
                Some(b) => {
                    let w = b.2 - b.0 + 1;
                    let h = b.3 - b.1 + 1;
                    &&& cropped(image@, b.0 as int, b.1 as int, w, h, final(self)@.image)
                    &&& (w != image@.width || h != image@.height) ==> {
                        &&& final(self).frame_x == -b.0
                        &&& final(self).frame_y == -b.1
                        &&& final(self).frame_w == image@.width
                        &&& final(self).frame_h == image@.height
                        &&& final(self).width == w
                        &&& final(self).height == h
                    }
                },
            },
    {
        self.file_path = file_path;
        match file_name {
            Some(name) => {
                self.file_name = name;
            },
            None => {},
        }
        let (width, height) = image.dimensions();
        self.update_initial_size(width, height);
        if trim {
            self.buffer = self.trim(&image);
        } else {
            self.buffer = image;
        }
    }

    /// Replaces the pixels by a copy scaled (Lanczos3) to fit within
    /// `width` x `height` (of size `scaled_size`), and records `width` x `height` as the texture's
    /// size and untrimmed frame.
    pub fn resize_to(&mut self, width: u32, height: u32)
        requires
            old(self)@.image.wf(),
            4 * old(self)@.image.pixels.len() <= usize::MAX,
            old(self)@.image.width > 0,
            old(self)@.image.height > 0,
            width > 0,
            height > 0,
        ensures
            final(self)@ == (TextureView {
                frame_x: 0,
                frame_y: 0,
                frame_w: width,
                frame_h: height,
                width,
                height,
                image: final(self)@.image,
                ..old(self)@
            }),
            final(self)@.image.wf(),
            (final(self)@.image.width, final(self)@.image.height) == scaled_size(
                old(self)@.image.width,
                old(self)@.image.height,
                width,
                height,
            ),
            1 <= final(self)@.image.width <= width,
            1 <= final(self)@.image.height <= height,
            width == old(self)@.image.width && height == old(self)@.image.height
                ==> final(self)@.image == old(self)@.image,
    {
        self.buffer = resize_pixels(&self.buffer, width, height);
        self.update_initial_size(width, height);
    }

    /// Loads the texture from the bytes of an image file whose extension is
    /// `extension`: decodes them and takes on the image as `load_decoded`
    /// does.
    ///
    /// # Errors
    ///
    /// `Undecodable` when the bytes do not decode; `TooLarge` when trimming
    /// is asked for and a side of the image exceeds 2^31 pixels. The texture
    /// is then unchanged.
    pub fn load_bytes(
        &mut self,
        file_path: String,
        file_name: Option<String>,
        bytes: &Vec<u8>,
        extension: &str,
        trim: bool,
    ) -> (r: Result<(), TextureError>)
        ensures
            match decoded_image(bytes@, extension@) {
                None => r == Err::<(), TextureError>(TextureError::Undecodable) && final(self)@
                    == old(self)@,
                Some(img) => if trim && !trim_fits(img) {
                    r == Err::<(), TextureError>(TextureError::TooLarge) && final(self)@ == old(
                        self,
                    )@
                } else {
                    r == Ok::<(), TextureError>(()) && decoded_into(
                        old(self)@,
                        file_path@,
                        match file_name {
                            Some(n) => Some(n@),
                            None => None,
                        },
                        img,
                        trim,
                        final(self)@,
                    )
                },
            },
    {
        match decode_image(bytes, extension) {
            None => Err(TextureError::Undecodable),
            Some(image) => {
                let (w, h) = image.dimensions();
                if trim && (w > 0x8000_0000 || h > 0x8000_0000) {
                    return Err(TextureError::TooLarge);
                }
                proof {
                    if trim {
                        if let Some(b) = opaque_bounds(image@) {
                            let y0 = choose|y: int| #[trigger] opaque(image@, b.0 as int, y);
                            let x1 = choose|x: int| #[trigger] opaque(image@, x, b.1 as int);
                            assert(opaque(image@, b.0 as int, y0));
                            assert(opaque(image@, x1, b.1 as int));
                        }
                    }
                }
                self.load_decoded(file_path, file_name, image, trim);
                Ok(())
            },
        }
    }

    /// Whether the texture, with `padding` added to each side length, is
    /// wider or taller than `atlas_size`.
    pub fn exceeds(&self, padding: u32, atlas_size: u32) -> (r: bool)
        requires
            self.width + padding <= u32::MAX,
            self.width + padding <= atlas_size ==> self.height + padding <= u32::MAX,
        ensures
            r == (self.width + padding > atlas_size || self.height + padding > atlas_size),
    {
        ((self.width + padding) > atlas_size) || ((self.height + padding) > atlas_size)
    }

    /// Recomputes `hash_value` from the texture's size and pixels: a new
    /// `DefaultHasher` is fed the width, the height (four bytes each, least
    /// significant first) and the pixel bytes, one write each, and
    /// `hash_value` becomes what its `finish` gives. Textures of the same
    /// size and pixels get the same hash; nothing else changes.
    pub fn update_hash(&mut self)
        ensures
            final(self)@ == (TextureView { hash_value: final(self).hash_value, ..old(self)@ }),
            final(self).hash_value == std::hash::DefaultHasher::spec_finish(
                hash_input(old(self).width, old(self).height, old(self)@.image),
            ),
    {
        let mut hasher = std::hash::DefaultHasher::new();
        let w = le32_bytes(self.width);
        let h = le32_bytes(self.height);
        let px = pixel_byte_vec(self.buffer.pixels());
        hasher.write(w.as_slice());
        hasher.write(h.as_slice());
        hasher.write(px.as_slice());
        assert(hasher@ =~= hash_input(self.width, self.height, self@.image));
        self.hash_value = hasher.finish();
    }

    /// A copy of this texture.
    pub fn duplicate(&self) -> (t: Texture)
        ensures
            t@ == self@,
    {
        Texture {
            file_path: self.file_path.clone(),
            file_name: self.file_name.clone(),
            width: self.width,
            height: self.height,
            frame_x: self.frame_x,
            frame_y: self.frame_y,
            frame_w: self.frame_w,
            frame_h: self.frame_h,
            hash_value: self.hash_value,
            buffer: self.buffer.duplicate(),
        }
    }
}

impl Default for Texture {
    /// The same as [`Texture::new`].
    fn default() -> (t: Texture)
        ensures
            t@.file_path.len() == 0,
            t@.file_name.len() == 0,
            t.width == 0,
            t.height == 0,
            t.frame_x == 0,
            t.frame_y == 0,
            t.frame_w == 0,
            t.frame_h == 0,
            t.hash_value == 0,
            t@.image.wf(),
            t@.image.width == 1,
            t@.image.height == 1,
            t@.image.at(0, 0) == clear_pixel(),
    {
        Texture::new()
    }
}

} // verus!
