use flow_texpack::pixels::PixelBuffer;
use flow_texpack::texture::{find_opaque_bounds, Texture, TextureError};

fn patterned(width: u32, height: u32) -> PixelBuffer {
    let mut px = Vec::new();
    for y in 0..height {
        for x in 0..width {
            px.push([x as u8, y as u8, (x + y) as u8, 255]);
        }
    }
    PixelBuffer::from_pixels(width, height, px).unwrap()
}

#[test]
fn texture_error() {
    assert_eq!(Texture::with_details(0, 0).unwrap_err(), TextureError::InvalidArg);

    assert_eq!(Texture::with_details(32, 0).unwrap_err(), TextureError::InvalidArg);

    assert_eq!(Texture::with_details(0, 32).unwrap_err(), TextureError::InvalidArg);

    assert_eq!(Texture::with_details(8192, 8193).unwrap_err(), TextureError::InvalidArg);

    assert_eq!(Texture::with_details(8193, 8192).unwrap_err(), TextureError::InvalidArg);
}

#[test]
fn texture_basics() {
    let t1 = Texture::new();
    assert_eq!(t1.width, 0);
    assert_eq!(t1.height, 0);
    assert_eq!(t1.frame_x, 0);
    assert_eq!(t1.frame_y, 0);
    assert_eq!(t1.frame_w, 0);
    assert_eq!(t1.frame_h, 0);
    assert_eq!(t1.hash_value, 0);

    let t2 = Texture::with_details(32, 32).unwrap();
    assert_eq!(t2.width, 32);
    assert_eq!(t2.height, 32);
}

#[test]
fn texture_get_area() {
    let t1 = Texture::with_details(32, 32).unwrap();
    assert_eq!(t1.get_area(), 1024);
}

#[test]
fn texture_default_is_new() {
    let t = Texture::default();
    assert_eq!(t.width, 0);
    assert_eq!(t.buffer.dimensions(), (1, 1));
    assert_eq!(t.buffer.get_pixel(0, 0), [0, 0, 0, 0]);
}

#[test]
fn with_details_is_transparent() {
    let t = Texture::with_details(8192, 1).unwrap();
    assert_eq!(t.buffer.dimensions(), (8192, 1));
    assert_eq!(t.buffer.get_pixel(8191, 0), [0, 0, 0, 0]);
}

#[test]
fn copy_pixels_places_the_source() {
    let mut dst = Texture::with_details(64, 64).unwrap();
    let mut src = Texture::with_details(3, 2).unwrap();
    src.buffer = patterned(3, 2);
    dst.copy_pixels(&src, 10, 20);
    for y in 0..2u32 {
        for x in 0..3u32 {
            assert_eq!(dst.buffer.get_pixel(10 + x, 20 + y), src.buffer.get_pixel(x, y));
        }
    }
    assert_eq!(dst.buffer.get_pixel(9, 20), [0, 0, 0, 0]);
    assert_eq!(dst.buffer.get_pixel(13, 21), [0, 0, 0, 0]);
    assert_eq!(dst.buffer.get_pixel(10, 22), [0, 0, 0, 0]);
}

#[test]
fn copy_pixels_rot_90cw_turns_the_source() {
    let mut dst = Texture::with_details(64, 64).unwrap();
    let mut src = Texture::with_details(3, 2).unwrap();
    src.buffer = patterned(3, 2);
    dst.copy_pixels_rot_90cw(&src, 5, 7);
    // turned clockwise: source (x, y) lands at (h - 1 - y, x)
    for y in 0..2u32 {
        for x in 0..3u32 {
            assert_eq!(dst.buffer.get_pixel(5 + (1 - y), 7 + x), src.buffer.get_pixel(x, y));
        }
    }
    assert_eq!(dst.buffer.get_pixel(7, 7), [0, 0, 0, 0]);
    assert_eq!(dst.buffer.get_pixel(5, 10), [0, 0, 0, 0]);
}

fn solid(width: u32, height: u32, rgba: [u8; 4]) -> Texture {
    let mut t = Texture::new();
    t.load_decoded(
        String::new(),
        None,
        PixelBuffer::from_pixels(width, height, vec![rgba; (width * height) as usize]).unwrap(),
        false,
    );
    t
}

#[test]
fn texture_copy_pixels() {
    let t1 = solid(32, 32, [255, 255, 255, 255]);
    let t2 = solid(32, 32, [255, 0, 0, 255]);
    let t3 = solid(32, 32, [0, 255, 0, 255]);
    let t4 = solid(32, 32, [0, 0, 255, 255]);

    let mut output = Texture::with_details(64, 64).unwrap();

    output.copy_pixels(&t1, 0, 0);
    output.copy_pixels(&t2, 32, 0);
    output.copy_pixels(&t3, 32, 32);
    output.copy_pixels(&t4, 0, 32);

    for y in 0..64u32 {
        for x in 0..64u32 {
            let expected = match (x < 32, y < 32) {
                (true, true) => [255, 255, 255, 255],
                (false, true) => [255, 0, 0, 255],
                (false, false) => [0, 255, 0, 255],
                (true, false) => [0, 0, 255, 255],
            };
            assert_eq!(output.buffer.get_pixel(x, y), expected);
        }
    }
}

#[test]
fn texture_copy_pixels_rot_90cw() {
    let t1 = solid(32, 16, [255, 255, 255, 255]);

    let mut output = Texture::with_details(64, 64).unwrap();

    output.copy_pixels_rot_90cw(&t1, 0, 0);
    output.copy_pixels_rot_90cw(&t1, 32, 0);

    // each turned copy is 16 wide and 32 tall
    for y in 0..64u32 {
        for x in 0..64u32 {
            let covered = y < 32 && (x < 16 || (32 <= x && x < 48));
            let expected = if covered { [255, 255, 255, 255] } else { [0, 0, 0, 0] };
            assert_eq!(output.buffer.get_pixel(x, y), expected);
        }
    }
}

fn with_opaque_box(width: u32, height: u32, x0: u32, y0: u32, x1: u32, y1: u32) -> PixelBuffer {
    let mut px = Vec::new();
    for y in 0..height {
        for x in 0..width {
            if x0 <= x && x <= x1 && y0 <= y && y <= y1 {
                px.push([200, 100, 50, 7]);
            } else {
                px.push([200, 100, 50, 0]);
            }
        }
    }
    PixelBuffer::from_pixels(width, height, px).unwrap()
}

#[test]
fn opaque_bounds_of_images() {
    assert_eq!(find_opaque_bounds(&with_opaque_box(10, 8, 2, 3, 5, 6)), Some((2, 3, 5, 6)));
    assert_eq!(find_opaque_bounds(&with_opaque_box(4, 4, 0, 0, 3, 3)), Some((0, 0, 3, 3)));
    assert_eq!(find_opaque_bounds(&PixelBuffer::new(5, 5)), None);
}

#[test]
fn trim_cuts_the_transparent_border() {
    let img = with_opaque_box(10, 8, 2, 3, 5, 6);
    let mut t = Texture::new();
    let out = t.trim(&img);
    assert_eq!(out.dimensions(), (4, 4));
    assert_eq!(out.get_pixel(0, 0), [200, 100, 50, 7]);
    assert_eq!((t.width, t.height), (4, 4));
    assert_eq!((t.frame_x, t.frame_y, t.frame_w, t.frame_h), (-2, -3, 10, 8));
}

#[test]
fn trim_of_an_empty_image_is_one_clear_pixel() {
    let mut t = Texture::new();
    let out = t.trim(&PixelBuffer::new(6, 3));
    assert_eq!(out.dimensions(), (1, 1));
    assert_eq!(out.get_pixel(0, 0), [0, 0, 0, 0]);
    assert_eq!((t.width, t.height), (0, 0));
}

#[test]
fn load_decoded_records_size_and_trims() {
    let mut t = Texture::new();
    t.load_decoded(
        String::from("data/sprite.png"),
        Some(String::from("sprite.png")),
        with_opaque_box(10, 8, 2, 3, 5, 6),
        true,
    );
    assert_eq!(t.file_path, "data/sprite.png");
    assert_eq!(t.file_name, "sprite.png");
    assert_eq!((t.width, t.height), (4, 4));
    assert_eq!((t.frame_x, t.frame_y, t.frame_w, t.frame_h), (-2, -3, 10, 8));
    assert_eq!(t.buffer.dimensions(), (4, 4));

    let mut u = Texture::new();
    u.load_decoded(String::from("p"), None, patterned(7, 5), false);
    assert_eq!(u.file_name, "");
    assert_eq!((u.width, u.height, u.frame_x, u.frame_y, u.frame_w, u.frame_h), (7, 5, 0, 0, 7, 5));
    assert_eq!(u.buffer.get_pixel(6, 4), [6, 4, 10, 255]);
}

#[test]
fn exceeds_counts_padding() {
    let t = Texture::with_details(60, 10).unwrap();
    assert!(!t.exceeds(4, 64));
    assert!(t.exceeds(5, 64));
    let u = Texture::with_details(10, 64).unwrap();
    assert!(u.exceeds(1, 64));
}

#[test]
fn hash_follows_pixels() {
    let mut a = Texture::with_details(4, 4).unwrap();
    a.buffer = patterned(4, 4);
    a.update_hash();
    let mut b = a.duplicate();
    b.update_hash();
    assert_eq!(a.hash_value, b.hash_value);
    b.buffer.put_pixel(1, 1, [0, 0, 0, 0]);
    b.update_hash();
    assert_ne!(a.hash_value, b.hash_value);
}

#[test]
fn pixel_buffer_crop_and_raw() {
    let img = patterned(5, 4);
    let c = img.crop(1, 2, 3, 2);
    assert_eq!(c.dimensions(), (3, 2));
    assert_eq!(c.get_pixel(0, 0), img.get_pixel(1, 2));
    assert_eq!(c.get_pixel(2, 1), img.get_pixel(3, 3));
    assert!(PixelBuffer::from_pixels(2, 2, vec![[0, 0, 0, 0]; 3]).is_none());
    assert_eq!(c.into_pixels().len(), 6);
}

#[test]
fn resize_to_fits_the_box_and_records_it() {
    let mut t = Texture::new();
    t.load_decoded(String::from("p"), None, patterned(8, 8), false);
    let before = t.buffer.clone();

    let mut same = t.clone();
    same.resize_to(8, 8);
    assert_eq!(same.buffer.pixels(), before.pixels());
    assert_eq!((same.width, same.height, same.frame_w, same.frame_h), (8, 8, 8, 8));

    let mut half = t.clone();
    half.resize_to(4, 4);
    assert_eq!(half.buffer.dimensions(), (4, 4));
    assert_eq!((half.width, half.height, half.frame_x, half.frame_y), (4, 4, 0, 0));

    // the aspect ratio is kept: a square image fits a 2 x 6 box as 2 x 2,
    // while the texture records the box
    let mut boxed = t.clone();
    boxed.resize_to(2, 6);
    assert_eq!(boxed.buffer.dimensions(), (2, 2));
    assert_eq!((boxed.width, boxed.height, boxed.frame_w, boxed.frame_h), (2, 6, 2, 6));
}

fn png_bytes(width: u32, height: u32) -> Vec<u8> {
    let mut raw = Vec::new();
    for y in 0..height {
        for x in 0..width {
            raw.extend_from_slice(&[x as u8, y as u8, 7, if x == 0 { 0 } else { 255 }]);
        }
    }
    let img = image::RgbaImage::from_raw(width, height, raw).unwrap();
    let mut out = std::io::Cursor::new(Vec::new());
    img.write_to(&mut out, image::ImageFormat::Png).unwrap();
    out.into_inner()
}

#[test]
fn load_bytes_decodes_by_extension() {
    let bytes = png_bytes(5, 3);
    let mut t = Texture::new();
    assert!(t
        .load_bytes(String::from("dir/a.png"), Some(String::from("a.png")), &bytes, "png", false)
        .is_ok());
    assert_eq!(t.file_path, "dir/a.png");
    assert_eq!(t.file_name, "a.png");
    assert_eq!((t.width, t.height, t.frame_w, t.frame_h), (5, 3, 5, 3));
    assert_eq!(t.buffer.get_pixel(4, 2), [4, 2, 7, 255]);

    // upper-case extensions name the same format
    let mut u = Texture::new();
    assert!(u.load_bytes(String::from("b.PNG"), None, &bytes, "PNG", true).is_ok());
    // the first column is transparent and is trimmed off
    assert_eq!((u.width, u.height, u.frame_x, u.frame_w), (4, 3, -1, 5));
}

#[test]
fn load_bytes_refuses_what_does_not_decode() {
    let mut t = Texture::new();
    assert_eq!(
        t.load_bytes(String::from("x.png"), None, &vec![1, 2, 3], "png", false),
        Err(TextureError::Undecodable)
    );
    assert_eq!(t.width, 0);
    let bytes = png_bytes(2, 2);
    assert_eq!(
        t.load_bytes(String::from("x.txt"), None, &bytes, "txt", false),
        Err(TextureError::Undecodable)
    );
    assert_eq!(
        t.load_bytes(String::from("x"), None, &bytes, "", false),
        Err(TextureError::Undecodable)
    );
}

#[test]
fn hash_depends_on_size_and_pixels_only() {
    let mut a = Texture::new();
    a.load_decoded(String::from("one/a.png"), Some(String::from("a.png")), patterned(6, 4), false);
    a.update_hash();
    let mut b = Texture::new();
    b.load_decoded(String::from("two/b.png"), Some(String::from("b.png")), patterned(6, 4), false);
    b.update_hash();
    assert_eq!(a.hash_value, b.hash_value);

    // same pixel bytes, other shape
    let mut c = Texture::new();
    let px = a.buffer.pixels().clone();
    c.load_decoded(String::from("c.png"), None, PixelBuffer::from_pixels(4, 6, px).unwrap(), false);
    c.update_hash();
    assert_ne!(a.hash_value, c.hash_value);
}
