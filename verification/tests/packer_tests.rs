use flow_texpack::atlas::{pack_atlases, PackingError};
use flow_texpack::options::{AtlasSize, RectHeuristic};
use flow_texpack::packer::{Packer, PackerError, Point};
use flow_texpack::pixels::PixelBuffer;
use flow_texpack::rectpack::PlacedRect;
use flow_texpack::sorting::sort_textures;
use flow_texpack::texture::Texture;

fn solid_texture(name: &str, width: u32, height: u32, rgba: [u8; 4]) -> Texture {
    let mut t = Texture::with_details(width, height).unwrap();
    t.file_name = String::from(name);
    t.buffer = PixelBuffer::from_pixels(width, height, vec![rgba; (width * height) as usize]).unwrap();
    t.frame_w = width;
    t.frame_h = height;
    t.update_hash();
    t
}

fn overlaps(a: (i32, i32, i32, i32), b: (i32, i32, i32, i32)) -> bool {
    a.0 < b.0 + b.2 && b.0 < a.0 + a.2 && a.1 < b.1 + b.3 && b.1 < a.1 + a.3
}

#[test]
fn point_basics() {
    let p = Point::new();

    assert_eq!(p.x, 0);
    assert_eq!(p.y, 0);
    assert_eq!(p.duplicate_id, 0);
    assert_eq!(p.rotate, false);
}

#[test]
fn placed_point_detects_turning() {
    let turned = PlacedRect { x: 3, y: 4, width: 33, height: 65 };
    let p = Point::placed(turned, 64, 1, true);
    assert_eq!((p.x, p.y, p.duplicate_id, p.rotate), (3, 4, usize::MAX, true));
    assert!(!Point::placed(turned, 64, 1, false).rotate);
    let upright = PlacedRect { x: 0, y: 7, width: 65, height: 33 };
    assert!(!Point::placed(upright, 64, 1, true).rotate);
}

#[test]
fn packer_error() {
    assert_eq!(Packer::new(0, 0, 1, false).unwrap_err(), PackerError::InvalidArg);

    assert_eq!(Packer::new(32, 32, 1, false).unwrap_err(), PackerError::InvalidArg);

    assert_eq!(Packer::new(8192, 8193, 1, false).unwrap_err(), PackerError::InvalidArg);

    assert_eq!(Packer::new(32, 64, 1, false).unwrap_err(), PackerError::InvalidArg);

    assert_eq!(Packer::new(64, 32, 1, false).unwrap_err(), PackerError::InvalidArg);
}

#[test]
fn packer_accepts_every_power_of_two_side() {
    for side in [64u32, 128, 256, 512, 1024, 2048, 4096, 8192] {
        let p = Packer::new(side, side, 2, true).unwrap();
        assert_eq!(p.state.width, side);
        assert_eq!(p.state.height, side);
        assert_eq!(p.state.padding, 2);
        assert!(p.state.generate_mipmaps);
        assert!(p.state.textures.is_empty());
        assert!(p.state.points.is_empty());
    }
    assert!(Packer::new(96, 64, 0, false).is_err());
    assert!(Packer::new(64, 16384, 0, false).is_err());
}

fn four_squares() -> Vec<Texture> {
    vec![
        solid_texture("white_32x32.png", 32, 32, [255, 255, 255, 255]),
        solid_texture("red_32x32.png", 32, 32, [255, 0, 0, 255]),
        solid_texture("green_32x32.png", 32, 32, [0, 255, 0, 255]),
        solid_texture("blue_32x32.png", 32, 32, [0, 0, 255, 255]),
    ]
}

fn check_layout(p: &Packer) {
    let s = &p.state;
    let mut rects = Vec::new();
    for (t, pt) in s.textures.iter().zip(s.points.iter()) {
        let (w, h) = if pt.rotate { (t.height, t.width) } else { (t.width, t.height) };
        assert!(pt.x >= 0 && pt.y >= 0);
        assert!(pt.x as u32 + w <= s.width);
        assert!(pt.y as u32 + h <= s.height);
        rects.push((pt.x, pt.y, w as i32, h as i32));
    }
    for i in 0..rects.len() {
        for j in 0..i {
            assert!(!overlaps(rects[i], rects[j]));
        }
    }
}

#[test]
fn pack_four_squares_fill_the_atlas() {
    for heuristic in [
        RectHeuristic::ShortSideFit,
        RectHeuristic::LongSideFit,
        RectHeuristic::AreaFit,
        RectHeuristic::BottomLeft,
        RectHeuristic::ContactPoint,
    ] {
        let mut textures = four_squares();
        let mut packer = Packer::new(64, 64, 0, true).unwrap();
        packer.pack(&mut textures, true, false, false, false, heuristic);
        assert_eq!(textures.len(), 0);
        assert_eq!(packer.state.textures.len(), 4);
        assert_eq!(packer.state.points.len(), 4);
        // taken from the end of the list
        assert_eq!(packer.state.textures[0].file_name, "blue_32x32.png");
        assert_eq!(packer.state.textures[3].file_name, "white_32x32.png");
        assert_eq!(packer.state.width, 64);
        assert_eq!(packer.state.height, 64);
        check_layout(&packer);
    }
}

#[test]
fn pack_leaves_what_does_not_fit() {
    let mut textures = four_squares();
    textures.push(solid_texture("extra_32x32.png", 32, 32, [1, 2, 3, 255]));
    let mut packer = Packer::new(64, 64, 0, false).unwrap();
    packer.pack(&mut textures, false, false, true, false, RectHeuristic::LongSideFit);
    assert_eq!(packer.state.textures.len(), 4);
    assert_eq!(textures.len(), 1);
    assert_eq!(textures[0].file_name, "white_32x32.png");
    check_layout(&packer);
}

#[test]
fn pack_unique_repeats_duplicate_point() {
    let mut textures = vec![
        solid_texture("a.png", 32, 32, [9, 9, 9, 255]),
        solid_texture("b.png", 32, 32, [9, 9, 9, 255]),
    ];
    assert_eq!(textures[0].hash_value, textures[1].hash_value);
    let mut packer = Packer::new(64, 64, 1, false).unwrap();
    packer.pack(&mut textures, true, false, true, false, RectHeuristic::LongSideFit);
    assert!(textures.is_empty());
    let pts = &packer.state.points;
    assert_eq!(pts.len(), 2);
    assert_eq!(pts[0].duplicate_id, usize::MAX);
    assert_eq!(pts[1].duplicate_id, 0);
    assert_eq!((pts[1].x, pts[1].y, pts[1].rotate), (pts[0].x, pts[0].y, pts[0].rotate));
}

#[test]
fn pack_without_unique_places_twins_apart() {
    let mut textures = vec![
        solid_texture("a.png", 32, 32, [9, 9, 9, 255]),
        solid_texture("b.png", 32, 32, [9, 9, 9, 255]),
    ];
    let mut packer = Packer::new(64, 64, 0, false).unwrap();
    packer.pack(&mut textures, false, false, true, false, RectHeuristic::LongSideFit);
    let pts = &packer.state.points;
    assert_eq!(pts.len(), 2);
    assert_eq!(pts[0].duplicate_id, usize::MAX);
    assert_eq!(pts[1].duplicate_id, usize::MAX);
    assert!((pts[0].x, pts[0].y) != (pts[1].x, pts[1].y));
    check_layout(&packer);
}

#[test]
fn pack_rotates_when_needed() {
    let mut textures = vec![solid_texture("tall.png", 32, 128, [5, 5, 5, 255])];
    let mut packer = Packer::new(128, 64, 0, false).unwrap();
    packer.pack(&mut textures, false, true, true, false, RectHeuristic::LongSideFit);
    assert!(textures.is_empty());
    assert!(packer.state.points[0].rotate);
    check_layout(&packer);

    let mut textures = vec![solid_texture("tall.png", 32, 128, [5, 5, 5, 255])];
    let mut packer = Packer::new(128, 64, 0, false).unwrap();
    packer.pack(&mut textures, false, false, true, false, RectHeuristic::LongSideFit);
    assert_eq!(textures.len(), 1);
    assert!(packer.state.points.is_empty());
}

#[test]
fn pack_adjust_size_grows_the_atlas() {
    let mut textures = vec![solid_texture("white_128x128.png", 128, 128, [255, 255, 255, 255])];
    let mut packer = Packer::new(64, 64, 0, false).unwrap();
    packer.pack(&mut textures, false, false, false, true, RectHeuristic::LongSideFit);
    assert!(textures.is_empty());
    assert_eq!(packer.state.width, 128);
    assert_eq!(packer.state.height, 128);
    check_layout(&packer);
}

#[test]
fn pack_shrinks_to_the_used_size() {
    let mut textures = vec![solid_texture("white_32x32.png", 32, 32, [255, 255, 255, 255])];
    let mut packer = Packer::new(1024, 1024, 0, false).unwrap();
    packer.pack(&mut textures, false, false, false, false, RectHeuristic::LongSideFit);
    assert_eq!(packer.state.width, 32);
    assert_eq!(packer.state.height, 32);

    let mut textures = vec![solid_texture("white_32x32.png", 32, 32, [255, 255, 255, 255])];
    let mut packer = Packer::new(1024, 1024, 1, false).unwrap();
    packer.pack(&mut textures, false, false, false, false, RectHeuristic::LongSideFit);
    assert_eq!(packer.state.width, 64);
    assert_eq!(packer.state.height, 64);

    let mut textures = vec![solid_texture("white_32x32.png", 32, 32, [255, 255, 255, 255])];
    let mut packer = Packer::new(1024, 1024, 0, false).unwrap();
    packer.pack(&mut textures, false, false, true, false, RectHeuristic::LongSideFit);
    assert_eq!(packer.state.width, 1024);
    assert_eq!(packer.state.height, 1024);
}

#[test]
fn exists_larger_texture_counts_padding() {
    let packer = Packer::new(64, 64, 1, false).unwrap();
    let fits = vec![solid_texture("a.png", 63, 63, [1, 1, 1, 255])];
    let too_wide = vec![solid_texture("a.png", 64, 10, [1, 1, 1, 255])];
    assert!(!packer.exists_larger_texture(&fits));
    assert!(packer.exists_larger_texture(&too_wide));
}

#[test]
fn adjust_size_to_fit_doubles_each_side_as_needed() {
    let mut packer = Packer::new(64, 64, 1, false).unwrap();
    let textures = vec![solid_texture("a.png", 100, 20, [1, 1, 1, 255])];
    assert!(packer.adjust_size_to_fit(&textures));
    assert_eq!(packer.state.width, 128);
    assert_eq!(packer.state.height, 128);

    let mut packer = Packer::new(64, 64, 0, false).unwrap();
    let textures = vec![
        solid_texture("a.png", 20, 300, [1, 1, 1, 255]),
        solid_texture("b.png", 64, 64, [1, 1, 1, 255]),
    ];
    assert!(packer.adjust_size_to_fit(&textures));
    // the height doubles until the tall texture fits; the width follows
    assert_eq!(packer.state.width, 512);
    assert_eq!(packer.state.height, 512);

    let mut packer = Packer::new(64, 64, 0, false).unwrap();
    let textures = vec![solid_texture("a.png", 300, 10, [1, 1, 1, 255])];
    assert!(packer.adjust_size_to_fit(&textures));
    assert_eq!(packer.state.width, 512);
    assert_eq!(packer.state.height, 512);

    // a grown atlas is square
    let mut packer = Packer::new(256, 64, 0, false).unwrap();
    let textures = vec![solid_texture("a.png", 10, 100, [1, 1, 1, 255])];
    assert!(packer.adjust_size_to_fit(&textures));
    assert_eq!(packer.state.width, 128);
    assert_eq!(packer.state.height, 128);

    let mut packer = Packer::new(64, 256, 0, false).unwrap();
    let textures = vec![solid_texture("a.png", 100, 10, [1, 1, 1, 255])];
    assert!(packer.adjust_size_to_fit(&textures));
    assert_eq!(packer.state.width, 128);
    assert_eq!(packer.state.height, 128);

    // squaring would leave the earlier tall texture too large: it grows on
    let mut packer = Packer::new(64, 256, 0, false).unwrap();
    let textures = vec![
        solid_texture("tall.png", 10, 200, [1, 1, 1, 255]),
        solid_texture("wide.png", 100, 10, [1, 1, 1, 255]),
    ];
    assert!(packer.adjust_size_to_fit(&textures));
    assert_eq!(packer.state.width, 256);
    assert_eq!(packer.state.height, 256);

    // a non-square atlas that fits stays as it is
    let mut packer = Packer::new(64, 256, 0, false).unwrap();
    let textures = vec![solid_texture("a.png", 60, 200, [1, 1, 1, 255])];
    assert!(!packer.adjust_size_to_fit(&textures));
    assert_eq!((packer.state.width, packer.state.height), (64, 256));

    let mut packer = Packer::new(64, 64, 4, false).unwrap();
    let textures = vec![solid_texture("a.png", 60, 60, [1, 1, 1, 255])];
    assert!(!packer.adjust_size_to_fit(&textures));
    assert_eq!(packer.state.width, 64);
}

#[test]
fn pack_atlases_packs_everything() {
    let mut textures = Vec::new();
    for i in 0..6u8 {
        textures.push(solid_texture(&format!("t{}.png", i), 32, 32, [i, 0, 0, 255]));
    }
    let packers = pack_atlases(
        &mut textures,
        AtlasSize::Pot64,
        0,
        false,
        false,
        false,
        false,
        false,
        RectHeuristic::LongSideFit,
        64,
    )
    .unwrap();
    assert!(textures.is_empty());
    assert_eq!(packers.len(), 2);
    assert_eq!(packers[0].state.textures.len(), 4);
    assert_eq!(packers[1].state.textures.len(), 2);
    assert_eq!(packers[0].state.textures[0].file_name, "t5.png");
    assert_eq!(packers[1].state.textures[1].file_name, "t0.png");
    for p in &packers {
        check_layout(p);
    }
}

#[test]
fn pack_atlases_too_many_atlases() {
    let mut textures = Vec::new();
    for i in 0..5u8 {
        textures.push(solid_texture(&format!("t{}.png", i), 32, 32, [i, 0, 0, 255]));
    }
    let r = pack_atlases(
        &mut textures,
        AtlasSize::Pot64,
        0,
        false,
        false,
        false,
        true,
        false,
        RectHeuristic::LongSideFit,
        1,
    );
    assert!(matches!(r, Err(PackingError::TooManyAtlases)));
}

#[test]
fn pack_atlases_texture_does_not_fit() {
    let mut textures = vec![
        solid_texture("small.png", 16, 16, [1, 0, 0, 255]),
        solid_texture("huge.png", 128, 128, [1, 0, 0, 255]),
    ];
    let r = pack_atlases(
        &mut textures,
        AtlasSize::Pot64,
        1,
        false,
        false,
        false,
        false,
        false,
        RectHeuristic::LongSideFit,
        64,
    );
    match r {
        Err(PackingError::TextureDoesNotFit(name)) => assert_eq!(name, "huge.png"),
        _ => panic!("expected TextureDoesNotFit"),
    }
}

#[test]
fn pack_atlases_adjust_size_takes_large_textures() {
    let mut textures = vec![solid_texture("huge.png", 128, 128, [1, 0, 0, 255])];
    let packers = pack_atlases(
        &mut textures,
        AtlasSize::Pot64,
        0,
        false,
        false,
        false,
        false,
        true,
        RectHeuristic::LongSideFit,
        64,
    )
    .unwrap();
    assert_eq!(packers.len(), 1);
    assert_eq!(packers[0].state.width, 128);
}

#[test]
fn sort_textures_is_stable_by_area() {
    let mut textures = vec![
        solid_texture("big.png", 32, 32, [1, 0, 0, 255]),
        solid_texture("wide.png", 32, 8, [1, 0, 0, 255]),
        solid_texture("small.png", 4, 4, [1, 0, 0, 255]),
        solid_texture("tall.png", 8, 32, [1, 0, 0, 255]),
        solid_texture("mid.png", 16, 16, [1, 0, 0, 255]),
    ];
    sort_textures(&mut textures);
    let names: Vec<&str> = textures.iter().map(|t| t.file_name.as_str()).collect();
    assert_eq!(names, vec!["small.png", "wide.png", "tall.png", "mid.png", "big.png"]);

    let mut empty: Vec<Texture> = Vec::new();
    sort_textures(&mut empty);
    assert!(empty.is_empty());
}

#[test]
fn render_draws_each_texture_at_its_point() {
    let mut textures = vec![
        solid_texture("red.png", 16, 8, [255, 0, 0, 255]),
        solid_texture("green.png", 32, 32, [0, 255, 0, 255]),
    ];
    let mut packer = Packer::new(64, 64, 2, false).unwrap();
    packer.pack(&mut textures, false, false, true, false, RectHeuristic::BottomLeft);
    assert!(textures.is_empty());
    let atlas = packer.render();
    assert_eq!((atlas.width, atlas.height), (64, 64));
    assert_eq!(atlas.buffer.dimensions(), (64, 64));
    for (t, p) in packer.state.textures.iter().zip(packer.state.points.iter()) {
        let colour = t.buffer.get_pixel(0, 0);
        for y in 0..t.height {
            for x in 0..t.width {
                assert_eq!(atlas.buffer.get_pixel(p.x as u32 + x, p.y as u32 + y), colour);
            }
        }
    }
    assert_eq!(atlas.buffer.get_pixel(63, 63), [0, 0, 0, 0]);
}

#[test]
fn render_turns_rotated_textures() {
    let mut src = solid_texture("tall.png", 2, 64, [0, 0, 0, 255]);
    src.buffer.put_pixel(0, 0, [1, 2, 3, 255]);
    src.update_hash();
    let mut textures = vec![src];
    let mut packer = Packer::new(64, 64, 0, true).unwrap();
    packer.pack(&mut textures, false, true, true, false, RectHeuristic::LongSideFit);
    let p = packer.state.points[0];
    let atlas = packer.render();
    if p.rotate {
        // source (0, 0) lands at (height - 1, 0) of the turned copy
        assert_eq!(atlas.buffer.get_pixel(p.x as u32 + 63, p.y as u32), [1, 2, 3, 255]);
    } else {
        assert_eq!(atlas.buffer.get_pixel(p.x as u32, p.y as u32), [1, 2, 3, 255]);
    }
}

fn load_textures() -> Vec<Texture> {
    four_squares()
}

fn pack_basics(heuristic: RectHeuristic) {
    let mut textures = load_textures();
    assert_eq!(textures.len(), 4);

    let mut packer = Packer::new(64, 64, 0, true).unwrap();
    packer.pack(&mut textures, true, false, false, false, heuristic);
    assert_eq!(textures.len() == 0, true);

    assert!(packer.can_render());
    let output = packer.render();
    assert_eq!(output.width, 64);
    assert_eq!(output.height, 64);
}

#[test]
fn packer_basics_short_side_fit() {
    pack_basics(RectHeuristic::ShortSideFit);
}

#[test]
fn packer_basics_long_side_fit() {
    pack_basics(RectHeuristic::LongSideFit);
}

#[test]
fn packer_basics_area_fit() {
    pack_basics(RectHeuristic::AreaFit);
}

#[test]
fn packer_basics_bottom_left() {
    pack_basics(RectHeuristic::BottomLeft);
}

#[test]
fn packer_basics_contact_point() {
    pack_basics(RectHeuristic::ContactPoint);
}

#[test]
fn packer_trim() {
    // a 128x128 image, transparent but for a 32x32 blue block
    let mut px = vec![[0u8, 0, 0, 0]; 128 * 128];
    for y in 40..72usize {
        for x in 50..82usize {
            px[y * 128 + x] = [0, 0, 255, 255];
        }
    }
    let mut t1 = Texture::new();
    t1.load_decoded(
        String::from("test_data/blue_trimmable_128x128.png"),
        Some(String::from("blue_trimmable_128x128.png")),
        PixelBuffer::from_pixels(128, 128, px).unwrap(),
        true,
    );
    t1.update_hash();
    let mut textures = vec![t1];

    let mut packer = Packer::new(128, 128, 0, true).unwrap();
    packer.pack(&mut textures, true, false, false, false, RectHeuristic::BottomLeft);
    assert_eq!(textures.len() == 0, true);

    assert!(packer.can_render());
    let output = packer.render();
    assert_eq!(output.width, 32);
    assert_eq!(output.height, 32);
    assert_eq!(output.buffer.get_pixel(31, 31), [0, 0, 255, 255]);
}

#[test]
fn packer_rotated() {
    let mut textures = vec![solid_texture("white_128x64.png", 128, 64, [255, 255, 255, 255])];
    assert_eq!(textures.len(), 1);

    let mut packer = Packer::new(64, 128, 0, true).unwrap();
    packer.pack(&mut textures, true, true, false, false, RectHeuristic::LongSideFit);
    assert_eq!(textures.len() == 0, true);

    assert!(packer.can_render());
    let output = packer.render();
    assert_eq!(output.width, 64);
    assert_eq!(output.height, 128);
}
