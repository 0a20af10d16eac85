use flow_texpack::atlas::pack_atlases;
use flow_texpack::descriptor::{push_decimal, push_flag, push_signed_decimal};
use flow_texpack::document::{
    atlas_file_name, atlas_json, atlas_txt, last_path_component, write_txt_header, GENERATOR,
};
use flow_texpack::options::{
    extension_names_image_type, get_atlas_image_extension, get_load_filter_extension, is_listed_extension, load_extensions,
    AtlasImage, AtlasSize, LoadFilter, RectHeuristic,
};
use flow_texpack::packer::Packer;
use flow_texpack::pixels::PixelBuffer;
use flow_texpack::sorting::sort_textures;
use flow_texpack::texture::Texture;

fn white(name: &str, width: u32, height: u32) -> Texture {
    let mut t = Texture::new();
    t.load_decoded(
        format!("test_data/{}", name),
        Some(String::from(name)),
        PixelBuffer::from_pixels(width, height, vec![[255, 255, 255, 255]; (width * height) as usize])
            .unwrap(),
        false,
    );
    t.update_hash();
    t
}

fn two_white_textures_packed() -> Vec<Packer> {
    let mut textures = vec![white("white_32x16.png", 32, 16), white("white_32x32.png", 32, 32)];
    sort_textures(&mut textures);
    pack_atlases(
        &mut textures,
        AtlasSize::Pot64,
        4,
        true,
        false,
        false,
        false,
        false,
        RectHeuristic::LongSideFit,
        64,
    )
    .unwrap()
}

#[test]
fn decimals() {
    let mut s = String::new();
    push_decimal(&mut s, 0);
    s.push(' ');
    push_decimal(&mut s, 1234567890);
    s.push(' ');
    push_decimal(&mut s, u64::MAX);
    s.push(' ');
    push_signed_decimal(&mut s, -42);
    s.push(' ');
    push_signed_decimal(&mut s, i64::MIN);
    s.push(' ');
    push_flag(&mut s, true);
    push_flag(&mut s, false);
    assert_eq!(s, "0 1234567890 18446744073709551615 -42 -9223372036854775808 10");
}

#[test]
fn path_components() {
    assert_eq!(last_path_component("test_data/out/atlas"), "atlas");
    assert_eq!(last_path_component("atlas"), "atlas");
    assert_eq!(last_path_component("out/"), "");
    assert_eq!(last_path_component(""), "");
    assert_eq!(atlas_file_name("test_data/out/atlas", 0), "atlas0");
    assert_eq!(atlas_file_name("dir/sheet", 17), "sheet17");
    assert_eq!(atlas_file_name("out/", 3), "3");
}

#[test]
fn extensions() {
    assert_eq!(get_atlas_image_extension(AtlasImage::Png), "png");
    assert_eq!(get_atlas_image_extension(AtlasImage::Tga), "tga");
    assert_eq!(get_atlas_image_extension(AtlasImage::Tiff), "tiff");
    assert_eq!(get_atlas_image_extension(AtlasImage::Webp), "webp");
    assert_eq!(get_load_filter_extension(LoadFilter::Bmp), "bmp");
    assert_eq!(get_load_filter_extension(LoadFilter::Hdr), "hdr");
    assert_eq!(get_load_filter_extension(LoadFilter::Jpg), "jpg");
    assert_eq!(get_load_filter_extension(LoadFilter::Png), "png");
    assert_eq!(get_load_filter_extension(LoadFilter::Tga), "tga");
    assert_eq!(get_load_filter_extension(LoadFilter::Tiff), "tiff");
    assert_eq!(get_load_filter_extension(LoadFilter::Webp), "webp");
}

#[test]
fn load_extension_lists() {
    let all = load_extensions(&None);
    assert_eq!(all, vec!["bmp", "hdr", "jpg", "png", "tga", "tiff", "webp"]);
    let some = load_extensions(&Some(vec![LoadFilter::Tga, LoadFilter::Png, LoadFilter::Tga]));
    assert_eq!(some, vec!["tga", "png"]);
    assert!(is_listed_extension("png", &some));
    assert!(!is_listed_extension("bmp", &some));
    assert!(!is_listed_extension("PNG", &some));
    assert!(load_extensions(&Some(vec![])).is_empty());
}

#[test]
fn json_document_of_two_textures() {
    let packers = two_white_textures_packed();
    assert_eq!(packers.len(), 1);
    let json = atlas_json(&packers, "test_data/out/atlas", "png");
    let expected = [
        "{",
        "\t\"ImageAtlas\":",
        "\t{",
        "\t\t\"info\":",
        "\t\t{",
        "\t\t\t\"numberOfAtlasImages\": 1,",
        "\t\t\t\"generatedWith\": \"https://git.luflow.net/hfsoulz/flow-texpack.git\"",
        "\t\t},",
        "\t\t\"AtlasImage\":",
        "\t\t[",
        "\t\t\t{",
        "\t\t\t\t\"n\": \"atlas0.png\",",
        "\t\t\t\t\"numImages\": 2,",
        "\t\t\t\t\"width\": 64,",
        "\t\t\t\t\"height\": 64,",
        "\t\t\t\t\"generateMipMaps\": 1,",
        "\t\t\t\t\"img\":",
        "\t\t\t\t[",
        "\t\t\t\t\t{",
        "\t\t\t\t\t\t\"n\": \"white_32x32.png\", \"x\": 0, \"y\": 0, \"w\": 32, \"h\": 32, \"trimmed\": 0, \"rotated\": 0, \"fx\": 0, \"fy\": 0, \"fw\": 32, \"fh\": 32",
        "\t\t\t\t\t},",
        "\t\t\t\t\t{",
        "\t\t\t\t\t\t\"n\": \"white_32x16.png\", \"x\": 0, \"y\": 36, \"w\": 32, \"h\": 16, \"trimmed\": 0, \"rotated\": 0, \"fx\": 0, \"fy\": 0, \"fw\": 32, \"fh\": 16",
        "\t\t\t\t\t}",
        "\t\t\t\t]",
        "\t\t\t}",
        "\t\t]",
        "\t}",
        "}",
    ];
    let lines: Vec<&str> = json.lines().collect();
    assert_eq!(lines, expected);
    assert!(json.ends_with("}\n"));
}

#[test]
fn txt_document_of_two_textures() {
    let packers = two_white_textures_packed();
    let txt = atlas_txt(&packers, "test_data/out/atlas", "png", false);
    let lines: Vec<&str> = txt.lines().collect();
    assert_eq!(
        lines,
        [
            "1,https://git.luflow.net/hfsoulz/flow-texpack.git",
            "atlas0.png,2,64,64,1",
            "white_32x32.png,0,0,32,32,0,0,0,0,32,32",
            "white_32x16.png,0,36,32,16,0,0,0,0,32,16",
        ]
    );
}

#[test]
fn txt_document_with_header() {
    let packers = two_white_textures_packed();
    let txt = atlas_txt(&packers, "test_data/out/atlas", "png", true);
    let lines: Vec<&str> = txt.lines().collect();
    let expected = [
        "/*",
        "\t ************************************************",
        "\t * Generated with: https://git.luflow.net/hfsoulz/flow-texpack.git",
        "\t ************************************************",
        "",
        "\t ************************************************",
        "\t * Format description:",
        "\t ************************************************",
        "\t [info]",
        "\t numberOfAtlasImages,generatedWith",
        "",
        "\t [AtlasImage (repeated numberOfAtlasImages)]",
        "\t atlasImageName,numberOfImages,atlasImageWidth,atlasImageHeight,generateMipMaps",
        "",
        "\t [Image (repeated numberOfImages)]",
        "\t name,x,y,w,h,trimmed,rotated,fx,fy,fw,fh (NOTE: fx,fy,fw,fh valid if trimmed==1)",
        "",
        "\t Text format example:",
        "\t [info]",
        "\t [AtlasImage]",
        "\t [Image]",
        "\t [Image]",
        "\t ...",
        "\t [AtlasImage]",
        "\t [Image]",
        "\t [Image]",
        "\t ...",
        "*/@",
        "1,https://git.luflow.net/hfsoulz/flow-texpack.git",
        "atlas0.png,2,64,64,1",
        "white_32x32.png,0,0,32,32,0,0,0,0,32,32",
        "white_32x16.png,0,36,32,16,0,0,0,0,32,16",
    ];
    assert_eq!(lines, expected);

    let mut header = String::from("x");
    write_txt_header(&mut header);
    assert!(header.starts_with("x/*\n"));
    assert!(header.ends_with("*/@\n"));
    assert!(txt.starts_with(&header[1..]));
}

#[test]
fn documents_of_several_atlases() {
    let mut textures = Vec::new();
    for i in 0..5u32 {
        textures.push(white(&format!("w{}.png", i), 64, 64));
    }
    let packers = pack_atlases(
        &mut textures,
        AtlasSize::Pot64,
        0,
        false,
        false,
        false,
        true,
        false,
        RectHeuristic::BottomLeft,
        8,
    )
    .unwrap();
    assert_eq!(packers.len(), 5);
    let json = atlas_json(&packers, "sheet", "webp");
    assert!(json.contains("\"numberOfAtlasImages\": 5,"));
    assert!(json.contains("\"n\": \"sheet4.webp\""));
    assert_eq!(json.matches("\t\t\t},\n\t\t\t{\n").count(), 4);
    let txt = atlas_txt(&packers, "sheet", "webp", false);
    assert!(txt.starts_with(&format!("5,{}\n", GENERATOR)));
    assert!(txt.contains("sheet0.webp,1,64,64,0\nw4.png,0,0,64,64,0,0,0,0,64,64\n"));
    assert_eq!(txt.lines().count(), 11);
}

#[test]
fn save_json_of_a_single_packer() {
    let packers = two_white_textures_packed();
    let mut out = String::from(">");
    packers[0].save_json(&mut out, "atlas0", "png");
    assert!(out.starts_with(">\t\t\t{\n\t\t\t\t\"n\": \"atlas0.png\",\n"));
    assert!(out.ends_with("\n\t\t\t\t]\n\t\t\t}"));
    let mut txt = String::new();
    packers[0].save_txt(&mut txt, "atlas0", "png");
    assert_eq!(
        txt,
        "atlas0.png,2,64,64,1\nwhite_32x32.png,0,0,32,32,0,0,0,0,32,32\nwhite_32x16.png,0,36,32,16,0,0,0,0,32,16\n"
    );
}

#[test]
fn extensions_name_image_types_in_any_case() {
    assert!(extension_names_image_type("png", AtlasImage::Png));
    assert!(extension_names_image_type("PnG", AtlasImage::Png));
    assert!(extension_names_image_type("TIFF", AtlasImage::Tiff));
    assert!(extension_names_image_type("webp", AtlasImage::Webp));
    assert!(!extension_names_image_type("tga", AtlasImage::Png));
    assert!(!extension_names_image_type("pngx", AtlasImage::Png));
    assert!(!extension_names_image_type("", AtlasImage::Tga));
    assert!(!extension_names_image_type("tif", AtlasImage::Tiff));
}
