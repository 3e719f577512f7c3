use blitz_py::error::RenderError;
use blitz_py::fonts::{apply_found_family, configure_fonts, default_family_result, install_default_font, set_default_family};
use blitz_py::png_out::encode_png;
use parley::fontique::{Collection, CollectionOptions, GenericFamily};

#[test]
fn png_has_signature() {
    let png = encode_png(&[255, 0, 0, 255, 0, 255, 0, 255], 2, 1).unwrap();
    assert_eq!(&png[..8], &[137, 80, 78, 71, 13, 10, 26, 10]);
    assert!(png.len() > 8);
}

#[test]
fn png_wrong_buffer_size_is_refused() {
    assert_eq!(encode_png(&[1, 2, 3], 1, 1), Err(RenderError::PngEncoding));
    assert_eq!(encode_png(&[], 0, 1), Err(RenderError::PngEncoding));
}

#[test]
fn png_zero_height_is_refused() {
    assert_eq!(encode_png(&[], 1, 0), Err(RenderError::PngEncoding));
}

#[test]
fn png_oversized_image_is_refused() {
    assert_eq!(encode_png(&[0, 0, 0, 0], u32::MAX, u32::MAX), Err(RenderError::PngEncoding));
}

#[test]
fn png_single_pixel_is_accepted() {
    let png = encode_png(&[9, 8, 7, 255], 1, 1).unwrap();
    assert_eq!(&png[12..16], b"IHDR");
    assert_eq!(&png[16..24], &[0, 0, 0, 1, 0, 0, 0, 1]);
    assert_eq!(png[25], 6);
}

fn empty_collection() -> Collection {
    Collection::new(CollectionOptions { shared: false, system_fonts: false, ..Default::default() })
}

#[test]
fn fonts_without_default_family_are_accepted() {
    let mut c = empty_collection();
    assert_eq!(configure_fonts(&mut c, vec![vec![0, 1, 2]], None), Ok(()));
}

#[test]
fn fonts_unknown_default_family_is_refused() {
    let mut c = empty_collection();
    assert_eq!(
        configure_fonts(&mut c, vec![], Some("No Such Family".to_string())),
        Err(RenderError::FontFamily("No Such Family".to_string()))
    );
    assert!(!set_default_family(&mut c, "No Such Family"));
}

#[test]
fn png_round_trip_keeps_size_and_pixels() {
    let pixels: Vec<u8> = (0u8..24).collect();
    let bytes = encode_png(&pixels, 3, 2).unwrap();
    let mut reader = png::Decoder::new(std::io::Cursor::new(&bytes[..])).read_info().unwrap();
    let mut buf = vec![0u8; reader.output_buffer_size().unwrap()];
    let info = reader.next_frame(&mut buf).unwrap();
    assert_eq!((info.width, info.height), (3, 2));
    assert_eq!(info.color_type, png::ColorType::Rgba);
    assert_eq!(info.bit_depth, png::BitDepth::Eight);
    assert_eq!(&buf[..info.buffer_size()], &pixels[..]);
}

#[test]
fn default_family_result_refuses_by_name() {
    assert_eq!(default_family_result("Serif X".to_string(), true), Ok(()));
    assert_eq!(
        default_family_result("Serif X".to_string(), false),
        Err(RenderError::FontFamily("Serif X".to_string()))
    );
}

#[test]
fn nothing_found_changes_nothing() {
    let mut c = empty_collection();
    assert!(!apply_found_family(&mut c, None));
    assert_eq!(c.generic_families(GenericFamily::Serif).count(), 0);
}

#[test]
fn bundled_font_without_fonts_leaves_no_defaults() {
    let mut c = empty_collection();
    install_default_font(&mut c, vec![1, 2, 3, 4], "Inter");
    assert_eq!(c.generic_families(GenericFamily::SansSerif).count(), 0);
    assert_eq!(c.family_id("Inter"), None);
}
