use blitz_py::color::{parse_background, parse_color_scheme, ColorScheme, Rgba8};
use blitz_py::error::RenderError;

fn rgba(r: u8, g: u8, b: u8, a: u8) -> Rgba8 {
    Rgba8 { r, g, b, a }
}

#[test]
fn color_scheme_light_and_dark() {
    assert_eq!(parse_color_scheme("light"), Ok(ColorScheme::Light));
    assert_eq!(parse_color_scheme("dark"), Ok(ColorScheme::Dark));
}

#[test]
fn color_scheme_other_is_refused_with_the_value() {
    assert_eq!(parse_color_scheme("Light"), Err(RenderError::ColorScheme("Light".to_string())));
    assert_eq!(parse_color_scheme(""), Err(RenderError::ColorScheme(String::new())));
}

#[test]
fn background_none_is_transparent() {
    assert_eq!(parse_background(None), Ok(None));
}

#[test]
fn background_six_digits() {
    assert_eq!(parse_background(Some("#ffffff")), Ok(Some(rgba(255, 255, 255, 255))));
    assert_eq!(parse_background(Some("#102a3B")), Ok(Some(rgba(0x10, 0x2a, 0x3b, 255))));
}

#[test]
fn background_short_form_multiplies_by_17() {
    assert_eq!(parse_background(Some("#abc")), Ok(Some(rgba(0xaa, 0xbb, 0xcc, 255))));
    assert_eq!(parse_background(Some("#abc")), parse_background(Some("#aabbcc")));
    assert_eq!(parse_background(Some("#fff")), Ok(Some(rgba(255, 255, 255, 255))));
}

#[test]
fn background_eight_digits_carry_alpha() {
    assert_eq!(parse_background(Some("#11223344")), Ok(Some(rgba(0x11, 0x22, 0x33, 0x44))));
}

#[test]
fn background_six_digits_equal_opaque_eight() {
    assert_eq!(parse_background(Some("#102030")), parse_background(Some("#102030ff")));
    assert_eq!(parse_background(Some("#10x030")), parse_background(Some("#10x030ff")));
}

#[test]
fn background_hash_is_optional() {
    assert_eq!(parse_background(Some("123456")), parse_background(Some("#123456")));
    assert_eq!(parse_background(Some("000")), Ok(Some(rgba(0, 0, 0, 255))));
}

#[test]
fn background_plus_sign_field_is_refused() {
    assert_eq!(parse_background(Some("#+f+f+f")), Err(RenderError::InvalidColor));
    assert_eq!(parse_background(Some("#+f+f+f+f")), Err(RenderError::InvalidColor));
    assert_eq!(parse_background(Some("#+++")), Err(RenderError::InvalidColor));
}

#[test]
fn background_bad_digit_is_invalid_color() {
    assert_eq!(parse_background(Some("#ggg")), Err(RenderError::InvalidColor));
    assert_eq!(parse_background(Some("#12345g")), Err(RenderError::InvalidColor));
    assert_eq!(parse_background(Some("#-1-1-1")), Err(RenderError::InvalidColor));
}

#[test]
fn background_bad_length_is_format_error() {
    assert_eq!(parse_background(Some("#ffff")), Err(RenderError::BackgroundFormat("#ffff".to_string())));
    assert_eq!(parse_background(Some("##fff")), Err(RenderError::BackgroundFormat("##fff".to_string())));
    assert_eq!(parse_background(Some("")), Err(RenderError::BackgroundFormat(String::new())));
}

#[test]
fn background_non_ascii_is_format_error() {
    assert_eq!(parse_background(Some("#\u{e9}\u{e9}\u{e9}")), Err(RenderError::BackgroundFormat("#\u{e9}\u{e9}\u{e9}".to_string())));
}
