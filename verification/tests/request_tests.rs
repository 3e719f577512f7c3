use blitz_py::color::{ColorScheme, Rgba8};
use blitz_py::error::RenderError;
use blitz_py::request::prepare_request;

#[test]
fn request_ok() {
    let p = prepare_request(240, Some(240), true, 240, 240, "dark", Some("#000"), "<b>x</b>", None, None).unwrap();
    assert_eq!(p.color_scheme, ColorScheme::Dark);
    assert_eq!(p.background, Some(Rgba8 { r: 0, g: 0, b: 0, a: 255 }));
    assert_eq!(p.html, "<b>x</b>");
}

#[test]
fn request_transparent() {
    let p = prepare_request(10, None, true, 10, 1, "light", None, "", Some("p{}"), None).unwrap();
    assert_eq!(p.background, None);
    assert_eq!(p.html, "<style>p{}\n</style>");
}

#[test]
fn request_checks_run_in_order() {
    assert_eq!(
        prepare_request(0, Some(1), true, 0, 1, "blue", Some("nope"), "", None, None).err(),
        Some(RenderError::ZeroSize)
    );
    assert_eq!(
        prepare_request(1, Some(1), true, 1, 1, "blue", Some("nope"), "", None, None).err(),
        Some(RenderError::ColorScheme("blue".to_string()))
    );
    assert_eq!(
        prepare_request(1, Some(1), true, 1, 1, "light", Some("nope"), "", None, None).err(),
        Some(RenderError::BackgroundFormat("nope".to_string()))
    );
    assert_eq!(
        prepare_request(1, Some(1), true, 1, 1, "light", Some("#fff"), "", None, Some(vec![("a b".to_string(), "1".to_string())])).err(),
        Some(RenderError::CssVariableName("a b".to_string()))
    );
}
