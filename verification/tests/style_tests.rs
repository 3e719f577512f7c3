use blitz_py::error::RenderError;
use blitz_py::style::{check_property_name, upsert_style};

#[test]
fn upsert_into_empty_style() {
    assert_eq!(upsert_style("", "width", "62%"), "width: 62%");
}

#[test]
fn upsert_replaces_existing_declaration() {
    assert_eq!(upsert_style("color: red; width: 10px", "width", "62%"), "color: red; width: 62%");
}

#[test]
fn upsert_matches_property_ignoring_case() {
    assert_eq!(upsert_style("WIDTH : 1px;color:red", "width", "2px"), "color:red; width: 2px");
}

#[test]
fn upsert_keeps_semicolons_inside_parentheses() {
    assert_eq!(
        upsert_style("background: url(data:image/png;base64,AAA); width: 1px", "width", "5px"),
        "background: url(data:image/png;base64,AAA); width: 5px"
    );
}

#[test]
fn upsert_drops_blank_declarations() {
    assert_eq!(upsert_style(" ; ;color: red;", "top", "0"), "color: red; top: 0");
}

#[test]
fn upsert_keeps_text_of_other_declarations() {
    // the space after each `;` stays with the declaration that follows it
    assert_eq!(upsert_style("a: 1; b: 2", "c", "v"), "a: 1;  b: 2; c: v");
}

#[test]
fn upsert_unbalanced_close_paren_saturates() {
    assert_eq!(upsert_style("a: x); b: 1", "b", "2"), "a: x); b: 2");
}

#[test]
fn upsert_result_declares_name_once_and_last() {
    let s = upsert_style("width: 1px; color: red; Width: 3px", "width", "9px");
    assert_eq!(s, " color: red; width: 9px");
    assert_eq!(s.matches("width").count(), 1);
    assert!(s.ends_with("width: 9px"));
}

#[test]
fn property_name_check() {
    assert_eq!(check_property_name("background-color"), Ok(()));
    assert_eq!(check_property_name(""), Err(RenderError::CssProperty(String::new())));
    assert_eq!(check_property_name("width;x"), Err(RenderError::CssProperty("width;x".to_string())));
}

#[test]
fn upsert_after_unclosed_declaration_that_is_dropped() {
    assert_eq!(upsert_style("width: f(x", "width", "1px"), "width: 1px");
}

#[test]
fn upsert_after_unclosed_declaration_that_is_kept() {
    // the open parenthesis swallows the separator: the edit is read as part of it
    assert_eq!(upsert_style("a: f(x", "width", "1px"), "a: f(x; width: 1px");
}

#[test]
fn upsert_value_with_parentheses() {
    assert_eq!(upsert_style("color: red", "color", "rgb(1, 2, 3)"), "color: rgb(1, 2, 3)");
}
