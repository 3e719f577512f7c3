use blitz_py::compose::compose_html;
use blitz_py::error::RenderError;

fn vars(pairs: &[(&str, &str)]) -> Option<Vec<(String, String)>> {
    Some(pairs.iter().map(|(n, v)| (n.to_string(), v.to_string())).collect())
}

#[test]
fn compose_plain_html_is_unchanged() {
    assert_eq!(compose_html("<p>hi</p>", None, None), Ok("<p>hi</p>".to_string()));
}

#[test]
fn compose_css_only() {
    assert_eq!(
        compose_html("<p>hi</p>", Some("p { color: red }"), None),
        Ok("<p>hi</p><style>p { color: red }\n</style>".to_string())
    );
}

#[test]
fn compose_vars_sorted_and_prefixed() {
    assert_eq!(
        compose_html("<div></div>", None, vars(&[("b", "2"), ("--a", "1"), ("accent", "#f00")])),
        Ok("<div></div><style>:root {\n  --a: 1;\n  --accent: #f00;\n  --b: 2;\n}\n</style>".to_string())
    );
}

#[test]
fn compose_css_then_vars() {
    assert_eq!(
        compose_html("x", Some("a{}"), vars(&[("w", "5px")])),
        Ok("x<style>a{}\n:root {\n  --w: 5px;\n}\n</style>".to_string())
    );
}

#[test]
fn compose_empty_vars_still_emit_rule() {
    assert_eq!(compose_html("x", None, vars(&[])), Ok("x<style>:root {\n}\n</style>".to_string()));
}

#[test]
fn compose_order_of_vars_is_irrelevant() {
    let a = compose_html("x", None, vars(&[("one", "1"), ("two", "2"), ("three", "3")]));
    let b = compose_html("x", None, vars(&[("three", "3"), ("one", "1"), ("two", "2")]));
    assert_eq!(a, b);
    assert!(a.is_ok());
}

#[test]
fn compose_names_order_by_code_point() {
    assert_eq!(
        compose_html("", None, vars(&[("a", "1"), ("B", "2"), ("_", "3")])),
        Ok("<style>:root {\n  --B: 2;\n  --_: 3;\n  --a: 1;\n}\n</style>".to_string())
    );
}

#[test]
fn compose_bad_name() {
    assert_eq!(compose_html("x", None, vars(&[("bad name", "1")])), Err(RenderError::CssVariableName("bad name".to_string())));
    assert_eq!(compose_html("x", None, vars(&[("", "1")])), Err(RenderError::CssVariableName(String::new())));
}

#[test]
fn compose_bad_value() {
    assert_eq!(compose_html("x", None, vars(&[("v", "} body {")])), Err(RenderError::CssVariableValue("v".to_string())));
}

#[test]
fn compose_first_fault_in_name_order() {
    assert_eq!(
        compose_html("x", None, vars(&[("z", "}"), ("a b", "1")])),
        Err(RenderError::CssVariableName("a b".to_string()))
    );
    assert_eq!(
        compose_html("x", None, vars(&[("z!", "1"), ("a", "{")])),
        Err(RenderError::CssVariableValue("a".to_string()))
    );
}

#[test]
fn compose_repeated_identical_vars_in_any_order() {
    let a = compose_html("x", None, vars(&[("a", "1"), ("b", "2"), ("a", "1")]));
    let b = compose_html("x", None, vars(&[("a", "1"), ("a", "1"), ("b", "2")]));
    assert_eq!(a, b);
    assert_eq!(a, Ok("x<style>:root {\n  --a: 1;\n  --a: 1;\n  --b: 2;\n}\n</style>".to_string()));
}

#[test]
fn compose_same_name_with_two_values_keeps_input_order() {
    assert_eq!(
        compose_html("", None, vars(&[("a", "1"), ("a", "2")])),
        Ok("<style>:root {\n  --a: 1;\n  --a: 2;\n}\n</style>".to_string())
    );
    assert_eq!(
        compose_html("", None, vars(&[("a", "2"), ("a", "1")])),
        Ok("<style>:root {\n  --a: 2;\n  --a: 1;\n}\n</style>".to_string())
    );
}
