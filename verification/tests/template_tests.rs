use blitz_py::dom::{build_id_map, DomNode, DomSnapshot};
use blitz_py::error::RenderError;
use blitz_py::template::{check_attribute_name, TemplateCmd, TemplateEdit, TemplateWorker};

fn element(id: Option<&str>, children: Vec<usize>) -> Option<DomNode> {
    Some(DomNode { element_id: id.map(|s| s.to_string()), is_text: false, children })
}

fn text() -> Option<DomNode> {
    Some(DomNode { element_id: None, is_text: true, children: vec![] })
}

/// root(0, id=root) -> [title(1) -> [text(3)], bar(2), gap(4)?]
fn sample() -> DomSnapshot {
    DomSnapshot {
        nodes: vec![
            element(Some("root"), vec![1, 2, 6]),
            element(Some("title"), vec![3]),
            element(Some("bar"), vec![]),
            text(),
            None,
            element(Some("detached"), vec![]),
            element(None, vec![7, 4, 99]),
            element(Some("deep"), vec![8, 9]),
            text(),
            text(),
        ],
        root: 0,
    }
}

#[test]
fn id_map_indexes_reachable_elements() {
    let m = build_id_map(&sample());
    assert_eq!(m.get("root"), Some((0, None)));
    assert_eq!(m.get("title"), Some((1, Some(3))));
    assert_eq!(m.get("bar"), Some((2, None)));
    assert_eq!(m.get("deep"), Some((7, None)));
    assert_eq!(m.get("detached"), None);
    assert_eq!(m.get("nope"), None);
    assert_eq!(m.len(), 4);
}

#[test]
fn id_map_duplicate_ids_keep_first_sibling() {
    let doc = DomSnapshot {
        nodes: vec![element(None, vec![1, 2]), element(Some("dup"), vec![]), element(Some("dup"), vec![3]), text()],
        root: 0,
    };
    let m = build_id_map(&doc);
    assert_eq!(m.get("dup"), Some((1, None)));
}

#[test]
fn id_map_missing_root_is_empty() {
    let doc = DomSnapshot { nodes: vec![element(Some("a"), vec![])], root: 5 };
    assert_eq!(build_id_map(&doc).len(), 0);
}

#[test]
fn lookup_reports_unknown_id() {
    let w = TemplateWorker::new(&sample());
    assert_eq!(w.lookup("title"), Ok((1, Some(3))));
    assert_eq!(w.lookup("missing"), Err(RenderError::NoElement("missing".to_string())));
}

#[test]
fn plan_set_text_goes_to_text_node() {
    let w = TemplateWorker::new(&sample());
    match w.plan(TemplateCmd::SetText { id: "title".to_string(), text: "Hi".to_string() }) {
        Ok(TemplateEdit::SetNodeText { node, text }) => {
            assert_eq!(node, 3);
            assert_eq!(text, "Hi");
        }
        _ => panic!("expected a text edit"),
    }
}

#[test]
fn plan_set_text_needs_single_text_child() {
    let w = TemplateWorker::new(&sample());
    assert!(matches!(
        w.plan(TemplateCmd::SetText { id: "bar".to_string(), text: "x".to_string() }),
        Err(RenderError::NotSingleText(ref id)) if id == "bar"
    ));
    assert!(matches!(
        w.plan(TemplateCmd::SetText { id: "deep".to_string(), text: "x".to_string() }),
        Err(RenderError::NotSingleText(_))
    ));
}

#[test]
fn plan_style_and_attribute_go_to_element() {
    let w = TemplateWorker::new(&sample());
    match w.plan(TemplateCmd::SetStyle { id: "bar".to_string(), name: "width".to_string(), value: "62%".to_string() }) {
        Ok(TemplateEdit::RewriteStyle { node, name, value }) => {
            assert_eq!((node, name.as_str(), value.as_str()), (2, "width", "62%"));
        }
        _ => panic!("expected a style edit"),
    }
    match w.plan(TemplateCmd::SetAttr { id: "root".to_string(), name: "class".to_string(), value: "on".to_string() }) {
        Ok(TemplateEdit::SetAttribute { node, name, value }) => {
            assert_eq!((node, name.as_str(), value.as_str()), (0, "class", "on"));
        }
        _ => panic!("expected an attribute edit"),
    }
    assert!(matches!(
        w.plan(TemplateCmd::SetAttr { id: "zz".to_string(), name: "a".to_string(), value: "b".to_string() }),
        Err(RenderError::NoElement(_))
    ));
}

#[test]
fn attribute_id_cannot_change() {
    assert_eq!(check_attribute_name("id"), Err(RenderError::IdAttribute));
    assert_eq!(check_attribute_name("ID"), Err(RenderError::IdAttribute));
    assert_eq!(check_attribute_name("data-id"), Ok(()));
}
