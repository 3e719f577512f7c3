//! The decisions of a reusable template: which node an edit addressed by
//! element `id` goes to, and which edits are refused.
use vstd::prelude::*;

use crate::dom::{acyclic, build_id_map, document_index, DomSnapshot, IdMap};
use crate::error::RenderError;
use crate::text::{chars_eq_ignore_ascii_case, chars_of, eq_ignore_ascii_case};

verus! {

/// An edit of a template element, addressed by its `id` attribute.
pub enum TemplateCmd {
    /// Replace the text of the element's single text node.
    SetText { id: String, text: String },
    /// Set one inline style property of the element.
    SetStyle { id: String, name: String, value: String },
    /// Set one attribute of the element.
    SetAttr { id: String, name: String, value: String },
}

/// What an accepted edit does to the document, by node id.
pub enum TemplateEdit {
    /// Set the text of this text node.
    SetNodeText { node: usize, text: String },
    /// Rewrite this element's `style` attribute with `name: value` inserted.
    RewriteStyle { node: usize, name: String, value: String },
    /// Set this attribute of this element.
    SetAttribute { node: usize, name: String, value: String },
}

/// The state a template keeps beside its document: the index of its
/// elements by `id`, built once when the document is first laid out.
pub struct TemplateWorker {
    pub id_map: IdMap,
}

impl TemplateWorker {
    /// Indexes the elements of a freshly parsed document.
    pub fn new(doc: &DomSnapshot) -> (w: TemplateWorker)
        requires
            acyclic(doc.nodes_view()),
        ensures
            w.id_map@ == document_index(doc.nodes_view(), doc.root),
    {
        TemplateWorker { id_map: build_id_map(doc) }
    }

    /// The element with the given `id`, and its single text node.
    pub fn lookup(&self, id: &str) -> (res: Result<(usize, Option<usize>), RenderError>)
        ensures
            self.id_map@.contains_key(id@) ==> res == Ok::<(usize, Option<usize>), RenderError>(self.id_map@[id@]),
            !self.id_map@.contains_key(id@) ==> (res matches Err(RenderError::NoElement(m)) && m@ == id@),
    {
        match self.id_map.get(id) {
            Some(found) => Ok(found),
            None => Err(RenderError::NoElement(id.to_owned())),
        }
    }

    /// Decides an edit: the node it goes to, or why it is refused. Text can
    /// only be set on an element whose only child is a text node.
    pub fn plan(&self, cmd: TemplateCmd) -> (res: Result<TemplateEdit, RenderError>)
        ensures
            match cmd {
                TemplateCmd::SetText { id, text } => if !self.id_map@.contains_key(id@) {
                    res matches Err(RenderError::NoElement(m)) && m@ == id@
                } else {
                    match self.id_map@[id@].1 {
                        Some(tn) => res matches Ok(TemplateEdit::SetNodeText { node, text: t }) && node == tn && t == text,
                        None => res matches Err(RenderError::NotSingleText(m)) && m@ == id@,
                    }
                },
                TemplateCmd::SetStyle { id, name, value } => if !self.id_map@.contains_key(id@) {
                    res matches Err(RenderError::NoElement(m)) && m@ == id@
                } else {
                    res matches Ok(TemplateEdit::RewriteStyle { node, name: n, value: v }) && node == self.id_map@[id@].0
                        && n == name && v == value
                },
                TemplateCmd::SetAttr { id, name, value } => if !self.id_map@.contains_key(id@) {
                    res matches Err(RenderError::NoElement(m)) && m@ == id@
                } else {
                    res matches Ok(TemplateEdit::SetAttribute { node, name: n, value: v }) && node == self.id_map@[id@].0
                        && n == name && v == value
                },
            },
    {
        match cmd {
            TemplateCmd::SetText { id, text } => {
                let (_, text_node) = self.lookup(id.as_str())?;
                match text_node {
                    Some(node) => Ok(TemplateEdit::SetNodeText { node, text }),
                    None => Err(RenderError::NotSingleText(id)),
                }
            },
            TemplateCmd::SetStyle { id, name, value } => {
                let (node, _) = self.lookup(id.as_str())?;
                Ok(TemplateEdit::RewriteStyle { node, name, value })
            },
            TemplateCmd::SetAttr { id, name, value } => {
                let (node, _) = self.lookup(id.as_str())?;
                Ok(TemplateEdit::SetAttribute { node, name, value })
            },
        }
    }
}

/// Checks an attribute name before a `set_attribute` edit: the `id`
/// attribute (in any case) cannot be changed, since the index is built once.
pub fn check_attribute_name(name: &str) -> (res: Result<(), RenderError>)
    ensures
        eq_ignore_ascii_case(name@, seq!['i', 'd']) ==> res == Err::<(), RenderError>(RenderError::IdAttribute),
        !eq_ignore_ascii_case(name@, seq!['i', 'd']) ==> res is Ok,
{
    let n = chars_of(name);
    let id = vec!['i', 'd'];
    assert(id@ =~= seq!['i', 'd']);
    if chars_eq_ignore_ascii_case(&n, &id) {
        Err(RenderError::IdAttribute)
    } else {
        Ok(())
    }
}

} // verus!
