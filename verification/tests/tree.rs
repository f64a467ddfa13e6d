use retained_dom::document::Document;
use retained_dom::errors::DocError;
use retained_dom::geom::Viewport;
use retained_dom::node::{Attribute, ElementNodeData, NodeData, TextNodeData};

fn viewport() -> Viewport {
    Viewport { width: 800, height: 600, scale_hundredths: 100 }
}

fn element(name: &str, attrs: Vec<(&str, &str)>) -> NodeData {
    NodeData::Element(ElementNodeData {
        name: name.to_string(),
        namespace: String::new(),
        attrs: attrs
            .into_iter()
            .map(|(n, v)| Attribute { name: n.to_string(), value: v.to_string() })
            .collect(),
        style_attribute: None,
        image: None,
        template_contents: None,
    })
}

fn text(content: &str) -> NodeData {
    NodeData::Text(TextNodeData { content: content.to_string() })
}

#[test]
fn identity_stability_across_insertions() {
    let mut doc = Document::new(viewport());
    let a = doc.create_node(element("div", vec![("id", "a")]));
    doc.append_child(0, a).unwrap();
    for _ in 0..50 {
        let extra = doc.create_node(text("filler"));
        doc.append_child(a, extra).unwrap();
    }
    let node = doc.get(a).unwrap();
    assert_eq!(node.id, a);
    assert!(node.is_element());
    assert_eq!(node.attr("id"), Some("a"));
}

#[test]
fn child_index_invariant_after_flush() {
    let mut doc = Document::new(viewport());
    let root = doc.create_node(element("html", vec![]));
    doc.append_child(0, root).unwrap();
    let c1 = doc.create_node(element("div", vec![]));
    let c2 = doc.create_node(text("hi"));
    let c3 = doc.create_node(element("span", vec![]));
    doc.append_child(root, c1).unwrap();
    doc.append_child(root, c2).unwrap();
    doc.append_child(root, c3).unwrap();
    doc.flush_child_indexes();
    for &c in &[c1, c2, c3] {
        let n = doc.get(c).unwrap();
        let p = doc.get(n.parent.unwrap()).unwrap();
        assert_eq!(p.children[n.child_idx], c);
    }
}

#[test]
fn unknown_id_is_out_of_range() {
    let doc = Document::new(viewport());
    assert_eq!(doc.get(99).err(), Some(DocError::OutOfRange));
}

#[test]
fn append_child_rejects_bad_structure() {
    let mut doc = Document::new(viewport());
    let a = doc.create_node(element("div", vec![]));
    doc.append_child(0, a).unwrap();
    // attaching a node below one created after it is a structure error
    assert_eq!(doc.append_child(a, 0).err(), Some(DocError::Structure));
    // attaching an already attached node is a structure error
    let b = doc.create_node(element("p", vec![]));
    doc.append_child(a, b).unwrap();
    assert_eq!(doc.append_child(0, b).err(), Some(DocError::Structure));
    // unknown ids are out of range
    assert_eq!(doc.append_child(0, 99).err(), Some(DocError::OutOfRange));
}

#[test]
fn text_content_aggregates_in_document_order() {
    let mut doc = Document::new(viewport());
    let e = doc.create_node(element("div", vec![]));
    doc.append_child(0, e).unwrap();
    let t1 = doc.create_node(text("ab"));
    doc.append_child(e, t1).unwrap();
    let inner = doc.create_node(element("span", vec![]));
    doc.append_child(e, inner).unwrap();
    let t2 = doc.create_node(text("cd"));
    doc.append_child(inner, t2).unwrap();
    let node = doc.get(e).unwrap();
    assert_eq!(node.text_content(doc.tree()), "abcd");
}

#[test]
fn root_element_missing_is_structure_error() {
    let mut doc = Document::new(viewport());
    assert_eq!(doc.root_element().err(), Some(DocError::Structure));
    assert_eq!(doc.resolve().err(), Some(DocError::Structure));
    let t = doc.create_node(text("loose"));
    doc.append_child(0, t).unwrap();
    assert_eq!(doc.root_element().err(), Some(DocError::Structure));
}

#[test]
fn base_url_parse_and_resolution() {
    let mut doc = Document::new(viewport());
    assert_eq!(doc.set_base_url("::not a url::").err(), Some(DocError::UrlParse));
    doc.set_base_url("https://example.net/a/b").unwrap();
    let joined = doc.resolve_url("c.png").unwrap();
    assert_eq!(joined.as_str(), "https://example.net/a/c.png");
    // without a base, only absolute references resolve
    let mut bare = Document::new(viewport());
    assert_eq!(bare.resolve_url("c.png").err(), Some(DocError::UrlParse));
    assert_eq!(bare.resolve_url("https://example.net/x").unwrap().as_str(), "https://example.net/x");
}

#[test]
fn error_descriptions_name_each_variant() {
    assert_eq!(DocError::OutOfRange.describe(), "unknown node id");
    assert_eq!(DocError::UrlParse.describe(), "malformed URL");
    assert_eq!(DocError::StylesheetParse.describe(), "malformed stylesheet rule");
    assert_eq!(DocError::Structure.describe(), "document has no root element");
}

#[test]
fn forward_and_backward_navigation() {
    let mut doc = Document::new(viewport());
    let e = doc.create_node(element("div", vec![]));
    doc.append_child(0, e).unwrap();
    let c1 = doc.create_node(element("a", vec![]));
    let c2 = doc.create_node(element("b", vec![]));
    let c3 = doc.create_node(element("c", vec![]));
    doc.append_child(e, c1).unwrap();
    doc.append_child(e, c2).unwrap();
    doc.append_child(e, c3).unwrap();
    doc.flush_child_indexes();
    let n1 = doc.get(c1).unwrap();
    let next = n1.forward(doc.tree(), 1).unwrap();
    assert_eq!(next.id, c2);
    let n3 = doc.get(c3).unwrap();
    let prev = n3.backward(doc.tree(), 2).unwrap();
    assert_eq!(prev.id, c1);
    assert!(n1.backward(doc.tree(), 1).is_none());
    assert!(n3.forward(doc.tree(), 1).is_none());
}
