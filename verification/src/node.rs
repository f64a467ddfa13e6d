use vstd::prelude::*;
use crate::css::{ComputedStyle, Declaration};
use crate::geom::{AvailableSpace, Geometry};
use crate::strutil::str_eq;

verus! {

/// Derived outer display classification, deciding whether a node takes
/// part in layout.
#[derive(Clone, Copy, Debug, PartialEq, Eq, Structural)]
pub enum DisplayOuter {
    Block,
    Inline,
    NoDisplay,
}

/// A tag attribute, e.g. `class="test"` in `<div class="test">`.
#[derive(PartialEq, Eq, PartialOrd, Ord, Clone, Debug)]
pub struct Attribute {
    /// The name of the attribute (e.g. the `class` in `<div class="test">`)
    pub name: String,
    /// The value of the attribute (e.g. the `"test"` in `<div class="test">`)
    pub value: String,
}

/// The size of a decoded image payload attached to an element.
#[derive(Clone, Copy, Debug, PartialEq, Eq, Structural)]
pub struct ImageMeta {
    pub width: u32,
    pub height: u32,
}

/// The element-specific payload of a node.
#[derive(Clone, Debug)]
pub struct ElementNodeData {
    /// The element's local tag name.
    pub name: String,
    /// The element's namespace.
    pub namespace: String,
    /// The element's attributes, in document order; duplicates allowed,
    /// lookup takes the first match.
    pub attrs: Vec<Attribute>,
    /// The element's parsed `style` attribute.
    pub style_attribute: Option<Vec<Declaration>>,
    /// The element's decoded image content (`img` elements only).
    pub image: Option<ImageMeta>,
    /// The element's template contents (`template` elements only).
    pub template_contents: Option<usize>,
}

/// The payload of a text node.
#[derive(Clone, Debug)]
pub struct TextNodeData {
    pub content: String,
}

/// The different kinds of nodes in the tree.
#[derive(Clone, Debug)]
pub enum NodeData {
    /// The document itself - the root node of the tree.
    Document,
    /// An element with attributes.
    Element(ElementNodeData),
    /// A text node.
    Text(TextNodeData),
    /// A comment.
    Comment,
}

/// First-match attribute lookup, scanning from position `k`.
pub open spec fn spec_attr_from(attrs: Seq<Attribute>, name: Seq<char>, k: int) -> Option<Seq<char>>
    decreases attrs.len() - k,
{
    if k < 0 || k >= attrs.len() {
        None
    } else if attrs[k].name@ == name {
        Some(attrs[k].value@)
    } else {
        spec_attr_from(attrs, name, k + 1)
    }
}

/// First-match attribute lookup over a whole attribute list.
pub open spec fn spec_attr(attrs: Seq<Attribute>, name: Seq<char>) -> Option<Seq<char>> {
    spec_attr_from(attrs, name, 0)
}

/// The shared exec search behind every `attr` accessor.
fn attr_search<'a>(attrs: &'a Vec<Attribute>, name: &str) -> (r: Option<&'a str>)
    ensures
        match r {
            Some(v) => spec_attr(attrs@, name@) == Some(v@),
            None => spec_attr(attrs@, name@) is None,
        },
{
    let n = attrs.len();
    let mut i: usize = 0;
    while i < n
        invariant
            n == attrs@.len(),
            0 <= i <= n,
            spec_attr(attrs@, name@) == spec_attr_from(attrs@, name@, i as int),
        decreases n - i,
    {
        if str_eq(attrs[i].name.as_str(), name) {
            return Some(attrs[i].value.as_str());
        }
        i += 1;
    }
    None
}

impl ElementNodeData {
    /// The element's attributes.
    pub fn attrs(&self) -> (r: &Vec<Attribute>)
        ensures
            r == &self.attrs,
    {
        &self.attrs
    }

    /// The value of the first attribute named `name`, if any.
    pub fn attr<'a>(&'a self, name: &str) -> (r: Option<&'a str>)
        ensures
            match r {
                Some(v) => spec_attr(self.attrs@, name@) == Some(v@),
                None => spec_attr(self.attrs@, name@) is None,
            },
    {
        attr_search(&self.attrs, name)
    }
}

impl NodeData {
    /// The element payload, if this is an element.
    pub open spec fn spec_element(self) -> Option<ElementNodeData> {
        match self {
            NodeData::Element(data) => Some(data),
            _ => None,
        }
    }

    /// The text payload, if this is a text node.
    pub open spec fn spec_text(self) -> Option<TextNodeData> {
        match self {
            NodeData::Text(data) => Some(data),
            _ => None,
        }
    }

    pub fn downcast_element(&self) -> (r: Option<&ElementNodeData>)
        ensures
            match r {
                Some(d) => self.spec_element() == Some(*d),
                None => self.spec_element() is None,
            },
    {
        match self {
            NodeData::Element(data) => Some(data),
            _ => None,
        }
    }

    /// Whether this is an element whose local tag name is `name`.
    pub open spec fn spec_is_element_with_tag_name(self, name: Seq<char>) -> bool {
        match self {
            NodeData::Element(data) => data.name@ == name,
            _ => false,
        }
    }

    pub fn is_element_with_tag_name(&self, name: &str) -> (r: bool)
        ensures
            r == self.spec_is_element_with_tag_name(name@),
    {
        match self {
            NodeData::Element(data) => str_eq(data.name.as_str(), name),
            _ => false,
        }
    }

    pub fn attrs(&self) -> (r: Option<&Vec<Attribute>>)
        ensures
            match r {
                Some(a) => self.spec_element() is Some && a == &self.spec_element()->0.attrs,
                None => self.spec_element() is None,
            },
    {
        match self {
            NodeData::Element(data) => Some(&data.attrs),
            _ => None,
        }
    }

    pub fn attr<'a>(&'a self, name: &str) -> (r: Option<&'a str>)
        ensures
            match r {
                Some(v) => self.spec_element() is Some && spec_attr(
                    self.spec_element()->0.attrs@,
                    name@,
                ) == Some(v@),
                None => self.spec_element() is None || spec_attr(
                    self.spec_element()->0.attrs@,
                    name@,
                ) is None,
            },
    {
        match self {
            NodeData::Element(data) => attr_search(&data.attrs, name),
            _ => None,
        }
    }
}

/// One tree node: identity, tree links, variant payload, style slots and
/// layout slots.  Navigation goes through the owning arena, passed to each
/// traversal call; nodes hold no back-reference.
#[derive(Clone, Debug)]
pub struct Node {
    /// Our id, equal to our arena slot.
    pub id: usize,
    /// Our parent's id.
    pub parent: Option<usize>,
    /// Which child we are within our parent.
    pub child_idx: usize,
    /// Our children, in document order.
    pub children: Vec<usize>,
    /// Node-kind specific data (element, text, ...).
    pub raw_dom_data: NodeData,
    /// Computed style, written by the style phase.
    pub style_data: Option<ComputedStyle>,
    /// Outer display classification, written by the style phase.
    pub display_outer: DisplayOuter,
    pub hidden: bool,
    /// The available space last handed to the layout phase.
    pub layout_cache: Option<AvailableSpace>,
    /// Box geometry in hundredths of a pixel, written by the layout phase.
    pub unrounded_layout: Geometry,
    /// Pixel-rounded box geometry, written by the layout phase.
    pub final_layout: Geometry,
}

impl Node {
    pub open spec fn spec_is_element(self) -> bool {
        self.raw_dom_data is Element
    }

    pub open spec fn spec_is_text(self) -> bool {
        self.raw_dom_data is Text
    }

    pub fn is_element(&self) -> (r: bool)
        ensures
            r == self.spec_is_element(),
    {
        matches!(self.raw_dom_data, NodeData::Element { .. })
    }

    pub fn is_text_node(&self) -> (r: bool)
        ensures
            r == self.spec_is_text(),
    {
        matches!(self.raw_dom_data, NodeData::Text { .. })
    }

    pub fn element_data(&self) -> (r: Option<&ElementNodeData>)
        ensures
            match r {
                Some(d) => self.raw_dom_data.spec_element() == Some(*d),
                None => self.raw_dom_data.spec_element() is None,
            },
    {
        match &self.raw_dom_data {
            NodeData::Element(data) => Some(data),
            _ => None,
        }
    }

    pub fn text_data(&self) -> (r: Option<&TextNodeData>)
        ensures
            match r {
                Some(d) => self.raw_dom_data.spec_text() == Some(*d),
                None => self.raw_dom_data.spec_text() is None,
            },
    {
        match &self.raw_dom_data {
            NodeData::Text(data) => Some(data),
            _ => None,
        }
    }

    pub fn attrs(&self) -> (r: Option<&Vec<Attribute>>)
        ensures
            match r {
                Some(a) => self.raw_dom_data.spec_element() is Some && a
                    == &self.raw_dom_data.spec_element()->0.attrs,
                None => self.raw_dom_data.spec_element() is None,
            },
    {
        self.raw_dom_data.attrs()
    }

    pub fn attr<'a>(&'a self, name: &str) -> (r: Option<&'a str>)
        ensures
            match r {
                Some(v) => self.raw_dom_data.spec_element() is Some && spec_attr(
                    self.raw_dom_data.spec_element()->0.attrs@,
                    name@,
                ) == Some(v@),
                None => self.raw_dom_data.spec_element() is None || spec_attr(
                    self.raw_dom_data.spec_element()->0.attrs@,
                    name@,
                ) is None,
            },
    {
        self.raw_dom_data.attr(name)
    }

    /// The `order` of the computed style, or zero when style is not yet
    /// resolved.
    pub open spec fn spec_order(self) -> i64 {
        match self.style_data {
            Some(s) => s.order,
            None => 0,
        }
    }

    pub fn order(&self) -> (r: i64)
        ensures
            r == self.spec_order(),
    {
        match &self.style_data {
            Some(s) => s.order,
            None => 0,
        }
    }
}

/// Equality of two node values on every field except `children`.
pub open spec fn eq_except_children(a: Node, b: Node) -> bool {
    &&& a.id == b.id
    &&& a.parent == b.parent
    &&& a.child_idx == b.child_idx
    &&& a.raw_dom_data == b.raw_dom_data
    &&& a.style_data == b.style_data
    &&& a.display_outer == b.display_outer
    &&& a.hidden == b.hidden
    &&& a.layout_cache == b.layout_cache
    &&& a.unrounded_layout == b.unrounded_layout
    &&& a.final_layout == b.final_layout
}

/// Equality of two node values on every field except the tree links
/// `parent` and `child_idx`.
pub open spec fn eq_except_links(a: Node, b: Node) -> bool {
    &&& a.id == b.id
    &&& a.children == b.children
    &&& a.raw_dom_data == b.raw_dom_data
    &&& a.style_data == b.style_data
    &&& a.display_outer == b.display_outer
    &&& a.hidden == b.hidden
    &&& a.layout_cache == b.layout_cache
    &&& a.unrounded_layout == b.unrounded_layout
    &&& a.final_layout == b.final_layout
}

/// Equality of two node values on every field except `child_idx`.
pub open spec fn eq_except_child_idx(a: Node, b: Node) -> bool {
    &&& a.id == b.id
    &&& a.parent == b.parent
    &&& a.children == b.children
    &&& a.raw_dom_data == b.raw_dom_data
    &&& a.style_data == b.style_data
    &&& a.display_outer == b.display_outer
    &&& a.hidden == b.hidden
    &&& a.layout_cache == b.layout_cache
    &&& a.unrounded_layout == b.unrounded_layout
    &&& a.final_layout == b.final_layout
}

/// Equality of two node values on every field except the style slots
/// written by the style phase.
pub open spec fn eq_except_style(a: Node, b: Node) -> bool {
    &&& a.id == b.id
    &&& a.parent == b.parent
    &&& a.child_idx == b.child_idx
    &&& a.children == b.children
    &&& a.raw_dom_data == b.raw_dom_data
    &&& a.hidden == b.hidden
    &&& a.layout_cache == b.layout_cache
    &&& a.unrounded_layout == b.unrounded_layout
    &&& a.final_layout == b.final_layout
}

/// Equality of two node values on every field except the geometry slots
/// written by the layout phase.
pub open spec fn eq_except_layout(a: Node, b: Node) -> bool {
    &&& a.id == b.id
    &&& a.parent == b.parent
    &&& a.child_idx == b.child_idx
    &&& a.children == b.children
    &&& a.raw_dom_data == b.raw_dom_data
    &&& a.style_data == b.style_data
    &&& a.display_outer == b.display_outer
    &&& a.hidden == b.hidden
}

/// What the parsed `style` attribute of an element must hold after a
/// flush: the parse of the attribute text when the attribute is present,
/// nothing otherwise.
pub open spec fn flushed_style_attribute(e: ElementNodeData, after: Option<Seq<crate::css::DeclV>>) -> bool {
    match spec_attr(e.attrs@, "style"@) {
        Some(v) => after == Some(
            crate::parse::parse_decls_from(
                vstd::utf8::encode_utf8(v),
                0,
                vstd::utf8::encode_utf8(v).len() as int,
            ),
        ),
        None => after is None,
    }
}

/// The view of an optional parsed declaration list.
pub open spec fn style_attr_view(o: Option<Vec<crate::css::Declaration>>) -> Option<
    Seq<crate::css::DeclV>,
> {
    match o {
        Some(ds) => Some(crate::css::decls_view(ds@)),
        None => None,
    }
}

impl ElementNodeData {
    /// Re-parse the element's `style` attribute into its declaration
    /// block; an absent attribute clears the block.
    pub fn flush_style_attribute(&mut self)
        ensures
            final(self).name == old(self).name,
            final(self).namespace == old(self).namespace,
            final(self).attrs == old(self).attrs,
            final(self).image == old(self).image,
            final(self).template_contents == old(self).template_contents,
            flushed_style_attribute(*old(self), style_attr_view(final(self).style_attribute)),
    {
        let text: Option<Vec<u8>> = match self.attr("style") {
            Some(v) => Some(crate::strutil::bytes_of(v)),
            None => None,
        };
        match text {
            Some(b) => {
                let n = b.len();
                let decls = crate::parse::parse_decls_exec(b.as_slice(), 0, n);
                self.style_attribute = Some(decls);
            },
            None => {
                self.style_attribute = None;
            },
        }
    }
}

impl Node {
    /// Re-parse this node's `style` attribute if it is an element; other
    /// nodes are left untouched.
    pub fn flush_style_attribute(&mut self)
        ensures
            final(self).id == old(self).id,
            final(self).parent == old(self).parent,
            final(self).child_idx == old(self).child_idx,
            final(self).children == old(self).children,
            final(self).style_data == old(self).style_data,
            final(self).display_outer == old(self).display_outer,
            final(self).hidden == old(self).hidden,
            final(self).layout_cache == old(self).layout_cache,
            final(self).unrounded_layout == old(self).unrounded_layout,
            final(self).final_layout == old(self).final_layout,
            match old(self).raw_dom_data {
                NodeData::Element(e) => final(self).raw_dom_data is Element && {
                    let fe = final(self).raw_dom_data.spec_element()->0;
                    &&& fe.name == e.name
                    &&& fe.namespace == e.namespace
                    &&& fe.attrs == e.attrs
                    &&& fe.image == e.image
                    &&& fe.template_contents == e.template_contents
                    &&& flushed_style_attribute(e, style_attr_view(fe.style_attribute))
                },
                _ => final(self).raw_dom_data == old(self).raw_dom_data,
            },
    {
        match &mut self.raw_dom_data {
            NodeData::Element(e) => {
                e.flush_style_attribute();
            },
            _ => {},
        }
    }
}

/// The per-node relation a device update leaves behind: everything but
/// the layout-cache slot untouched, the cache cleared once visited.
pub open spec fn device_frame(a: Node, b: Node, cleared: bool) -> bool {
    &&& eq_except_layout(a, b)
    &&& b.unrounded_layout == a.unrounded_layout
    &&& b.final_layout == a.final_layout
    &&& (cleared ==> b.layout_cache is None)
    &&& (!cleared ==> b.layout_cache == a.layout_cache)
}

/// Node equality is identity: two nodes are the same node exactly when
/// their arena ids agree.
impl PartialEq for Node {
    fn eq(&self, other: &Self) -> (r: bool) {
        self.id == other.id
    }
}

impl Eq for Node {

}

impl vstd::std_specs::cmp::PartialEqSpecImpl for Node {
    open spec fn obeys_eq_spec() -> bool {
        true
    }

    open spec fn eq_spec(&self, other: &Node) -> bool {
        self.id == other.id
    }
}

} // verus!
