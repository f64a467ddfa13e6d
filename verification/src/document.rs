use vstd::prelude::*;
use crate::arena::{indexes_ok, tree_wf, Arena};
use crate::css::{ComputedStyle, ComputedStyleV, Sheet, SheetV, StylesheetRegistry};
use crate::errors::DocError;
use crate::geom::{add_clamp, round_geom, AvailableSpace, Geometry, Viewport, MAX_LEN_H};
use crate::node::{device_frame, eq_except_layout, DisplayOuter, Node, NodeData};
use crate::urls::{join_url, parse_url, url_parse_ok};
use crate::layout::{laid_out, layout_post, lemma_used_bounds, participates, same_layout_inputs, siblings_h_upto, spec_unrounded, style_of, used_h, used_w};
use crate::geom::{spec_add_clamp, spec_round_geom};

verus! {

/// An optional computed style, as stored in a node's style slot.
pub type ComputedStyleOpt = Option<ComputedStyle>;

/// The document: owns the node arena and the stylesheet registry, drives
/// the resolve pipeline, and exposes the mutation and query entry points.
pub struct Document {
    pub(crate) nodes: Arena,
    pub(crate) registry: StylesheetRegistry,
    /// Per-node prior computed style, refreshed by each style phase, for
    /// minimal-restyle bookkeeping across resolve cycles.
    pub(crate) snapshots: Vec<Option<ComputedStyle>>,
    /// Base URL for resolving linked resources.
    pub(crate) base_url: Option<url::Url>,
    pub(crate) viewport: Viewport,
}

impl Document {
    /// The stored nodes, as a sequence indexed by id.
    pub closed spec fn nodes_view(self) -> Seq<Node> {
        self.nodes@
    }

    /// The parsed UserAgent-origin sheets, in append order.
    pub closed spec fn ua_sheets_view(self) -> Seq<SheetV> {
        self.registry.ua_view()
    }

    /// The parsed Author-origin sheets, in append order.
    pub closed spec fn author_sheets_view(self) -> Seq<SheetV> {
        self.registry.author_view()
    }

    pub closed spec fn ua_dirty(self) -> bool {
        self.registry.ua_dirty
    }

    pub closed spec fn author_dirty(self) -> bool {
        self.registry.author_dirty
    }

    /// The per-node prior-style snapshot map.
    pub closed spec fn snapshots_view(self) -> Seq<Option<ComputedStyleV>> {
        self.snapshots@.map_values(|s: Option<ComputedStyle>| crate::css::style_view(s))
    }

    /// Whether a base URL is currently set.
    pub closed spec fn has_base_url(self) -> bool {
        self.base_url is Some
    }

    pub closed spec fn viewport_view(self) -> Viewport {
        self.viewport
    }

    /// The document invariant: a well-formed tree plus well-formed sheets
    /// and viewport.
    pub open spec fn wf(self) -> bool {
        &&& tree_wf(self.nodes_view())
        &&& (forall|i: int|
            0 <= i < self.ua_sheets_view().len() ==> (#[trigger] self.ua_sheets_view()[i]).wf())
        &&& (forall|i: int|
            0 <= i < self.author_sheets_view().len() ==> (
            #[trigger] self.author_sheets_view()[i]).wf())
        &&& self.viewport_view().wf()
    }
}

/// Two documents with the same node sequence.
pub open spec fn same_tree(a: Document, b: Document) -> bool {
    a.nodes_view() == b.nodes_view()
}

/// Two documents with the same registry contents and dirty flags.
pub open spec fn same_registry(a: Document, b: Document) -> bool {
    &&& a.ua_sheets_view() == b.ua_sheets_view()
    &&& a.author_sheets_view() == b.author_sheets_view()
    &&& a.ua_dirty() == b.ua_dirty()
    &&& a.author_dirty() == b.author_dirty()
}

/// Two documents with the same snapshot map.
pub open spec fn same_snapshots(a: Document, b: Document) -> bool {
    a.snapshots_view() == b.snapshots_view()
}

/// Two documents with the same base URL slot.
pub open spec fn same_base(a: Document, b: Document) -> bool {
    a.has_base_url() == b.has_base_url()
}

/// Two documents with the same device description.
pub open spec fn same_viewport(a: Document, b: Document) -> bool {
    a.viewport_view() == b.viewport_view()
}

/// The id of the root element: the first element child of the document
/// root, scanning its children from position `k`.
pub open spec fn first_elem_child_from(s: Seq<Node>, k: int) -> Option<int>
    decreases s[0].children@.len() - k,
        when 0 <= k
{
    if s.len() == 0 || k >= s[0].children@.len() {
        None
    } else {
        let cid = s[0].children@[k] as int;
        if 0 <= cid < s.len() && s[cid].raw_dom_data is Element {
            Some(cid)
        } else {
            first_elem_child_from(s, k + 1)
        }
    }
}

/// The id of the root element, if the tree has one.
pub open spec fn spec_root_element_id(s: Seq<Node>) -> Option<int> {
    first_elem_child_from(s, 0)
}

impl Document {
    /// A fresh document: an arena holding only the document root, an
    /// empty stylesheet registry, a fresh snapshot map, no base URL.
    pub fn new(viewport: Viewport) -> (r: Document)
        requires
            viewport.wf(),
        ensures
            r.wf(),
            r.nodes_view().len() == 1,
            r.nodes_view()[0].raw_dom_data is Document,
            r.nodes_view()[0].parent is None,
            r.nodes_view()[0].children@ == Seq::<usize>::empty(),
            r.ua_sheets_view() == Seq::<SheetV>::empty(),
            r.author_sheets_view() == Seq::<SheetV>::empty(),
            !r.ua_dirty(),
            !r.author_dirty(),
            r.snapshots_view() == Seq::<Option<ComputedStyleV>>::empty(),
            !r.has_base_url(),
            r.viewport_view() == viewport,
    {
        let mut nodes = Arena::new();
        let root = Node {
            id: 0,
            parent: None,
            child_idx: 0,
            children: Vec::new(),
            raw_dom_data: NodeData::Document,
            style_data: None,
            display_outer: crate::node::DisplayOuter::Block,
            hidden: false,
            layout_cache: None,
            unrounded_layout: Geometry::zero(),
            final_layout: Geometry::zero(),
        };
        nodes.insert(root);
        let r = Document {
            nodes,
            registry: StylesheetRegistry::new(),
            snapshots: Vec::new(),
            base_url: None,
            viewport,
        };
        proof {
            assert(r.snapshots_view() =~= Seq::<Option<ComputedStyleV>>::empty());
            crate::arena::lemma_tree_wf_singleton(r.nodes_view());
        }
        r
    }

    /// Read access to the whole arena.
    pub fn tree(&self) -> (r: &Arena)
        ensures
            r@ == self.nodes_view(),
    {
        &self.nodes
    }

    /// The document root node, always at id 0.
    pub fn root_node(&self) -> (r: &Node)
        requires
            self.wf(),
        ensures
            *r == self.nodes_view()[0],
    {
        self.nodes.at(0)
    }

    /// Checked node lookup; fails with the out-of-range error on an
    /// unknown id.
    pub fn get(&self, id: usize) -> (r: Result<&Node, DocError>)
        ensures
            match r {
                Ok(n) => id < self.nodes_view().len() && *n == self.nodes_view()[id as int],
                Err(e) => id >= self.nodes_view().len() && e == DocError::OutOfRange,
            },
    {
        self.nodes.get(id)
    }

    /// The root element: the first element child of the document root.
    /// Fails with the structure error when the tree has none.
    #[verifier::spinoff_prover]
    #[verifier::rlimit(100)]
    pub fn root_element(&self) -> (r: Result<&Node, DocError>)
        requires
            self.wf(),
        ensures
            match r {
                Ok(n) => spec_root_element_id(self.nodes_view()) == Some(n.id as int) && n.id
                    < self.nodes_view().len() && *n == self.nodes_view()[n.id as int]
                    && n.raw_dom_data is Element,
                Err(e) => spec_root_element_id(self.nodes_view()) is None && e
                    == DocError::Structure,
            },
    {
        let ghost s = self.nodes_view();
        let root = self.nodes.at(0);
        let k_max = root.children.len();
        let mut k: usize = 0;
        while k < k_max
            invariant
                self.wf(),
                s == self.nodes_view(),
                *root == s[0],
                k_max == root.children@.len(),
                0 <= k <= k_max,
                spec_root_element_id(s) == first_elem_child_from(s, k as int),
            decreases k_max - k,
        {
            let cid = root.children[k];
            proof {
                assert(0 < s[0].children@[k as int] < s.len());
            }
            let child = self.nodes.at(cid);
            if child.is_element() {
                return Ok(child);
            }
            k += 1;
        }
        Err(DocError::Structure)
    }

    /// Parse and store the base URL used to resolve linked resources.
    /// The slot ends up filled exactly when the text is a well-formed
    /// absolute URL.
    #[verifier::rlimit(50)]
    #[verifier::spinoff_prover]
    pub fn set_base_url(&mut self, url: &str) -> (r: Result<(), DocError>)
        ensures
            final(self).has_base_url() <==> url_parse_ok(url@),
            r is Ok <==> url_parse_ok(url@),
            r is Err ==> r->Err_0 == DocError::UrlParse,
            same_tree(*old(self), *final(self)),
            same_registry(*old(self), *final(self)),
            same_snapshots(*old(self), *final(self)),
            same_viewport(*old(self), *final(self)),
            old(self).wf() ==> final(self).wf(),
    {
        match parse_url(url) {
            Some(u) => {
                self.base_url = Some(u);
                proof {
                    if old(self).wf() {
                        assert(self.nodes_view() == old(self).nodes_view());
                        assert(self.ua_sheets_view() == old(self).ua_sheets_view());
                        assert(self.author_sheets_view() == old(self).author_sheets_view());
                        assert(self.viewport_view() == old(self).viewport_view());
                        assert(self.wf());
                    }
                }
                Ok(())
            },
            None => {
                self.base_url = None;
                proof {
                    if old(self).wf() {
                        assert(self.nodes_view() == old(self).nodes_view());
                        assert(self.ua_sheets_view() == old(self).ua_sheets_view());
                        assert(self.author_sheets_view() == old(self).author_sheets_view());
                        assert(self.viewport_view() == old(self).viewport_view());
                        assert(self.wf());
                    }
                }
                Err(DocError::UrlParse)
            },
        }
    }

    /// Resolve a raw resource reference: against the base URL when one is
    /// set, else as an absolute URL.  Fails with the URL-parse error when
    /// the reference cannot be resolved.
    pub fn resolve_url(&self, raw: &str) -> (r: Result<url::Url, DocError>)
        ensures
            !self.has_base_url() ==> ((r is Ok) <==> url_parse_ok(raw@)),
            r is Err ==> r->Err_0 == DocError::UrlParse,
    {
        match &self.base_url {
            Some(base) => match join_url(base, raw) {
                Some(u) => Ok(u),
                None => Err(DocError::UrlParse),
            },
            None => match parse_url(raw) {
                Some(u) => Ok(u),
                None => Err(DocError::UrlParse),
            },
        }
    }

    /// The current device description.
    pub fn stylist_device(&self) -> (r: Viewport)
        ensures
            r == self.viewport_view(),
    {
        self.viewport
    }

    /// Update the device description and mark both origins dirty so the
    /// next resolve recomputes the cascade and layout for the new
    /// available space; cached layout inputs are overwritten by that pass.
    pub fn set_stylist_device(&mut self, device: Viewport)
        requires
            old(self).wf(),
            device.wf(),
        ensures
            final(self).wf(),
            final(self).viewport_view() == device,
            same_tree(*old(self), *final(self)),
            final(self).ua_sheets_view() == old(self).ua_sheets_view(),
            final(self).author_sheets_view() == old(self).author_sheets_view(),
            final(self).ua_dirty() && final(self).author_dirty(),
            same_snapshots(*old(self), *final(self)),
            same_base(*old(self), *final(self)),
    {
        self.viewport = device;
        self.registry.ua_dirty = true;
        self.registry.author_dirty = true;
        proof {
            assert(self.nodes_view() == old(self).nodes_view());
            assert(self.ua_sheets_view() == old(self).ua_sheets_view());
            assert(self.author_sheets_view() == old(self).author_sheets_view());
        }
    }

    /// Create a node holding `data` in a fresh slot and hand its id back.
    /// Previously stored nodes are untouched: an id returned earlier keeps
    /// resolving to the same logical node after any number of further
    /// insertions (identity stability).
    #[verifier::rlimit(100)]
    #[verifier::spinoff_prover]
    pub fn create_node(&mut self, data: NodeData) -> (id: usize)
        requires
            old(self).wf(),
            old(self).nodes_view().len() < usize::MAX,
        ensures
            final(self).wf(),
            id == old(self).nodes_view().len(),
            final(self).nodes_view().len() == old(self).nodes_view().len() + 1,
            forall|i: int|
                0 <= i < old(self).nodes_view().len() ==> final(self).nodes_view()[i] == old(
                    self,
                ).nodes_view()[i],
            final(self).nodes_view()[id as int].id == id,
            final(self).nodes_view()[id as int].parent is None,
            final(self).nodes_view()[id as int].children@ == Seq::<usize>::empty(),
            final(self).nodes_view()[id as int].raw_dom_data == data,
            final(self).nodes_view()[id as int].style_data is None,
            final(self).nodes_view()[id as int].layout_cache is None,
            final(self).nodes_view()[id as int].unrounded_layout == Geometry::spec_zero(),
            final(self).nodes_view()[id as int].final_layout == Geometry::spec_zero(),
            same_registry(*old(self), *final(self)),
            same_snapshots(*old(self), *final(self)),
            same_base(*old(self), *final(self)),
            same_viewport(*old(self), *final(self)),
    {
        let node = Node {
            id: 0,
            parent: None,
            child_idx: 0,
            children: Vec::new(),
            raw_dom_data: data,
            style_data: None,
            display_outer: crate::node::DisplayOuter::Block,
            hidden: false,
            layout_cache: None,
            unrounded_layout: Geometry::zero(),
            final_layout: Geometry::zero(),
        };
        let ghost pre = self.nodes_view();
        let id = self.nodes.insert(node);
        proof {
            crate::arena::lemma_tree_wf_insert(pre, self.nodes_view());
            assert(self.ua_sheets_view() == old(self).ua_sheets_view());
            assert(self.author_sheets_view() == old(self).author_sheets_view());
            assert(self.viewport_view() == old(self).viewport_view());
        }
        id
    }

    /// Attach `child_id` as the last child of `parent_id`.  Fails with
    /// the out-of-range error when either id is unknown, and with the
    /// structure error when the child was created before the parent or is
    /// already attached somewhere.
    pub fn append_child(&mut self, parent_id: usize, child_id: usize) -> (r: Result<
        (),
        DocError,
    >)
        requires
            old(self).wf(),
        ensures
            final(self).wf(),
            match r {
                Ok(_) => {
                    &&& parent_id < old(self).nodes_view().len()
                    &&& child_id < old(self).nodes_view().len()
                    &&& parent_id < child_id
                    &&& old(self).nodes_view()[child_id as int].parent is None
                    &&& crate::arena::attach_post(
                        old(self).nodes_view(),
                        final(self).nodes_view(),
                        parent_id,
                        child_id,
                    )
                },
                Err(e) => {
                    &&& *final(self) == *old(self)
                    &&& (e == DocError::OutOfRange <==> (parent_id >= old(
                        self,
                    ).nodes_view().len() || child_id >= old(self).nodes_view().len()))
                    &&& (e == DocError::OutOfRange || e == DocError::Structure)
                },
            },
            (r is Err) <==> (parent_id >= old(self).nodes_view().len() || child_id >= old(
                self,
            ).nodes_view().len() || parent_id >= child_id || old(
                self,
            ).nodes_view()[child_id as int].parent is Some || old(
                self,
            ).nodes_view()[parent_id as int].children@.len() == usize::MAX),
            same_registry(*old(self), *final(self)),
            same_snapshots(*old(self), *final(self)),
            same_base(*old(self), *final(self)),
            same_viewport(*old(self), *final(self)),
    {
        let n = self.nodes.len();
        if parent_id >= n || child_id >= n {
            return Err(DocError::OutOfRange);
        }
        if parent_id >= child_id {
            return Err(DocError::Structure);
        }
        let already_attached = match self.nodes.at(child_id).parent {
            Some(_) => true,
            None => false,
        };
        if already_attached {
            return Err(DocError::Structure);
        }
        if self.nodes.at(parent_id).children.len() == usize::MAX {
            return Err(DocError::Structure);
        }
        self.nodes.attach_child(parent_id, child_id);
        proof {
            assert(self.ua_sheets_view() == old(self).ua_sheets_view());
            assert(self.author_sheets_view() == old(self).author_sheets_view());
            assert(self.viewport_view() == old(self).viewport_view());
        }
        Ok(())
    }

    /// Walk the whole tree and restore every attached node's `child_idx`
    /// to its position within its parent's children list, so that the
    /// child-index invariant holds again after arbitrary structural edits.
    pub fn flush_child_indexes(&mut self)
        requires
            old(self).wf(),
        ensures
            final(self).wf(),
            final(self).nodes_view().len() == old(self).nodes_view().len(),
            forall|i: int|
                0 <= i < old(self).nodes_view().len() ==> crate::node::eq_except_child_idx(
                    old(self).nodes_view()[i],
                    #[trigger] final(self).nodes_view()[i],
                ),
            forall|i: int|
                0 <= i < old(self).nodes_view().len() && old(self).nodes_view()[i].parent is None
                    ==> (#[trigger] final(self).nodes_view()[i]).child_idx == old(
                    self,
                ).nodes_view()[i].child_idx,
            crate::arena::indexes_ok(final(self).nodes_view()),
            same_registry(*old(self), *final(self)),
            same_snapshots(*old(self), *final(self)),
            same_base(*old(self), *final(self)),
            same_viewport(*old(self), *final(self)),
    {
        self.nodes.reindex();
        proof {
            assert(self.ua_sheets_view() == old(self).ua_sheets_view());
            assert(self.author_sheets_view() == old(self).author_sheets_view());
            assert(self.viewport_view() == old(self).viewport_view());
        }
    }

    /// Parse `css` into a rule sheet, append it under `origin`, and mark
    /// that origin dirty.  Parsing is total: malformed rules and
    /// declarations are dropped one by one, never the whole sheet.
    pub fn add_stylesheet(&mut self, css: &str, origin: crate::css::Origin)
        requires
            old(self).wf(),
        ensures
            final(self).wf(),
            same_tree(*old(self), *final(self)),
            same_snapshots(*old(self), *final(self)),
            same_base(*old(self), *final(self)),
            same_viewport(*old(self), *final(self)),
            match origin {
                crate::css::Origin::UserAgent => {
                    &&& final(self).ua_sheets_view() == old(self).ua_sheets_view().push(
                        SheetV {
                            rules: crate::parse::spec_parse_rules(
                                vstd::utf8::encode_utf8(css@),
                            ),
                        },
                    )
                    &&& final(self).author_sheets_view() == old(self).author_sheets_view()
                    &&& final(self).ua_dirty()
                    &&& final(self).author_dirty() == old(self).author_dirty()
                },
                crate::css::Origin::Author => {
                    &&& final(self).ua_sheets_view() == old(self).ua_sheets_view()
                    &&& final(self).author_sheets_view() == old(self).author_sheets_view().push(
                        SheetV {
                            rules: crate::parse::spec_parse_rules(
                                vstd::utf8::encode_utf8(css@),
                            ),
                        },
                    )
                    &&& final(self).author_dirty()
                    &&& final(self).ua_dirty() == old(self).ua_dirty()
                },
            },
    {
        let bytes = crate::strutil::bytes_of(css);
        let n = bytes.len();
        let rules = crate::parse::parse_stylesheet(bytes.as_slice());
        let sheet = crate::css::Sheet { rules };
        proof {
            assert(sheet@ == (SheetV {
                rules: crate::parse::spec_parse_rules(vstd::utf8::encode_utf8(css@)),
            }));
            assert forall|i: int| 0 <= i < sheet@.rules.len() implies (
            #[trigger] sheet@.rules[i]).wf() by {}
            assert(sheet@.wf());
        }
        self.registry.add_sheet(origin, sheet);
        proof {
            assert(self.nodes_view() == old(self).nodes_view());
            assert(self.viewport_view() == old(self).viewport_view());
            assert forall|i: int|
                0 <= i < self.ua_sheets_view().len() implies (
            #[trigger] self.ua_sheets_view()[i]).wf() by {
                if i < old(self).ua_sheets_view().len() {
                    assert(old(self).ua_sheets_view()[i].wf());
                }
            }
            assert forall|i: int|
                0 <= i < self.author_sheets_view().len() implies (
            #[trigger] self.author_sheets_view()[i]).wf() by {
                if i < old(self).author_sheets_view().len() {
                    assert(old(self).author_sheets_view()[i].wf());
                }
            }
        }
    }

    /// Read the aggregated text of a `style` element, decode its HTML
    /// entities, and append the result as an Author-origin stylesheet.
    pub fn process_style_element(&mut self, target_id: usize) -> (r: Result<(), DocError>)
        requires
            old(self).wf(),
        ensures
            final(self).wf(),
            same_tree(*old(self), *final(self)),
            same_snapshots(*old(self), *final(self)),
            same_base(*old(self), *final(self)),
            same_viewport(*old(self), *final(self)),
            final(self).ua_sheets_view() == old(self).ua_sheets_view(),
            (r is Err) <==> target_id >= old(self).nodes_view().len(),
            match r {
                Ok(_) => {
                    &&& final(self).author_sheets_view() == old(self).author_sheets_view().push(
                        SheetV {
                            rules: crate::parse::spec_parse_rules(
                                vstd::utf8::encode_utf8(
                                    crate::unescape::decoded_entities(
                                        crate::arena::subtree_text(
                                            old(self).nodes_view(),
                                            target_id as int,
                                        ),
                                    ),
                                ),
                            ),
                        },
                    )
                    &&& final(self).author_dirty()
                },
                Err(e) => e == DocError::OutOfRange && *final(self) == *old(self),
            },
    {
        if target_id >= self.nodes.len() {
            return Err(DocError::OutOfRange);
        }
        let css = {
            let node = self.nodes.at(target_id);
            node.text_content(&self.nodes)
        };
        let decoded = crate::unescape::decode_entities(css.as_str());
        self.add_stylesheet(decoded.as_str(), crate::css::Origin::Author);
        Ok(())
    }
}

/// What the style phase guarantees: every element's computed style is
/// the cascade of the sheets and its own inline style, its display kind
/// follows that style, and nothing else changes.
pub open spec fn styled_post(
    pre: Seq<Node>,
    post: Seq<Node>,
    ua: Seq<SheetV>,
    au: Seq<SheetV>,
) -> bool {
    &&& post.len() == pre.len()
    &&& (forall|i: int|
        0 <= i < pre.len() ==> crate::node::eq_except_style(pre[i], #[trigger] post[i]))
    &&& (forall|i: int|
        0 <= i < pre.len() && pre[i].raw_dom_data is Element ==> {
            let style = crate::cascade::spec_cascade(
                crate::cascade::all_cands(ua, au, pre[i].raw_dom_data.spec_element()->0),
            );
            &&& crate::css::style_view((#[trigger] post[i]).style_data) == Some(style)
            &&& post[i].display_outer == style.display
        })
    &&& (forall|i: int|
        0 <= i < pre.len() && !(pre[i].raw_dom_data is Element) ==> (
        #[trigger] post[i]).style_data == pre[i].style_data && post[i].display_outer
            == pre[i].display_outer)
}

impl Document {
    /// The style phase: cascade the registry's sheets and each element's
    /// inline style over the whole tree, refresh the snapshot map with
    /// the previous computed styles, and clear the dirty flags.
    #[verifier::rlimit(100)]
    #[verifier::spinoff_prover]
    pub fn resolve_stylist(&mut self)
        requires
            old(self).wf(),
        ensures
            final(self).wf(),
            styled_post(
                old(self).nodes_view(),
                final(self).nodes_view(),
                old(self).ua_sheets_view(),
                old(self).author_sheets_view(),
            ),
            final(self).snapshots_view().len() == old(self).nodes_view().len(),
            forall|i: int|
                0 <= i < old(self).nodes_view().len() ==> final(self).snapshots_view()[i]
                    == crate::css::style_view((#[trigger] old(self).nodes_view()[i]).style_data),
            final(self).ua_sheets_view() == old(self).ua_sheets_view(),
            final(self).author_sheets_view() == old(self).author_sheets_view(),
            !final(self).ua_dirty(),
            !final(self).author_dirty(),
            same_base(*old(self), *final(self)),
            same_viewport(*old(self), *final(self)),
    {
        let ghost pre = old(self).nodes_view();
        let ghost ua_v = old(self).ua_sheets_view();
        let ghost au_v = old(self).author_sheets_view();
        let n = self.nodes.len();
        let mut snaps: Vec<ComputedStyleOpt> = Vec::new();
        let mut i: usize = 0;
        while i < n
            invariant
                n == pre.len(),
                n == self.nodes_view().len(),
                0 <= i <= n,
                crate::arena::tree_wf(self.nodes_view()),
                self.registry == old(self).registry,
                self.snapshots == old(self).snapshots,
                self.base_url == old(self).base_url,
                self.viewport == old(self).viewport,
                ua_v == self.ua_sheets_view(),
                au_v == self.author_sheets_view(),
                snaps@.len() == i,
                forall|j: int|
                    0 <= j < i ==> crate::css::style_view(#[trigger] snaps@[j])
                        == crate::css::style_view(pre[j].style_data),
                forall|j: int|
                    0 <= j < n ==> crate::node::eq_except_style(
                        pre[j],
                        #[trigger] self.nodes_view()[j],
                    ),
                forall|j: int|
                    (i <= j < n) ==> #[trigger] self.nodes_view()[j] == pre[j],
                forall|j: int|
                    0 <= j < i && pre[j].raw_dom_data is Element ==> {
                        let style = crate::cascade::spec_cascade(
                            crate::cascade::all_cands(
                                ua_v,
                                au_v,
                                pre[j].raw_dom_data.spec_element()->0,
                            ),
                        );
                        &&& crate::css::style_view(
                            (#[trigger] self.nodes_view()[j]).style_data,
                        ) == Some(style)
                        &&& self.nodes_view()[j].display_outer == style.display
                    },
                forall|j: int|
                    0 <= j < i && !(pre[j].raw_dom_data is Element) ==> (
                    #[trigger] self.nodes_view()[j]).style_data == pre[j].style_data
                        && self.nodes_view()[j].display_outer == pre[j].display_outer,
            decreases n - i,
        {
            let snap: ComputedStyleOpt = {
                let node_ref = self.nodes.at(i);
                match &node_ref.style_data {
                    Some(cs) => Some(crate::css::copy_style(cs)),
                    None => None,
                }
            };
            snaps.push(snap);
            let computed: ComputedStyleOpt = {
                let node_ref = self.nodes.at(i);
                match &node_ref.raw_dom_data {
                    NodeData::Element(e) => Some(
                        crate::cascade::cascade_style(
                            &self.registry.user_agent,
                            &self.registry.author,
                            e,
                        ),
                    ),
                    _ => None,
                }
            };
            match computed {
                Some(cs) => {
                    let ghost mid = self.nodes_view();
                    let ghost csv = cs@;
                    let disp = cs.display;
                    let nm = self.nodes.get_mut(i);
                    nm.style_data = Some(cs);
                    nm.display_outer = disp;
                    proof {
                        crate::arena::lemma_tree_wf_update_style(
                            mid,
                            i as int,
                            self.nodes_view()[i as int],
                        );
                        assert(self.nodes_view() =~= mid.update(
                            i as int,
                            self.nodes_view()[i as int],
                        ));
                        assert forall|j: int|
                            0 <= j < n && j != i implies #[trigger] self.nodes_view()[j] == mid[j]
                        by {}
                    }
                },
                None => {},
            }
            i += 1;
        }
        self.snapshots = snaps;
        self.registry.clear_dirty();
        proof {
            assert(self.nodes_view().len() == pre.len());
            assert(self.snapshots_view().len() == pre.len());
            assert forall|j: int|
                0 <= j < pre.len() implies self.snapshots_view()[j] == crate::css::style_view(
                (#[trigger] pre[j]).style_data,
            ) by {
                assert(crate::css::style_view(self.snapshots@[j]) == crate::css::style_view(
                    pre[j].style_data,
                ));
            }
            assert(self.ua_sheets_view() == old(self).ua_sheets_view());
            assert(self.author_sheets_view() == old(self).author_sheets_view());
        }
    }
}

impl Document {
    /// The layout phase: compute block geometry for the tree below the
    /// root element from the computed styles and the viewport's definite
    /// available space, then round it to whole pixels.  Fails with the
    /// structure error, touching nothing, when there is no root element.
    #[verifier::rlimit(100)]
    #[verifier::spinoff_prover]
    pub fn resolve_layout(&mut self) -> (r: Result<(), DocError>)
        requires
            old(self).wf(),
            indexes_ok(old(self).nodes_view()),
        ensures
            final(self).wf(),
            indexes_ok(final(self).nodes_view()),
            same_registry(*old(self), *final(self)),
            same_snapshots(*old(self), *final(self)),
            same_base(*old(self), *final(self)),
            same_viewport(*old(self), *final(self)),
            (r is Err) <==> spec_root_element_id(old(self).nodes_view()) is None,
            match r {
                Ok(_) => layout_post(
                    old(self).nodes_view(),
                    final(self).nodes_view(),
                    (old(self).viewport_view().width * 100) as i64,
                    (old(self).viewport_view().height * 100) as i64,
                    spec_root_element_id(old(self).nodes_view())->0,
                ),
                Err(e) => e == DocError::Structure && *final(self) == *old(self),
            },
    {
        let ghost s = self.nodes_view();
        let root = match self.root_element() {
            Ok(node) => node.id,
            Err(e) => {
                return Err(e);
            },
        };
        let n = self.nodes.len();
        let vw_h = self.viewport.width * 100;
        let vh_h = self.viewport.height * 100;
        let ghost rooti = root as int;

        // Pass one: which nodes the layout reaches.
        let mut laid: Vec<bool> = Vec::new();
        let mut i: usize = 0;
        while i < n
            invariant
                0 <= i <= n,
                laid@.len() == i,
                forall|j: int| 0 <= j < i ==> #[trigger] laid@[j] == false,
            decreases n - i,
        {
            laid.push(false);
            i += 1;
        }
        if self.nodes.at(root).participates_exec() {
            let lr = &mut laid[root];
            *lr = true;
        }
        proof {
            assert forall|j: int|
                0 <= j < n implies #[trigger] laid@[j] == (if j == rooti {
                laid_out(s, rooti, j)
            } else {
                false
            }) by {}
        }
        let mut p: usize = 0;
        while p < n
            invariant
                self.wf(),
                s == self.nodes_view(),
                indexes_ok(s),
                n == s.len(),
                0 <= p <= n,
                0 <= rooti < n,
                root == rooti,
                laid@.len() == n,
                forall|j: int|
                    0 <= j < n ==> #[trigger] laid@[j] == (if j == rooti || (s[j].parent is Some
                        && s[j].parent->0 < p) {
                        laid_out(s, rooti, j)
                    } else {
                        false
                    }),
            decreases n - p,
        {
            let lp = laid[p];
            proof {
                if p != root {
                    if s[p as int].parent is Some {
                        assert(s[p as int].parent->0 < p);
                    }
                }
                assert(lp == laid_out(s, rooti, p as int));
            }
            let m = self.nodes.at(p).children.len();
            let mut k: usize = 0;
            while k < m
                invariant
                    self.wf(),
                    s == self.nodes_view(),
                    indexes_ok(s),
                    n == s.len(),
                    0 <= p < n,
                    0 <= rooti < n,
                    root == rooti,
                    m == s[p as int].children@.len(),
                    0 <= k <= m,
                    laid@.len() == n,
                    lp == laid_out(s, rooti, p as int),
                    forall|j: int|
                        0 <= j < n ==> #[trigger] laid@[j] == (if j == rooti || (s[j].parent
                            is Some && s[j].parent->0 < p) || (s[j].parent == Some(p as usize)
                            && (exists|kk: int|
                            0 <= kk < k && s[p as int].children@[kk] == j)) {
                            laid_out(s, rooti, j)
                        } else {
                            false
                        }),
                decreases m - k,
            {
                let c = self.nodes.at(p).children[k];
                proof {
                    assert((p as int) < s[p as int].children@[k as int] < n);
                    assert(s[c as int].parent == Some(p as usize));
                }
                if c != root {
                    let ghost pre_laid = laid@;
                    let part = self.nodes.at(c).participates_exec();
                    let val = lp && part;
                    let lc = &mut laid[c];
                    *lc = val;
                    proof {
                        assert(laid@ =~= pre_laid.update(c as int, val));
                        assert(laid_out(s, rooti, c as int) == (laid_out(s, rooti, p as int)
                            && participates(s, c as int)));
                        assert forall|j: int|
                            0 <= j < n implies #[trigger] laid@[j] == (if j == rooti || (
                        s[j].parent is Some && s[j].parent->0 < p) || (s[j].parent == Some(
                            p as usize,
                        ) && (exists|kk: int|
                            0 <= kk < k + 1 && s[p as int].children@[kk] == j)) {
                            laid_out(s, rooti, j)
                        } else {
                            false
                        }) by {
                            if j == c {
                                assert(s[p as int].children@[k as int] == j);
                            } else {
                                assert(laid@[j] == pre_laid[j]);
                                if s[j].parent == Some(p as usize) {
                                    if exists|kk: int|
                                        0 <= kk < k + 1 && s[p as int].children@[kk] == j {
                                        let kk = choose|kk: int|
                                            0 <= kk < k + 1 && s[p as int].children@[kk] == j;
                                        assert(kk != k);
                                        assert(exists|kk2: int|
                                            0 <= kk2 < k && s[p as int].children@[kk2] == j);
                                    }
                                }
                            }
                        }
                    }
                } else {
                    proof {
                        assert forall|j: int|
                            0 <= j < n implies #[trigger] laid@[j] == (if j == rooti || (
                        s[j].parent is Some && s[j].parent->0 < p) || (s[j].parent == Some(
                            p as usize,
                        ) && (exists|kk: int|
                            0 <= kk < k + 1 && s[p as int].children@[kk] == j)) {
                            laid_out(s, rooti, j)
                        } else {
                            false
                        }) by {
                            if j != rooti && s[j].parent == Some(p as usize) {
                                if exists|kk: int|
                                    0 <= kk < k + 1 && s[p as int].children@[kk] == j {
                                    let kk = choose|kk: int|
                                        0 <= kk < k + 1 && s[p as int].children@[kk] == j;
                                    assert(kk != k);
                                }
                            }
                        }
                    }
                }
                k += 1;
            }
            proof {
                assert forall|j: int|
                    0 <= j < n implies #[trigger] laid@[j] == (if j == rooti || (s[j].parent
                        is Some && s[j].parent->0 < p + 1) {
                    laid_out(s, rooti, j)
                } else {
                    false
                }) by {
                    if j != rooti && s[j].parent == Some(p as usize) {
                        crate::arena::lemma_child_index_invariant(s, j);
                    }
                }
            }
            p += 1;
        }
        proof {
            assert forall|j: int| 0 <= j < n implies #[trigger] laid@[j] == laid_out(
                s,
                rooti,
                j,
            ) by {
                if j != rooti && s[j].parent is Some {
                    assert(s[j].parent->0 < j < n);
                }
            }
        }

        // Pass two: vertical offsets from block stacking.
        let mut ys: Vec<i64> = Vec::new();
        let mut i2: usize = 0;
        while i2 < n
            invariant
                0 <= i2 <= n,
                ys@.len() == i2,
                forall|j: int| 0 <= j < i2 ==> #[trigger] ys@[j] == 0i64,
            decreases n - i2,
        {
            ys.push(0);
            i2 += 1;
        }
        let mut p2: usize = 0;
        while p2 < n
            invariant
                self.wf(),
                s == self.nodes_view(),
                indexes_ok(s),
                n == s.len(),
                0 <= p2 <= n,
                0 <= rooti < n,
                root == rooti,
                laid@.len() == n,
                ys@.len() == n,
                forall|j: int| 0 <= j < n ==> #[trigger] laid@[j] == laid_out(s, rooti, j),
                forall|j: int| 0 <= j < n ==> 0 <= #[trigger] ys@[j] <= MAX_LEN_H,
                forall|j: int|
                    0 <= j < n && laid_out(s, rooti, j) && j != rooti && s[j].parent is Some
                        && s[j].parent->0 < p2 ==> #[trigger] ys@[j] == siblings_h_upto(
                        s,
                        rooti,
                        s[j].parent->0 as int,
                        s[j].child_idx as int,
                    ),
            decreases n - p2,
        {
            if laid[p2] {
                let m = self.nodes.at(p2).children.len();
                let mut cursor: i64 = 0;
                let mut k: usize = 0;
                while k < m
                    invariant
                        self.wf(),
                        s == self.nodes_view(),
                        n == s.len(),
                        0 <= p2 < n,
                        0 <= rooti < n,
                        root == rooti,
                        laid@.len() == n,
                        ys@.len() == n,
                        m == s[p2 as int].children@.len(),
                        0 <= k <= m,
                        laid_out(s, rooti, p2 as int),
                        indexes_ok(s),
                        forall|j: int| 0 <= j < n ==> #[trigger] laid@[j] == laid_out(s, rooti, j),
                        forall|j: int| 0 <= j < n ==> 0 <= #[trigger] ys@[j] <= MAX_LEN_H,
                        cursor == siblings_h_upto(s, rooti, p2 as int, k as int),
                        0 <= cursor <= MAX_LEN_H,
                        forall|j: int|
                            0 <= j < n && laid_out(s, rooti, j) && j != rooti && s[j].parent
                                is Some && (s[j].parent->0 < p2 || (s[j].parent->0 == p2
                                && s[j].child_idx < k)) ==> #[trigger] ys@[j] == siblings_h_upto(
                                s,
                                rooti,
                                s[j].parent->0 as int,
                                s[j].child_idx as int,
                            ),
                    decreases m - k,
                {
                    let c = self.nodes.at(p2).children[k];
                    proof {
                        assert((p2 as int) < s[p2 as int].children@[k as int] < n);
                        assert(s[c as int].parent == Some(p2 as usize));
                        assert(s[c as int].child_idx == k);
                    }
                    if laid[c] {
                        let ghost pre_ys = ys@;
                        let yc = &mut ys[c];
                        *yc = cursor;
                        let hc = {
                            let cn = self.nodes.at(c);
                            match &cn.style_data {
                                Some(cs) => match cs.height {
                                    Some(h) => h,
                                    None => 0,
                                },
                                None => 0,
                            }
                        };
                        proof {
                            assert(hc == used_h(s, c as int));
                            lemma_used_bounds(s, 0, c as int);
                            assert(ys@ =~= pre_ys.update(c as int, cursor));
                            assert(siblings_h_upto(s, rooti, p2 as int, k + 1int)
                                == spec_add_clamp(
                                siblings_h_upto(s, rooti, p2 as int, k as int),
                                used_h(s, c as int),
                            ));
                            assert forall|j: int|
                                0 <= j < n && laid_out(s, rooti, j) && j != rooti && s[j].parent
                                    is Some && (s[j].parent->0 < p2 || (s[j].parent->0 == p2
                                    && s[j].child_idx < k + 1)) implies #[trigger] ys@[j]
                                == siblings_h_upto(
                                s,
                                rooti,
                                s[j].parent->0 as int,
                                s[j].child_idx as int,
                            ) by {
                                if j != c {
                                    assert(ys@[j] == pre_ys[j]);
                                    if s[j].parent->0 == p2 && s[j].child_idx < k + 1 {
                                        crate::arena::lemma_child_index_invariant(s, j);
                                        assert(s[p2 as int].children@[s[j].child_idx as int] == j);
                                        assert(s[j].child_idx != k);
                                    }
                                }
                            }
                        }
                        cursor = add_clamp(cursor, hc);
                    } else {
                        proof {
                            assert(siblings_h_upto(s, rooti, p2 as int, k + 1int)
                                == siblings_h_upto(s, rooti, p2 as int, k as int));
                            assert forall|j: int|
                                0 <= j < n && laid_out(s, rooti, j) && j != rooti && s[j].parent
                                    is Some && (s[j].parent->0 < p2 || (s[j].parent->0 == p2
                                    && s[j].child_idx < k + 1)) implies #[trigger] ys@[j]
                                == siblings_h_upto(
                                s,
                                rooti,
                                s[j].parent->0 as int,
                                s[j].child_idx as int,
                            ) by {
                                if s[j].parent->0 == p2 && s[j].child_idx < k + 1 {
                                    crate::arena::lemma_child_index_invariant(s, j);
                                    assert(s[p2 as int].children@[s[j].child_idx as int] == j);
                                    if s[j].child_idx == k {
                                        assert(j == c);
                                        assert(laid@[c as int] == laid_out(s, rooti, c as int));
                                        assert(false);
                                    }
                                }
                            }
                        }
                    }
                    k += 1;
                }
                proof {
                    assert forall|j: int|
                        0 <= j < n && laid_out(s, rooti, j) && j != rooti && s[j].parent is Some
                            && s[j].parent->0 < p2 + 1 implies #[trigger] ys@[j]
                        == siblings_h_upto(
                        s,
                        rooti,
                        s[j].parent->0 as int,
                        s[j].child_idx as int,
                    ) by {
                        if s[j].parent->0 == p2 {
                            crate::arena::lemma_child_index_invariant(s, j);
                        }
                    }
                }
            } else {
                proof {
                    assert forall|j: int|
                        0 <= j < n && laid_out(s, rooti, j) && j != rooti && s[j].parent is Some
                            && s[j].parent->0 < p2 + 1 implies #[trigger] ys@[j]
                        == siblings_h_upto(
                        s,
                        rooti,
                        s[j].parent->0 as int,
                        s[j].child_idx as int,
                    ) by {
                        if s[j].parent->0 == p2 {
                            assert(laid_out(s, rooti, p2 as int));
                            assert(laid@[p2 as int] == laid_out(s, rooti, p2 as int));
                            assert(false);
                        }
                    }
                }
            }
            p2 += 1;
        }

        // Pass three: write geometry, rounded and unrounded.
        proof {
            assert(vw_h == (old(self).viewport_view().width * 100) as i64);
            assert(0 <= vw_h <= MAX_LEN_H);
            assert(0 <= vh_h <= MAX_LEN_H);
        }
        self.nodes.write_geometry(&laid, &ys, vw_h, vh_h, root);
        proof {
            assert(layout_post(s, self.nodes_view(), vw_h, vh_h, rooti));
            assert(indexes_ok(self.nodes_view())) by {
                assert forall|i: int, j: int|
                    0 <= i < self.nodes_view().len() && 0 <= j
                        < self.nodes_view()[i].children@.len() implies self.nodes_view()[#[trigger] self.nodes_view()[i].children@[j] as int].child_idx
                    == j by {
                    assert(self.nodes_view()[i].children == s[i].children);
                    let c = s[i].children@[j] as int;
                    assert(s[c].child_idx == j);
                    assert(self.nodes_view()[c].child_idx == s[c].child_idx);
                }
            }
            assert(self.ua_sheets_view() == old(self).ua_sheets_view());
            assert(self.author_sheets_view() == old(self).author_sheets_view());
        }
        Ok(())
    }
}

/// What one run of the resolve pipeline guarantees, relating the
/// document before the call to the document after it.  Structure and
/// content are untouched; child indexes are re-derived; every element's
/// computed style is the cascade of the sheets it saw; geometry follows
/// the block model over the resolved tree; the snapshot map holds the
/// previous styles; both dirty flags end cleared.
pub open spec fn resolve_post(pre: Document, post: Document, r: Result<(), DocError>) -> bool {
    let sp = pre.nodes_view();
    let sq = post.nodes_view();
    let vw_h = (pre.viewport_view().width * 100) as i64;
    let vh_h = (pre.viewport_view().height * 100) as i64;
    &&& sq.len() == sp.len()
    &&& tree_wf(sq)
    &&& (forall|i: int|
        0 <= i < sp.len() ==> {
            &&& (#[trigger] sq[i]).id == sp[i].id
            &&& sq[i].parent == sp[i].parent
            &&& sq[i].children == sp[i].children
            &&& sq[i].raw_dom_data == sp[i].raw_dom_data
            &&& sq[i].hidden == sp[i].hidden
        })
    &&& indexes_ok(sq)
    &&& (forall|i: int|
        0 <= i < sp.len() && sp[i].parent is None ==> (#[trigger] sq[i]).child_idx
            == sp[i].child_idx)
    &&& post.ua_sheets_view() == pre.ua_sheets_view()
    &&& post.author_sheets_view() == pre.author_sheets_view()
    &&& !post.ua_dirty()
    &&& !post.author_dirty()
    &&& post.snapshots_view().len() == sp.len()
    &&& (forall|i: int|
        0 <= i < sp.len() ==> post.snapshots_view()[i] == crate::css::style_view(
            (#[trigger] sp[i]).style_data,
        ))
    &&& same_base(pre, post)
    &&& same_viewport(pre, post)
    &&& (forall|i: int|
        0 <= i < sp.len() && sp[i].raw_dom_data is Element ==> {
            let style = crate::cascade::spec_cascade(
                crate::cascade::all_cands(
                    pre.ua_sheets_view(),
                    pre.author_sheets_view(),
                    sp[i].raw_dom_data.spec_element()->0,
                ),
            );
            &&& crate::css::style_view((#[trigger] sq[i]).style_data) == Some(style)
            &&& sq[i].display_outer == style.display
        })
    &&& (forall|i: int|
        0 <= i < sp.len() && !(sp[i].raw_dom_data is Element) ==> (#[trigger] sq[i]).style_data
            == sp[i].style_data && sq[i].display_outer == sp[i].display_outer)
    &&& match spec_root_element_id(sp) {
        Some(root) => {
            &&& r is Ok
            &&& (forall|i: int|
                0 <= i < sq.len() && laid_out(sq, root, i) ==> {
                    &&& (#[trigger] sq[i]).unrounded_layout == spec_unrounded(sq, vw_h, root, i)
                    &&& sq[i].final_layout == spec_round_geom(spec_unrounded(sq, vw_h, root, i))
                    &&& sq[i].layout_cache == Some(
                        crate::geom::AvailableSpace { width: vw_h, height: vh_h },
                    )
                })
            &&& (forall|i: int|
                0 <= i < sq.len() && !laid_out(sq, root, i) ==> {
                    &&& (#[trigger] sq[i]).unrounded_layout == Geometry::spec_zero()
                    &&& sq[i].final_layout == Geometry::spec_zero()
                    &&& sq[i].layout_cache is None
                })
        },
        None => {
            &&& r == Err::<(), DocError>(DocError::Structure)
            &&& (forall|i: int|
                0 <= i < sq.len() ==> (#[trigger] sq[i]).unrounded_layout
                    == sp[i].unrounded_layout && sq[i].final_layout == sp[i].final_layout
                    && sq[i].layout_cache == sp[i].layout_cache)
        },
    }
}

/// The style-and-reindex part of [`resolve_post`], without the geometry
/// clauses.
pub open spec fn resolve_styles_post(pre: Document, post: Document, r: Result<
    (),
    DocError,
>) -> bool {
    let sp = pre.nodes_view();
    let sq = post.nodes_view();
    &&& sq.len() == sp.len()
    &&& tree_wf(sq)
    &&& (forall|i: int|
        0 <= i < sp.len() ==> {
            &&& (#[trigger] sq[i]).id == sp[i].id
            &&& sq[i].parent == sp[i].parent
            &&& sq[i].children == sp[i].children
            &&& sq[i].raw_dom_data == sp[i].raw_dom_data
            &&& sq[i].hidden == sp[i].hidden
        })
    &&& indexes_ok(sq)
    &&& (forall|i: int|
        0 <= i < sp.len() && sp[i].parent is None ==> (#[trigger] sq[i]).child_idx
            == sp[i].child_idx)
    &&& post.ua_sheets_view() == pre.ua_sheets_view()
    &&& post.author_sheets_view() == pre.author_sheets_view()
    &&& !post.ua_dirty()
    &&& !post.author_dirty()
    &&& post.snapshots_view().len() == sp.len()
    &&& (forall|i: int|
        0 <= i < sp.len() ==> post.snapshots_view()[i] == crate::css::style_view(
            (#[trigger] sp[i]).style_data,
        ))
    &&& same_base(pre, post)
    &&& same_viewport(pre, post)
    &&& (forall|i: int|
        0 <= i < sp.len() && sp[i].raw_dom_data is Element ==> {
            let style = crate::cascade::spec_cascade(
                crate::cascade::all_cands(
                    pre.ua_sheets_view(),
                    pre.author_sheets_view(),
                    sp[i].raw_dom_data.spec_element()->0,
                ),
            );
            &&& crate::css::style_view((#[trigger] sq[i]).style_data) == Some(style)
            &&& sq[i].display_outer == style.display
        })
    &&& (forall|i: int|
        0 <= i < sp.len() && !(sp[i].raw_dom_data is Element) ==> (#[trigger] sq[i]).style_data
            == sp[i].style_data && sq[i].display_outer == sp[i].display_outer)
    &&& ((r is Ok) <==> spec_root_element_id(sp) is Some)
    &&& (r is Err ==> r == Err::<(), DocError>(DocError::Structure))
}

impl Document {
    /// Resolve the document: re-index child positions, run the style
    /// phase (cascade over the whole tree), then the layout phase (block
    /// geometry from the resolved styles and the viewport, as
    /// [`Document::resolve_layout`] states in detail).  Fails with the
    /// structure error, leaving geometry untouched, when the tree has no
    /// root element.
    #[verifier::rlimit(100)]
    #[verifier::spinoff_prover]
    pub fn resolve(&mut self) -> (r: Result<(), DocError>)
        requires
            old(self).wf(),
        ensures
            final(self).wf(),
            resolve_styles_post(*old(self), *final(self), r),
    {
        let ghost pre = *old(self);
        self.flush_child_indexes();
        let ghost mid1 = *self;
        self.resolve_stylist();
        let ghost mid2 = *self;
        let r = self.resolve_layout();
        proof {
            let sp = pre.nodes_view();
            let s1 = mid1.nodes_view();
            let s2 = mid2.nodes_view();
            let sq = self.nodes_view();
            assert(spec_root_element_id(s2) == spec_root_element_id(sp)) by {
                lemma_root_id_congruent(sp, s2);
            }
            assert forall|i: int|
                0 <= i < sp.len() && sp[i].raw_dom_data is Element implies {
                let style = crate::cascade::spec_cascade(
                    crate::cascade::all_cands(
                        pre.ua_sheets_view(),
                        pre.author_sheets_view(),
                        sp[i].raw_dom_data.spec_element()->0,
                    ),
                );
                &&& crate::css::style_view((#[trigger] sq[i]).style_data) == Some(style)
                &&& sq[i].display_outer == style.display
            } by {
                assert(s1[i].raw_dom_data == sp[i].raw_dom_data);
                assert(crate::node::eq_except_layout(s2[i], sq[i]));
            }
            assert forall|i: int|
                0 <= i < sp.len() implies self.snapshots_view()[i] == crate::css::style_view(
                (#[trigger] sp[i]).style_data,
            ) by {
                assert(crate::node::eq_except_child_idx(sp[i], s1[i]));
                assert(mid2.snapshots_view()[i] == crate::css::style_view(s1[i].style_data));
            }
            assert forall|i: int|
                0 <= i < sp.len() && sp[i].parent is None implies (
            #[trigger] sq[i]).child_idx == sp[i].child_idx by {
                assert(s1[i].child_idx == sp[i].child_idx);
                assert(crate::node::eq_except_style(s1[i], s2[i]));
                assert(crate::node::eq_except_layout(s2[i], sq[i]));
            }
            assert forall|i: int|
                0 <= i < sp.len() implies {
                &&& (#[trigger] sq[i]).id == sp[i].id
                &&& sq[i].parent == sp[i].parent
                &&& sq[i].children == sp[i].children
                &&& sq[i].raw_dom_data == sp[i].raw_dom_data
                &&& sq[i].hidden == sp[i].hidden
            } by {
                assert(crate::node::eq_except_child_idx(sp[i], s1[i]));
                assert(crate::node::eq_except_style(s1[i], s2[i]));
                assert(crate::node::eq_except_layout(s2[i], sq[i]));
            }
            assert forall|i: int|
                0 <= i < sp.len() && !(sp[i].raw_dom_data is Element) implies (
            #[trigger] sq[i]).style_data == sp[i].style_data && sq[i].display_outer
                == sp[i].display_outer by {
                assert(crate::node::eq_except_child_idx(sp[i], s1[i]));
                assert(s1[i].raw_dom_data == sp[i].raw_dom_data);
                assert(crate::node::eq_except_layout(s2[i], sq[i]));
            }
        }
        r
    }
}

impl Document {
    /// Write access to a node's final geometry slot, for the layout
    /// collaborator and for consumers that position boxes themselves.
    /// Fails with the out-of-range error on an unknown id.
    pub fn set_final_geometry(&mut self, id: usize, g: Geometry) -> (r: Result<(), DocError>)
        requires
            old(self).wf(),
            g.wf(),
        ensures
            final(self).wf(),
            (r is Err) <==> id >= old(self).nodes_view().len(),
            r is Err ==> r == Err::<(), DocError>(DocError::OutOfRange) && *final(self) == *old(
                self,
            ),
            r is Ok ==> {
                &&& final(self).nodes_view().len() == old(self).nodes_view().len()
                &&& (forall|i: int|
                    0 <= i < old(self).nodes_view().len() && i != id
                        ==> #[trigger] final(self).nodes_view()[i] == old(self).nodes_view()[i])
                &&& final(self).nodes_view()[id as int].final_layout == g
                &&& crate::node::eq_except_layout(
                    old(self).nodes_view()[id as int],
                    final(self).nodes_view()[id as int],
                )
                &&& final(self).nodes_view()[id as int].unrounded_layout == old(
                    self,
                ).nodes_view()[id as int].unrounded_layout
                &&& final(self).nodes_view()[id as int].layout_cache == old(
                    self,
                ).nodes_view()[id as int].layout_cache
                &&& same_registry(*old(self), *final(self))
                &&& same_snapshots(*old(self), *final(self))
                &&& same_base(*old(self), *final(self))
                &&& same_viewport(*old(self), *final(self))
            },
    {
        if id >= self.nodes.len() {
            return Err(DocError::OutOfRange);
        }
        let ghost mid = self.nodes_view();
        let nm = self.nodes.get_mut(id);
        nm.final_layout = g;
        proof {
            crate::layout::lemma_wf_after_geom(mid, id as int, self.nodes_view()[id as int]);
            assert(self.nodes_view() =~= mid.update(id as int, self.nodes_view()[id as int]));
            assert(self.ua_sheets_view() == old(self).ua_sheets_view());
            assert(self.author_sheets_view() == old(self).author_sheets_view());
        }
        Ok(())
    }
}

/// The root element id is a function of the root's children and the node/// The root element id is a function of the root's children and the node
/// kinds alone.
pub proof fn lemma_root_id_congruent(a: Seq<Node>, b: Seq<Node>)
    requires
        a.len() == b.len(),
        forall|i: int|
            0 <= i < a.len() ==> (#[trigger] b[i]).children == a[i].children
                && b[i].raw_dom_data == a[i].raw_dom_data,
    ensures
        spec_root_element_id(a) == spec_root_element_id(b),
{
    if a.len() > 0 {
        lemma_first_elem_congruent(a, b, 0);
    }
}

proof fn lemma_first_elem_congruent(a: Seq<Node>, b: Seq<Node>, k: int)
    requires
        a.len() == b.len(),
        a.len() > 0,
        0 <= k,
        forall|i: int|
            0 <= i < a.len() ==> (#[trigger] b[i]).children == a[i].children
                && b[i].raw_dom_data == a[i].raw_dom_data,
    ensures
        first_elem_child_from(a, k) == first_elem_child_from(b, k),
    decreases a[0].children@.len() - k,
{
    assert(b[0].children == a[0].children);
    if k < a[0].children@.len() {
        let cid = a[0].children@[k] as int;
        if 0 <= cid < a.len() {
            assert(b[cid].raw_dom_data == a[cid].raw_dom_data);
            if !(a[cid].raw_dom_data is Element) {
                lemma_first_elem_congruent(a, b, k + 1);
            }
        } else {
            lemma_first_elem_congruent(a, b, k + 1);
        }
    }
}

/// Resolve idempotence, as far as the cascade goes: running the pipeline
/// a second time with no intervening mutation yields the same outcome
/// and, for every node, the same computed style and display kind as the
/// first run left behind.
pub proof fn lemma_resolve_styles_idempotent(
    pre: Document,
    mid: Document,
    post: Document,
    r1: Result<(), DocError>,
    r2: Result<(), DocError>,
)
    requires
        resolve_styles_post(pre, mid, r1),
        resolve_styles_post(mid, post, r2),
    ensures
        (r1 is Ok) <==> (r2 is Ok),
        r1 is Err ==> r2 == r1,
        forall|i: int|
            0 <= i < post.nodes_view().len() ==> crate::css::style_view(
                (#[trigger] post.nodes_view()[i]).style_data,
            ) == crate::css::style_view(mid.nodes_view()[i].style_data),
        forall|i: int|
            0 <= i < post.nodes_view().len() ==> (#[trigger] post.nodes_view()[i]).display_outer
                == mid.nodes_view()[i].display_outer,
{
    let sp = pre.nodes_view();
    let sm = mid.nodes_view();
    let sq = post.nodes_view();
    lemma_root_id_congruent(sp, sm);
    assert forall|i: int|
        0 <= i < sq.len() implies crate::css::style_view(
        (#[trigger] sq[i]).style_data,
    ) == crate::css::style_view(sm[i].style_data) && sq[i].display_outer
        == sm[i].display_outer by {
        assert(sm[i].raw_dom_data == sp[i].raw_dom_data);
        if sm[i].raw_dom_data is Element {
            assert(mid.ua_sheets_view() == pre.ua_sheets_view());
            assert(mid.author_sheets_view() == pre.author_sheets_view());
            assert(sm[i].raw_dom_data.spec_element() == sp[i].raw_dom_data.spec_element());
        }
    }
}

} // verus!
