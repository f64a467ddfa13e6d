use vstd::prelude::*;
use crate::arena::tree_wf;
use crate::css::ComputedStyleV;
use crate::geom::{spec_add_clamp, spec_round_geom, AvailableSpace, Geometry, MAX_LEN_H};
use crate::node::{eq_except_layout, DisplayOuter, Node, NodeData};

verus! {

//
// The box model of the layout phase, kept deliberately skeletal: blocks
// stack vertically at the left edge of their parent.  A box's width is
// its specified width, else the viewport width; its height is its
// specified height, else zero — intrinsic sizing would need text
// metrics, which are out of scope.  All values are in hundredths of a
// pixel; the final pass rounds them to whole pixels.
//
/// The computed style a node offers the layout phase.
pub open spec fn style_of(s: Seq<Node>, j: int) -> ComputedStyleV {
    match s[j].style_data {
        Some(cs) => cs@,
        None => ComputedStyleV::spec_default(),
    }
}

/// Whether a node takes part in layout at all: only elements whose
/// display kind is not `none`.
pub open spec fn participates(s: Seq<Node>, j: int) -> bool {
    s[j].raw_dom_data is Element && s[j].display_outer != DisplayOuter::NoDisplay
}

/// Whether a node is reached by the layout pass: it participates, and so
/// does every ancestor up to the layout root.
pub open spec fn laid_out(s: Seq<Node>, root: int, j: int) -> bool
    decreases j,
        when 0 <= j < s.len()
{
    if j == root {
        participates(s, j)
    } else {
        match s[j].parent {
            Some(p) => 0 <= p < j && laid_out(s, root, p as int) && participates(s, j),
            None => false,
        }
    }
}

/// The used width of a box: specified width, else the viewport width.
pub open spec fn used_w(s: Seq<Node>, vw_h: i64, j: int) -> i64 {
    match style_of(s, j).width {
        Some(w) => w,
        None => vw_h,
    }
}

/// The used height of a box: specified height, else zero.
pub open spec fn used_h(s: Seq<Node>, j: int) -> i64 {
    match style_of(s, j).height {
        Some(h) => h,
        None => 0,
    }
}

/// The vertical offset of the child at position `k`: the clamped sum of
/// the used heights of the laid-out siblings before it.
pub open spec fn siblings_h_upto(s: Seq<Node>, root: int, p: int, k: int) -> i64
    decreases k,
        when 0 <= p < s.len()
{
    if k <= 0 || k > s[p].children@.len() {
        0
    } else {
        let prev = siblings_h_upto(s, root, p, k - 1);
        let cid = s[p].children@[k - 1] as int;
        if p < cid < s.len() && laid_out(s, root, cid) {
            spec_add_clamp(prev, used_h(s, cid))
        } else {
            prev
        }
    }
}

/// The unrounded box of a laid-out node, in the coordinate space of its
/// parent: blocks stack at the left edge, the root sits at the origin.
pub open spec fn spec_unrounded(s: Seq<Node>, vw_h: i64, root: int, j: int) -> Geometry {
    Geometry {
        x: 0,
        y: if j == root {
            0
        } else {
            match s[j].parent {
                Some(p) => siblings_h_upto(s, root, p as int, s[j].child_idx as int),
                None => 0,
            }
        },
        width: used_w(s, vw_h, j),
        height: used_h(s, j),
    }
}

/// What the layout phase guarantees, relative to the styled tree it ran
/// on: laid-out nodes carry the block geometry of the model above, both
/// unrounded and pixel-rounded, and record the space they were given;
/// all other nodes carry zero geometry and no cache entry.
pub open spec fn layout_post(s: Seq<Node>, post: Seq<Node>, vw_h: i64, vh_h: i64, root: int) -> bool {
    &&& post.len() == s.len()
    &&& (forall|i: int| 0 <= i < s.len() ==> eq_except_layout(s[i], #[trigger] post[i]))
    &&& (forall|i: int|
        0 <= i < s.len() && laid_out(s, root, i) ==> {
            &&& (#[trigger] post[i]).unrounded_layout == spec_unrounded(s, vw_h, root, i)
            &&& post[i].final_layout == spec_round_geom(spec_unrounded(s, vw_h, root, i))
            &&& post[i].layout_cache == Some(AvailableSpace { width: vw_h, height: vh_h })
        })
    &&& (forall|i: int|
        0 <= i < s.len() && !laid_out(s, root, i) ==> {
            &&& (#[trigger] post[i]).unrounded_layout == Geometry::spec_zero()
            &&& post[i].final_layout == Geometry::spec_zero()
            &&& post[i].layout_cache is None
        })
}

/// Style slots hold bounded values, so used sizes are bounded.
pub proof fn lemma_used_bounds(s: Seq<Node>, vw_h: i64, j: int)
    requires
        tree_wf(s),
        0 <= j < s.len(),
        0 <= vw_h <= MAX_LEN_H,
    ensures
        0 <= used_w(s, vw_h, j) <= MAX_LEN_H,
        0 <= used_h(s, j) <= MAX_LEN_H,
{
    assert(s[j].style_data is Some ==> (s[j].style_data->0)@.wf());
}

/// Sibling offsets are bounded by the clamp.
pub proof fn lemma_siblings_bounds(s: Seq<Node>, root: int, p: int, k: int)
    requires
        tree_wf(s),
        0 <= p < s.len(),
    ensures
        0 <= siblings_h_upto(s, root, p, k) <= MAX_LEN_H,
    decreases k,
{
    if 0 < k <= s[p].children@.len() {
        lemma_siblings_bounds(s, root, p, k - 1);
    }
}

impl Node {
    /// Whether this node participates in layout.
    pub(crate) fn participates_exec(&self) -> (r: bool)
        ensures
            r == (self.raw_dom_data is Element && self.display_outer != DisplayOuter::NoDisplay),
    {
        let is_elem = matches!(self.raw_dom_data, NodeData::Element { .. });
        let shown = !matches!(self.display_outer, DisplayOuter::NoDisplay);
        is_elem && shown
    }
}

impl crate::arena::Arena {
    /// Write the block geometry of the model above into every node:
    /// laid-out nodes get their computed box, unrounded and rounded, plus
    /// the available space they were given; all others get zero geometry.
    #[verifier::rlimit(100)]
    #[verifier::spinoff_prover]
    pub(crate) fn write_geometry(
        &mut self,
        laid: &Vec<bool>,
        ys: &Vec<i64>,
        vw_h: i64,
        vh_h: i64,
        root: usize,
    )
        requires
            tree_wf(old(self)@),
            laid@.len() == old(self)@.len(),
            ys@.len() == old(self)@.len(),
            root < old(self)@.len(),
            0 <= vw_h <= MAX_LEN_H,
            0 <= vh_h <= MAX_LEN_H,
            forall|j: int|
                0 <= j < old(self)@.len() ==> #[trigger] laid@[j] == laid_out(
                    old(self)@,
                    root as int,
                    j,
                ),
            forall|j: int| 0 <= j < old(self)@.len() ==> 0 <= #[trigger] ys@[j] <= MAX_LEN_H,
            forall|j: int|
                0 <= j < old(self)@.len() && laid_out(old(self)@, root as int, j) && j != root
                    && old(self)@[j].parent is Some ==> #[trigger] ys@[j] == siblings_h_upto(
                    old(self)@,
                    root as int,
                    old(self)@[j].parent->0 as int,
                    old(self)@[j].child_idx as int,
                ),
        ensures
            tree_wf(final(self)@),
            layout_post(old(self)@, final(self)@, vw_h, vh_h, root as int),
    {
        let ghost s = self@;
        let ghost rooti = root as int;
        let n = self.len();
        let mut w: usize = 0;
        while w < n
            invariant
                tree_wf(self@),
                tree_wf(s),
                n == s.len(),
                n == self@.len(),
                0 <= w <= n,
                0 <= rooti < n,
                root == rooti,
                laid@.len() == n,
                ys@.len() == n,
                0 <= vw_h <= MAX_LEN_H,
                0 <= vh_h <= MAX_LEN_H,
                forall|j: int| 0 <= j < n ==> #[trigger] laid@[j] == laid_out(s, rooti, j),
                forall|j: int| 0 <= j < n ==> 0 <= #[trigger] ys@[j] <= MAX_LEN_H,
                forall|j: int|
                    0 <= j < n && laid_out(s, rooti, j) && j != rooti && s[j].parent is Some
                        ==> #[trigger] ys@[j] == siblings_h_upto(
                        s,
                        rooti,
                        s[j].parent->0 as int,
                        s[j].child_idx as int,
                    ),
                forall|j: int| 0 <= j < n ==> eq_except_layout(s[j], #[trigger] self@[j]),
                forall|j: int| w <= j < n ==> #[trigger] self@[j] == s[j],
                forall|j: int|
                    0 <= j < w && laid_out(s, rooti, j) ==> {
                        &&& (#[trigger] self@[j]).unrounded_layout == spec_unrounded(
                            s,
                            vw_h,
                            rooti,
                            j,
                        )
                        &&& self@[j].final_layout == spec_round_geom(
                            spec_unrounded(s, vw_h, rooti, j),
                        )
                        &&& self@[j].layout_cache == Some(
                            AvailableSpace { width: vw_h, height: vh_h },
                        )
                    },
                forall|j: int|
                    0 <= j < w && !laid_out(s, rooti, j) ==> {
                        &&& (#[trigger] self@[j]).unrounded_layout == Geometry::spec_zero()
                        &&& self@[j].final_layout == Geometry::spec_zero()
                        &&& self@[j].layout_cache is None
                    },
            decreases n - w,
        {
            let ghost mid = self@;
            if laid[w] {
                let yw = if w == root {
                    0
                } else {
                    ys[w]
                };
                let (ww, hw) = {
                    let nd = self.at(w);
                    match &nd.style_data {
                        Some(cs) => {
                            let wv = match cs.width {
                                Some(x) => x,
                                None => vw_h,
                            };
                            let hv = match cs.height {
                                Some(x) => x,
                                None => 0,
                            };
                            (wv, hv)
                        },
                        None => (vw_h, 0),
                    }
                };
                proof {
                    assert(ww == used_w(s, vw_h, w as int));
                    assert(hw == used_h(s, w as int));
                    lemma_used_bounds(s, vw_h, w as int);
                    if w != root {
                        if s[w as int].parent is None {
                            assert(!laid_out(s, rooti, w as int));
                        }
                    }
                }
                let g = Geometry { x: 0, y: yw, width: ww, height: hw };
                proof {
                    assert(g == spec_unrounded(s, vw_h, rooti, w as int));
                    assert(g.wf());
                }
                let rounded = crate::geom::round_geom(g);
                let nm = self.get_mut(w);
                nm.unrounded_layout = g;
                nm.final_layout = rounded;
                nm.layout_cache = Some(AvailableSpace { width: vw_h, height: vh_h });
                proof {
                    lemma_wf_after_geom(mid, w as int, self@[w as int]);
                    assert(self@ =~= mid.update(w as int, self@[w as int]));
                }
            } else {
                let nm = self.get_mut(w);
                nm.unrounded_layout = Geometry::zero();
                nm.final_layout = Geometry::zero();
                nm.layout_cache = None;
                proof {
                    lemma_wf_after_geom(mid, w as int, self@[w as int]);
                    assert(self@ =~= mid.update(w as int, self@[w as int]));
                }
            }
            w += 1;
        }
    }
}

/// The tree invariant survives replacing one node by a copy that differs
/// only in its layout slots, provided the new geometry is bounded.
#[verifier::spinoff_prover]
pub proof fn lemma_wf_after_geom(s: Seq<Node>, i: int, nd: Node)
    requires
        tree_wf(s),
        0 <= i < s.len(),
        eq_except_layout(s[i], nd),
        nd.unrounded_layout.wf(),
        nd.final_layout.wf(),
    ensures
        tree_wf(s.update(i, nd)),
{
    let s2 = s.update(i, nd);
    assert forall|j: int|
        0 <= j < s.len() implies {
        &&& (#[trigger] s2[j]).id == s[j].id
        &&& s2[j].parent == s[j].parent
        &&& s2[j].children == s[j].children
        &&& s2[j].raw_dom_data == s[j].raw_dom_data
        &&& s2[j].style_data == s[j].style_data
        &&& s2[j].unrounded_layout.wf()
        &&& s2[j].final_layout.wf()
    } by {
        if j != i {
            assert(s2[j] == s[j]);
        }
    }
    crate::arena::lemma_tree_wf_skeleton(s, s2);
}

/// Two node sequences that the layout model cannot tell apart: same
/// links, payload, computed-style views and display kinds; geometry
/// slots are free to differ.
pub open spec fn same_layout_inputs(a: Seq<Node>, b: Seq<Node>) -> bool {
    &&& a.len() == b.len()
    &&& forall|i: int|
        0 <= i < a.len() ==> {
            &&& (#[trigger] b[i]).parent == a[i].parent
            &&& b[i].children == a[i].children
            &&& b[i].child_idx == a[i].child_idx
            &&& b[i].raw_dom_data == a[i].raw_dom_data
            &&& crate::css::style_view(b[i].style_data) == crate::css::style_view(a[i].style_data)
            &&& b[i].display_outer == a[i].display_outer
        }
}

/// Layout reach is a function of the layout inputs alone.
pub proof fn lemma_laid_congruent(a: Seq<Node>, b: Seq<Node>, root: int, j: int)
    requires
        same_layout_inputs(a, b),
        0 <= j < a.len(),
    ensures
        laid_out(a, root, j) == laid_out(b, root, j),
    decreases j,
{
    assert(participates(a, j) == participates(b, j));
    if j != root {
        match a[j].parent {
            Some(p) => {
                if 0 <= p < j {
                    lemma_laid_congruent(a, b, root, p as int);
                }
            },
            None => {},
        }
    }
}

/// Sibling offsets are a function of the layout inputs alone.
pub proof fn lemma_siblings_congruent(a: Seq<Node>, b: Seq<Node>, root: int, p: int, k: int)
    requires
        same_layout_inputs(a, b),
        0 <= p < a.len(),
    ensures
        siblings_h_upto(a, root, p, k) == siblings_h_upto(b, root, p, k),
    decreases k,
{
    if 0 < k <= a[p].children@.len() {
        lemma_siblings_congruent(a, b, root, p, k - 1);
        let cid = a[p].children@[k - 1] as int;
        assert(b[p].children == a[p].children);
        if p < cid < a.len() {
            lemma_laid_congruent(a, b, root, cid);
            assert(used_h(a, cid) == used_h(b, cid));
        }
    }
}

/// The whole unrounded box is a function of the layout inputs alone.
pub proof fn lemma_unrounded_congruent(a: Seq<Node>, b: Seq<Node>, vw_h: i64, root: int, j: int)
    requires
        same_layout_inputs(a, b),
        crate::arena::parent_member_ok(a),
        0 <= j < a.len(),
    ensures
        spec_unrounded(a, vw_h, root, j) == spec_unrounded(b, vw_h, root, j),
{
    assert(used_w(a, vw_h, j) == used_w(b, vw_h, j));
    assert(used_h(a, j) == used_h(b, j));
    if j != root {
        match a[j].parent {
            Some(p) => {
                assert(0 <= p < j);
                lemma_siblings_congruent(a, b, root, p as int, a[j].child_idx as int);
            },
            None => {},
        }
    }
}

} // verus!
