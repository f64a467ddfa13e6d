use vstd::prelude::*;
use crate::errors::DocError;
use crate::node::{Node, NodeData};

verus! {

/// Stable-address storage of all nodes.  A node's id is its slot index;
/// slots are only ever appended, never freed, moved or compacted, so an id
/// handed out once denotes the same logical node for the life of the tree.
pub struct Arena {
    slots: Vec<Node>,
}

impl View for Arena {
    type V = Seq<Node>;

    closed spec fn view(&self) -> Seq<Node> {
        self.slots@
    }
}

/// Every node's `id` field equals its slot index.
pub open spec fn ids_ok(s: Seq<Node>) -> bool {
    forall|i: int| 0 <= i < s.len() ==> (#[trigger] s[i]).id == i
}

/// Every child id is in range and strictly larger than its parent's id:
/// nodes are created in document order, parents before children.
pub open spec fn children_ok(s: Seq<Node>) -> bool {
    forall|i: int, j: int|
        0 <= i < s.len() && 0 <= j < s[i].children@.len() ==> i < #[trigger] s[i].children@[j]
            < s.len()
}

/// No children list mentions the same node twice.
pub open spec fn children_distinct(s: Seq<Node>) -> bool {
    forall|i: int, j1: int, j2: int|
        #![trigger s[i].children@[j1], s[i].children@[j2]]
        0 <= i < s.len() && 0 <= j1 < s[i].children@.len() && 0 <= j2 < s[i].children@.len() && j1
            != j2 ==> s[i].children@[j1] != s[i].children@[j2]
}

/// Every listed child points back at the parent that lists it.
pub open spec fn parent_link_ok(s: Seq<Node>) -> bool {
    forall|i: int, j: int|
        0 <= i < s.len() && 0 <= j < s[i].children@.len() ==> s[#[trigger] s[i].children@[j] as int].parent
            == Some(i as usize)
}

/// Every node with a parent is listed among that parent's children, and
/// the parent was created before it.
pub open spec fn parent_member_ok(s: Seq<Node>) -> bool {
    forall|c: int|
        0 <= c < s.len() && (#[trigger] s[c].parent) is Some ==> {
            let p = s[c].parent->0 as int;
            &&& 0 <= p < c
            &&& exists|j: int| 0 <= j < s[p].children@.len() && s[p].children@[j] == c
        }
}

/// The root always sits at slot 0, carries the Document variant, and has
/// no parent.
pub open spec fn root_ok(s: Seq<Node>) -> bool {
    &&& s.len() >= 1
    &&& s[0].raw_dom_data is Document
    &&& s[0].parent is None
}

/// All stored geometry stays within overflow-safe bounds.
pub open spec fn geom_ok(s: Seq<Node>) -> bool {
    forall|i: int|
        0 <= i < s.len() ==> (#[trigger] s[i]).unrounded_layout.wf() && s[i].final_layout.wf()
}

/// All computed styles and parsed inline styles are well-formed.
pub open spec fn styles_ok(s: Seq<Node>) -> bool {
    forall|i: int|
        0 <= i < s.len() ==> ((#[trigger] s[i]).style_data is Some ==> (
        s[i].style_data->0)@.wf())
}

/// The tree invariant: stable ids, consistent links, a document root, and
/// bounded style and geometry payloads.  `child_idx` correctness is kept
/// separate (see [`indexes_ok`]) because it is only restored by an explicit
/// re-indexing pass after structural edits.
pub open spec fn tree_wf(s: Seq<Node>) -> bool {
    &&& ids_ok(s)
    &&& children_ok(s)
    &&& children_distinct(s)
    &&& parent_link_ok(s)
    &&& parent_member_ok(s)
    &&& root_ok(s)
    &&& geom_ok(s)
    &&& styles_ok(s)
}

/// `child_idx` agrees with each node's position in its parent's list.
pub open spec fn indexes_ok(s: Seq<Node>) -> bool {
    forall|i: int, j: int|
        0 <= i < s.len() && 0 <= j < s[i].children@.len() ==> s[#[trigger] s[i].children@[j] as int].child_idx
            == j
}

/// The child-index invariant in its classic reading: after re-indexing,
/// looking a non-root node's `child_idx` up in its parent's children list
/// gives the node's own id back.
pub proof fn lemma_child_index_invariant(s: Seq<Node>, c: int)
    requires
        tree_wf(s),
        indexes_ok(s),
        0 <= c < s.len(),
        s[c].parent is Some,
    ensures
        0 <= s[c].parent->0 < s.len(),
        s[c].child_idx < s[s[c].parent->0 as int].children@.len(),
        s[s[c].parent->0 as int].children@[s[c].child_idx as int] == c,
{
    let p = s[c].parent->0 as int;
    let j = choose|j: int| 0 <= j < s[p].children@.len() && s[p].children@[j] == c;
    assert(s[s[p].children@[j] as int].child_idx == j);
}

impl Arena {
    pub fn new() -> (r: Arena)
        ensures
            r@ == Seq::<Node>::empty(),
    {
        Arena { slots: Vec::new() }
    }

    pub fn len(&self) -> (r: usize)
        ensures
            r == self@.len(),
    {
        self.slots.len()
    }

    /// Insert a node into a fresh slot; the returned id equals the slot
    /// index, is never reused, and every previously stored node is left
    /// untouched (identity stability).
    pub fn insert(&mut self, node: Node) -> (id: usize)
        ensures
            id == old(self)@.len(),
            final(self)@.len() == old(self)@.len() + 1,
            forall|i: int| 0 <= i < old(self)@.len() ==> final(self)@[i] == old(self)@[i],
            final(self)@[id as int] == (Node { id, ..node }),
    {
        let mut node = node;
        let id = self.slots.len();
        node.id = id;
        self.slots.push(node);
        id
    }

    /// Checked lookup: fails with the out-of-range error on an unknown id.
    pub fn get(&self, id: usize) -> (r: Result<&Node, DocError>)
        ensures
            match r {
                Ok(n) => id < self@.len() && *n == self@[id as int],
                Err(e) => id >= self@.len() && e == DocError::OutOfRange,
            },
    {
        if id < self.slots.len() {
            Ok(&self.slots[id])
        } else {
            Err(DocError::OutOfRange)
        }
    }

    /// Unchecked lookup for callers that already hold a proof that `id`
    /// is in range.
    pub fn at(&self, id: usize) -> (r: &Node)
        requires
            id < self@.len(),
        ensures
            *r == self@[id as int],
    {
        &self.slots[id]
    }

    /// Mutable lookup.  The caller must know the id is in range; checked
    /// access goes through [`Arena::get`] first.
    pub fn get_mut(&mut self, id: usize) -> (r: &mut Node)
        requires
            id < old(self)@.len(),
        ensures
            *r == old(self)@[id as int],
            final(self)@ == old(self)@.update(id as int, *final(r)),
    {
        &mut self.slots[id]
    }
}

/// Two node sequences that agree on identity, links, and payload of every
/// node; style and layout slots are free to differ.
pub open spec fn same_skeleton(s1: Seq<Node>, s2: Seq<Node>) -> bool {
    &&& s1.len() == s2.len()
    &&& forall|i: int|
        0 <= i < s1.len() ==> {
            &&& (#[trigger] s2[i]).id == s1[i].id
            &&& s2[i].parent == s1[i].parent
            &&& s2[i].children == s1[i].children
            &&& s2[i].raw_dom_data == s1[i].raw_dom_data
        }
}

/// The tree invariant carries over to any sequence with the same skeleton
/// whose style and geometry slots are themselves well-formed.
#[verifier::spinoff_prover]
pub proof fn lemma_tree_wf_skeleton(s1: Seq<Node>, s2: Seq<Node>)
    requires
        tree_wf(s1),
        same_skeleton(s1, s2),
        forall|i: int|
            0 <= i < s2.len() ==> ((#[trigger] s2[i]).style_data is Some ==> (
            s2[i].style_data->0)@.wf()),
        forall|i: int|
            0 <= i < s2.len() ==> (#[trigger] s2[i]).unrounded_layout.wf()
                && s2[i].final_layout.wf(),
    ensures
        tree_wf(s2),
{
    lemma_ids_ok_transfer(s1, s2);
    lemma_children_ok_transfer(s1, s2);
    lemma_children_distinct_transfer(s1, s2);
    lemma_parent_link_ok_transfer(s1, s2);
    lemma_parent_member_ok_transfer(s1, s2);
    assert(s2[0].raw_dom_data == s1[0].raw_dom_data);
    assert(s2[0].parent == s1[0].parent);
}

#[verifier::spinoff_prover]
proof fn lemma_ids_ok_transfer(s1: Seq<Node>, s2: Seq<Node>)
    requires
        ids_ok(s1),
        same_skeleton(s1, s2),
    ensures
        ids_ok(s2),
{
    assert forall|i: int| 0 <= i < s2.len() implies (#[trigger] s2[i]).id == i by {
        assert(s2[i].id == s1[i].id);
    }
}

#[verifier::spinoff_prover]
proof fn lemma_children_ok_transfer(s1: Seq<Node>, s2: Seq<Node>)
    requires
        children_ok(s1),
        same_skeleton(s1, s2),
    ensures
        children_ok(s2),
{
    assert forall|i: int, j: int|
        0 <= i < s2.len() && 0 <= j < s2[i].children@.len() implies i
        < #[trigger] s2[i].children@[j] < s2.len() by {
        assert(s2[i].children == s1[i].children);
        assert(i < s1[i].children@[j] < s1.len());
    }
}

#[verifier::spinoff_prover]
proof fn lemma_children_distinct_transfer(s1: Seq<Node>, s2: Seq<Node>)
    requires
        children_distinct(s1),
        same_skeleton(s1, s2),
    ensures
        children_distinct(s2),
{
    assert forall|i: int, j1: int, j2: int|
        #![trigger s2[i].children@[j1], s2[i].children@[j2]]
        0 <= i < s2.len() && 0 <= j1 < s2[i].children@.len() && 0 <= j2 < s2[i].children@.len()
            && j1 != j2 implies s2[i].children@[j1] != s2[i].children@[j2] by {
        assert(s2[i].children == s1[i].children);
        assert(s1[i].children@[j1] != s1[i].children@[j2]);
    }
}

#[verifier::spinoff_prover]
proof fn lemma_parent_link_ok_transfer(s1: Seq<Node>, s2: Seq<Node>)
    requires
        children_ok(s1),
        parent_link_ok(s1),
        same_skeleton(s1, s2),
    ensures
        parent_link_ok(s2),
{
    assert forall|i: int, j: int|
        0 <= i < s2.len() && 0 <= j < s2[i].children@.len() implies s2[#[trigger] s2[i].children@[j] as int].parent
        == Some(i as usize) by {
        assert(s2[i].children == s1[i].children);
        let c = s1[i].children@[j] as int;
        assert(0 <= c < s1.len());
        assert(s1[c].parent == Some(i as usize));
        assert(s2[c].parent == s1[c].parent);
    }
}

#[verifier::spinoff_prover]
proof fn lemma_parent_member_ok_transfer(s1: Seq<Node>, s2: Seq<Node>)
    requires
        parent_member_ok(s1),
        same_skeleton(s1, s2),
    ensures
        parent_member_ok(s2),
{
    assert forall|c: int| 0 <= c < s2.len() && (#[trigger] s2[c].parent) is Some implies {
        let p = s2[c].parent->0 as int;
        &&& 0 <= p < c
        &&& exists|j: int| 0 <= j < s2[p].children@.len() && s2[p].children@[j] == c
    } by {
        assert(s2[c].parent == s1[c].parent);
        let p = s1[c].parent->0 as int;
        assert(0 <= p < c);
        let j = choose|j: int| 0 <= j < s1[p].children@.len() && s1[p].children@[j] == c;
        assert(s2[p].children == s1[p].children);
        assert(0 <= j < s2[p].children@.len() && s2[p].children@[j] == c);
    }
}

/// The tree invariant survives appending a fresh unattached node.
#[verifier::spinoff_prover]
pub proof fn lemma_tree_wf_insert(pre: Seq<Node>, post: Seq<Node>)
    requires
        tree_wf(pre),
        post.len() == pre.len() + 1,
        forall|i: int| 0 <= i < pre.len() ==> post[i] == pre[i],
        post[pre.len() as int].id == pre.len(),
        post[pre.len() as int].parent is None,
        post[pre.len() as int].children@ == Seq::<usize>::empty(),
        post[pre.len() as int].style_data is None,
        post[pre.len() as int].unrounded_layout.wf(),
        post[pre.len() as int].final_layout.wf(),
    ensures
        tree_wf(post),
{
    let n = pre.len() as int;
    lemma_ids_ok_insert(pre, post);
    lemma_children_ok_insert(pre, post);
    lemma_children_distinct_insert(pre, post);
    lemma_parent_link_ok_insert(pre, post);
    lemma_parent_member_ok_insert(pre, post);
    assert(post[0] == pre[0]);
    assert forall|i: int| 0 <= i < post.len() implies (#[trigger] post[i]).unrounded_layout.wf()
        && post[i].final_layout.wf() by {
        if i < n {
            assert(post[i] == pre[i]);
        }
    }
    assert forall|i: int|
        0 <= i < post.len() implies ((#[trigger] post[i]).style_data is Some ==> (
    post[i].style_data->0)@.wf()) by {
        if i < n {
            assert(post[i] == pre[i]);
        }
    }
}

#[verifier::spinoff_prover]
proof fn lemma_ids_ok_insert(pre: Seq<Node>, post: Seq<Node>)
    requires
        ids_ok(pre),
        post.len() == pre.len() + 1,
        forall|i: int| 0 <= i < pre.len() ==> post[i] == pre[i],
        post[pre.len() as int].id == pre.len(),
    ensures
        ids_ok(post),
{
    assert forall|i: int| 0 <= i < post.len() implies (#[trigger] post[i]).id == i by {
        if i < pre.len() {
            assert(post[i] == pre[i]);
        }
    }
}

#[verifier::spinoff_prover]
proof fn lemma_children_ok_insert(pre: Seq<Node>, post: Seq<Node>)
    requires
        children_ok(pre),
        post.len() == pre.len() + 1,
        forall|i: int| 0 <= i < pre.len() ==> post[i] == pre[i],
        post[pre.len() as int].children@ == Seq::<usize>::empty(),
    ensures
        children_ok(post),
{
    assert forall|i: int, j: int|
        0 <= i < post.len() && 0 <= j < post[i].children@.len() implies i
        < #[trigger] post[i].children@[j] < post.len() by {
        if i < pre.len() {
            assert(post[i] == pre[i]);
            assert(i < pre[i].children@[j] < pre.len());
        }
    }
}

#[verifier::spinoff_prover]
proof fn lemma_children_distinct_insert(pre: Seq<Node>, post: Seq<Node>)
    requires
        children_distinct(pre),
        post.len() == pre.len() + 1,
        forall|i: int| 0 <= i < pre.len() ==> post[i] == pre[i],
        post[pre.len() as int].children@ == Seq::<usize>::empty(),
    ensures
        children_distinct(post),
{
    assert forall|i: int, j1: int, j2: int|
        #![trigger post[i].children@[j1], post[i].children@[j2]]
        0 <= i < post.len() && 0 <= j1 < post[i].children@.len() && 0 <= j2
            < post[i].children@.len() && j1 != j2 implies post[i].children@[j1]
        != post[i].children@[j2] by {
        if i < pre.len() {
            assert(post[i] == pre[i]);
            assert(pre[i].children@[j1] != pre[i].children@[j2]);
        }
    }
}

#[verifier::spinoff_prover]
proof fn lemma_parent_link_ok_insert(pre: Seq<Node>, post: Seq<Node>)
    requires
        children_ok(pre),
        parent_link_ok(pre),
        post.len() == pre.len() + 1,
        forall|i: int| 0 <= i < pre.len() ==> post[i] == pre[i],
        post[pre.len() as int].children@ == Seq::<usize>::empty(),
    ensures
        parent_link_ok(post),
{
    assert forall|i: int, j: int|
        0 <= i < post.len() && 0 <= j < post[i].children@.len() implies post[#[trigger] post[i].children@[j] as int].parent
        == Some(i as usize) by {
        if i < pre.len() {
            assert(post[i] == pre[i]);
            let c = pre[i].children@[j] as int;
            assert(0 <= c < pre.len());
            assert(pre[c].parent == Some(i as usize));
            assert(post[c] == pre[c]);
        }
    }
}

#[verifier::spinoff_prover]
proof fn lemma_parent_member_ok_insert(pre: Seq<Node>, post: Seq<Node>)
    requires
        parent_member_ok(pre),
        post.len() == pre.len() + 1,
        forall|i: int| 0 <= i < pre.len() ==> post[i] == pre[i],
        post[pre.len() as int].parent is None,
    ensures
        parent_member_ok(post),
{
    assert forall|c: int| 0 <= c < post.len() && (#[trigger] post[c].parent) is Some implies {
        let p = post[c].parent->0 as int;
        &&& 0 <= p < c
        &&& exists|j: int| 0 <= j < post[p].children@.len() && post[p].children@[j] == c
    } by {
        assert(c < pre.len());
        assert(post[c] == pre[c]);
        let p = pre[c].parent->0 as int;
        assert(0 <= p < c);
        let j = choose|j: int| 0 <= j < pre[p].children@.len() && pre[p].children@[j] == c;
        assert(post[p] == pre[p]);
        assert(0 <= j < post[p].children@.len() && post[p].children@[j] == c);
    }
}

/// The tree invariant survives replacing one node by a copy that differs
/// only in its `child_idx` field.
#[verifier::spinoff_prover]
pub proof fn lemma_tree_wf_update_child_idx(s: Seq<Node>, i: int, nd: Node)
    requires
        tree_wf(s),
        0 <= i < s.len(),
        crate::node::eq_except_child_idx(s[i], nd),
    ensures
        tree_wf(s.update(i, nd)),
{
    let s2 = s.update(i, nd);
    assert forall|j: int|
        0 <= j < s.len() implies {
        &&& (#[trigger] s2[j]).id == s[j].id
        &&& s2[j].parent == s[j].parent
        &&& s2[j].children == s[j].children
        &&& s2[j].raw_dom_data == s[j].raw_dom_data
        &&& s2[j].style_data == s[j].style_data
        &&& s2[j].unrounded_layout == s[j].unrounded_layout
        &&& s2[j].final_layout == s[j].final_layout
    } by {
        if j != i {
            assert(s2[j] == s[j]);
        }
    }
    lemma_tree_wf_skeleton(s, s2);
}

/// The tree invariant survives replacing one node by a copy that differs
/// only in its style slots, provided the new computed style is bounded.
#[verifier::spinoff_prover]
pub proof fn lemma_tree_wf_update_style(s: Seq<Node>, i: int, nd: Node)
    requires
        tree_wf(s),
        0 <= i < s.len(),
        crate::node::eq_except_style(s[i], nd),
        nd.style_data is Some ==> (nd.style_data->0)@.wf(),
    ensures
        tree_wf(s.update(i, nd)),
{
    let s2 = s.update(i, nd);
    assert forall|j: int|
        0 <= j < s.len() implies {
        &&& (#[trigger] s2[j]).id == s[j].id
        &&& s2[j].parent == s[j].parent
        &&& s2[j].children == s[j].children
        &&& s2[j].raw_dom_data == s[j].raw_dom_data
        &&& s2[j].unrounded_layout == s[j].unrounded_layout
        &&& s2[j].final_layout == s[j].final_layout
    } by {
        if j != i {
            assert(s2[j] == s[j]);
        }
    }
    assert forall|j: int|
        0 <= j < s2.len() implies ((#[trigger] s2[j]).style_data is Some ==> (
    s2[j].style_data->0)@.wf()) by {
        if j != i {
            assert(s2[j] == s[j]);
        }
    }
    lemma_tree_wf_skeleton(s, s2);
}

/// What attaching `child` under `parent` does to the node sequence.
pub open spec fn attach_post(s: Seq<Node>, t: Seq<Node>, parent: usize, child: usize) -> bool {
    &&& t.len() == s.len()
    &&& (forall|i: int| 0 <= i < s.len() && i != parent && i != child ==> #[trigger] t[i] == s[i])
    &&& t[parent as int].children@ == s[parent as int].children@.push(child)
    &&& crate::node::eq_except_children(s[parent as int], t[parent as int])
    &&& t[child as int].parent == Some(parent)
    &&& t[child as int].child_idx == s[parent as int].children@.len()
    &&& crate::node::eq_except_links(s[child as int], t[child as int])
}

/// The tree invariant survives attaching a fresh child to a parent that
/// was created before it.
#[verifier::spinoff_prover]
pub proof fn lemma_tree_wf_attach(s: Seq<Node>, t: Seq<Node>, parent: usize, child: usize)
    requires
        tree_wf(s),
        parent < child < s.len(),
        s[child as int].parent is None,
        attach_post(s, t, parent, child),
    ensures
        tree_wf(t),
{
    lemma_attach_ids(s, t, parent, child);
    lemma_attach_children_ok(s, t, parent, child);
    lemma_attach_distinct(s, t, parent, child);
    lemma_attach_parent_link(s, t, parent, child);
    lemma_attach_parent_member(s, t, parent, child);
    if parent != 0 && child != 0 {
        assert(t[0] == s[0]);
    } else {
        assert(parent == 0);
        assert(t[0].parent == s[0].parent && t[0].raw_dom_data == s[0].raw_dom_data);
    }
    assert forall|i: int| 0 <= i < t.len() implies (#[trigger] t[i]).unrounded_layout.wf()
        && t[i].final_layout.wf() by {
        if i != parent && i != child {
            assert(t[i] == s[i]);
        }
    }
    assert forall|i: int|
        0 <= i < t.len() implies ((#[trigger] t[i]).style_data is Some ==> (
    t[i].style_data->0)@.wf()) by {
        if i != parent && i != child {
            assert(t[i] == s[i]);
        }
    }
}

#[verifier::spinoff_prover]
proof fn lemma_attach_ids(s: Seq<Node>, t: Seq<Node>, parent: usize, child: usize)
    requires
        ids_ok(s),
        parent < child < s.len(),
        attach_post(s, t, parent, child),
    ensures
        ids_ok(t),
{
    assert forall|i: int| 0 <= i < t.len() implies (#[trigger] t[i]).id == i by {
        if i != parent && i != child {
            assert(t[i] == s[i]);
        }
    }
}

#[verifier::spinoff_prover]
proof fn lemma_attach_children_ok(s: Seq<Node>, t: Seq<Node>, parent: usize, child: usize)
    requires
        children_ok(s),
        parent < child < s.len(),
        attach_post(s, t, parent, child),
    ensures
        children_ok(t),
{
    assert forall|i: int, j: int|
        0 <= i < t.len() && 0 <= j < t[i].children@.len() implies i
        < #[trigger] t[i].children@[j] < t.len() by {
        if i == parent {
            let pushed = s[parent as int].children@.push(child);
            assert(t[i].children@[j] == pushed[j]);
            if j < s[parent as int].children@.len() {
                assert(pushed[j] == s[parent as int].children@[j]);
                assert(i < s[parent as int].children@[j] < s.len());
            } else {
                assert(pushed[j] == child);
            }
        } else {
            if i != child {
                assert(t[i] == s[i]);
            }
            assert(t[i].children == s[i].children);
            assert(i < s[i].children@[j] < s.len());
        }
    }
}

/// A node whose parent slot is empty sits in no children list.
#[verifier::spinoff_prover]
proof fn lemma_unattached_not_listed(s: Seq<Node>, c: usize, i: int, j: int)
    requires
        parent_link_ok(s),
        c < s.len(),
        s[c as int].parent is None,
        0 <= i < s.len(),
        0 <= j < s[i].children@.len(),
    ensures
        s[i].children@[j] != c,
{
    if s[i].children@[j] == c {
        assert(s[s[i].children@[j] as int].parent == Some(i as usize));
    }
}

#[verifier::spinoff_prover]
proof fn lemma_attach_distinct(s: Seq<Node>, t: Seq<Node>, parent: usize, child: usize)
    requires
        children_ok(s),
        children_distinct(s),
        parent_link_ok(s),
        parent < child < s.len(),
        s[child as int].parent is None,
        attach_post(s, t, parent, child),
    ensures
        children_distinct(t),
{
    assert forall|i: int, j1: int, j2: int|
        #![trigger t[i].children@[j1], t[i].children@[j2]]
        0 <= i < t.len() && 0 <= j1 < t[i].children@.len() && 0 <= j2 < t[i].children@.len() && j1
            != j2 implies t[i].children@[j1] != t[i].children@[j2] by {
        if i == parent {
            let old_len = s[parent as int].children@.len() as int;
            let pushed = s[parent as int].children@.push(child);
            assert(t[i].children@[j1] == pushed[j1]);
            assert(t[i].children@[j2] == pushed[j2]);
            if j1 < old_len && j2 < old_len {
                assert(pushed[j1] == s[parent as int].children@[j1]);
                assert(pushed[j2] == s[parent as int].children@[j2]);
                assert(s[parent as int].children@[j1] != s[parent as int].children@[j2]);
            } else if j1 < old_len {
                assert(pushed[j2] == child);
                lemma_unattached_not_listed(s, child, parent as int, j1);
            } else if j2 < old_len {
                assert(pushed[j1] == child);
                lemma_unattached_not_listed(s, child, parent as int, j2);
            }
        } else {
            if i != child {
                assert(t[i] == s[i]);
            }
            assert(t[i].children == s[i].children);
            assert(s[i].children@[j1] != s[i].children@[j2]);
        }
    }
}

#[verifier::spinoff_prover]
proof fn lemma_attach_parent_link(s: Seq<Node>, t: Seq<Node>, parent: usize, child: usize)
    requires
        children_ok(s),
        parent_link_ok(s),
        parent < child < s.len(),
        s[child as int].parent is None,
        attach_post(s, t, parent, child),
    ensures
        parent_link_ok(t),
{
    assert forall|i: int, j: int|
        0 <= i < t.len() && 0 <= j < t[i].children@.len() implies t[#[trigger] t[i].children@[j] as int].parent
        == Some(i as usize) by {
        if i == parent && j == s[parent as int].children@.len() {
            let pushed = s[parent as int].children@.push(child);
            assert(t[i].children@[j] == pushed[j]);
            assert(pushed[j] == child);
            assert(t[child as int].parent == Some(parent));
        } else {
            let c = if i == parent {
                s[parent as int].children@[j]
            } else {
                s[i].children@[j]
            };
            if i != parent && i != child {
                assert(t[i] == s[i]);
            }
            if i == parent {
                let pushed = s[parent as int].children@.push(child);
                assert(t[i].children@[j] == pushed[j]);
                assert(pushed[j] == s[parent as int].children@[j]);
            } else {
                assert(t[i].children == s[i].children);
            }
            assert(t[i].children@[j] == c);
            assert(0 <= c < s.len());
            assert(s[c as int].parent == Some(i as usize));
            lemma_unattached_not_listed(s, child, i, j);
            assert(c != child);
            if c != parent {
                assert(t[c as int] == s[c as int]);
            } else {
                assert(t[c as int].parent == s[c as int].parent);
            }
        }
    }
}

#[verifier::spinoff_prover]
proof fn lemma_attach_parent_member(s: Seq<Node>, t: Seq<Node>, parent: usize, child: usize)
    requires
        parent_member_ok(s),
        parent < child < s.len(),
        s[child as int].parent is None,
        attach_post(s, t, parent, child),
    ensures
        parent_member_ok(t),
{
    assert forall|c: int| 0 <= c < t.len() && (#[trigger] t[c].parent) is Some implies {
        let p = t[c].parent->0 as int;
        &&& 0 <= p < c
        &&& exists|j: int| 0 <= j < t[p].children@.len() && t[p].children@[j] == c
    } by {
        if c == child {
            let j = s[parent as int].children@.len() as int;
            let pushed = s[parent as int].children@.push(child);
            assert(t[parent as int].children@[j] == pushed[j]);
            assert(pushed[j] == child);
            assert(t[child as int].parent == Some(parent));
        } else {
            if c != parent {
                assert(t[c] == s[c]);
            }
            assert(t[c].parent == s[c].parent);
            let p = s[c].parent->0 as int;
            assert(0 <= p < c);
            let j = choose|j: int| 0 <= j < s[p].children@.len() && s[p].children@[j] == c;
            if p == parent {
                let pushed = s[parent as int].children@.push(child);
                assert(t[p].children@[j] == pushed[j]);
                assert(pushed[j] == s[p].children@[j]);
            } else if p == child {
                assert(t[p].children == s[p].children);
            } else {
                assert(t[p] == s[p]);
            }
            assert(0 <= j < t[p].children@.len() && t[p].children@[j] == c);
        }
    }
}

impl Arena {
    /// Attach an unattached, later-created node as the last child of
    /// `parent_id`, setting its back link and child index.
    #[verifier::spinoff_prover]
    pub fn attach_child(&mut self, parent_id: usize, child_id: usize)
        requires
            tree_wf(old(self)@),
            parent_id < child_id < old(self)@.len(),
            old(self)@[parent_id as int].children@.len() < usize::MAX,
            old(self)@[child_id as int].parent is None,
        ensures
            tree_wf(final(self)@),
            attach_post(old(self)@, final(self)@, parent_id, child_id),
    {
        let ghost s = self@;
        let idx = self.slots[parent_id].children.len();
        let p = &mut self.slots[parent_id];
        p.children.push(child_id);
        let ghost mid = self@;
        let c = &mut self.slots[child_id];
        c.parent = Some(parent_id);
        c.child_idx = idx;
        proof {
            assert forall|i: int|
                0 <= i < s.len() && i != parent_id && i != child_id implies #[trigger] self@[i]
                == s[i] by {
                assert(mid[i] == s[i]);
            }
            assert(self@[parent_id as int] == mid[parent_id as int]);
            assert(attach_post(s, self@, parent_id, child_id));
            lemma_tree_wf_attach(s, self@, parent_id, child_id);
        }
    }

    /// Restore every attached node's `child_idx` to its position in its
    /// parent's children list.  Nodes in no children list keep their old
    /// index.
    #[verifier::spinoff_prover]
    #[verifier::rlimit(100)]
    pub fn reindex(&mut self)
        requires
            tree_wf(old(self)@),
        ensures
            tree_wf(final(self)@),
            final(self)@.len() == old(self)@.len(),
            forall|i: int|
                0 <= i < old(self)@.len() ==> crate::node::eq_except_child_idx(
                    old(self)@[i],
                    #[trigger] final(self)@[i],
                ),
            forall|i: int|
                0 <= i < old(self)@.len() && old(self)@[i].parent is None
                    ==> (#[trigger] final(self)@[i]).child_idx == old(self)@[i].child_idx,
            indexes_ok(final(self)@),
    {
        let ghost s0 = self@;
        let n = self.slots.len();
        let mut p: usize = 0;
        while p < n
            invariant
                tree_wf(self@),
                n == self@.len(),
                n == s0.len(),
                0 <= p <= n,
                forall|i: int|
                    0 <= i < n ==> crate::node::eq_except_child_idx(s0[i], #[trigger] self@[i]),
                forall|i: int|
                    0 <= i < n && s0[i].parent is None ==> (#[trigger] self@[i]).child_idx
                        == s0[i].child_idx,
                forall|q: int, j: int|
                    0 <= q < p && 0 <= j < self@[q].children@.len()
                        ==> self@[#[trigger] self@[q].children@[j] as int].child_idx == j,
            decreases n - p,
        {
            let m = self.slots[p].children.len();
            let mut j: usize = 0;
            while j < m
                invariant
                    tree_wf(self@),
                    n == self@.len(),
                    n == s0.len(),
                    0 <= p < n,
                    0 <= j <= m,
                    m == self@[p as int].children@.len(),
                    forall|i: int|
                        0 <= i < n ==> crate::node::eq_except_child_idx(
                            s0[i],
                            #[trigger] self@[i],
                        ),
                    forall|i: int|
                        0 <= i < n && s0[i].parent is None ==> (#[trigger] self@[i]).child_idx
                            == s0[i].child_idx,
                    forall|q: int, jj: int|
                        0 <= q < p && 0 <= jj < self@[q].children@.len()
                            ==> self@[#[trigger] self@[q].children@[jj] as int].child_idx == jj,
                    forall|jj: int|
                        0 <= jj < j
                            ==> self@[#[trigger] self@[p as int].children@[jj] as int].child_idx
                            == jj,
                decreases m - j,
            {
                let ghost mid = self@;
                let cid = self.slots[p].children[j];
                proof {
                    assert((p as int) < mid[p as int].children@[j as int] < n);
                }
                let cnode = &mut self.slots[cid];
                cnode.child_idx = j;
                proof {
                    lemma_tree_wf_update_child_idx(mid, cid as int, self@[cid as int]);
                    assert(self@ =~= mid.update(cid as int, self@[cid as int]));
                    assert(self@[cid as int].parent == Some(p as usize));
                    assert forall|q: int, jj: int|
                        0 <= q < p + 1 && 0 <= jj < self@[q].children@.len() && !(q == p && jj
                            >= j + 1) implies self@[#[trigger] self@[q].children@[jj] as int].child_idx
                        == jj by {
                        let c2 = mid[q].children@[jj] as int;
                        assert(self@[q].children == mid[q].children);
                        if q == p && jj == j {
                        } else {
                            assert(mid[self@[q].children@[jj] as int].child_idx == jj);
                            assert(mid[c2].parent == Some(q as usize));
                            if c2 == cid {
                                assert(mid[c2].parent == Some(p as usize));
                                assert(q == p);
                                assert(mid[mid[p as int].children@[jj] as int].child_idx == jj);
                                assert(mid[mid[p as int].children@[j as int] as int].child_idx
                                    == jj);
                            } else {
                                assert(self@[c2] == mid[c2]);
                            }
                        }
                    }
                }
                j += 1;
            }
            p += 1;
        }
        proof {
            assert forall|i: int, j: int|
                0 <= i < self@.len() && 0 <= j < self@[i].children@.len() implies self@[#[trigger] self@[i].children@[j] as int].child_idx
                == j by {}
        }
    }
}

/// The tree invariant holds of the one-node tree a fresh document starts
/// with.
pub proof fn lemma_tree_wf_singleton(s: Seq<Node>)
    requires
        s.len() == 1,
        s[0].id == 0,
        s[0].parent is None,
        s[0].children@ == Seq::<usize>::empty(),
        s[0].raw_dom_data is Document,
        s[0].style_data is None,
        s[0].unrounded_layout.wf(),
        s[0].final_layout.wf(),
    ensures
        tree_wf(s),
{
}

/// The concatenated text of the first `k` children of element `id`.
pub open spec fn children_text_upto(s: Seq<Node>, id: int, k: int) -> Seq<char>
    decreases s.len() - id, 0int, k,
        when 0 <= id < s.len()
{
    if k <= 0 || k > s[id].children@.len() {
        Seq::empty()
    } else {
        let cid = s[id].children@[k - 1] as int;
        children_text_upto(s, id, k - 1) + if id < cid < s.len() {
            subtree_text(s, cid)
        } else {
            Seq::empty()
        }
    }
}

/// The text content of the subtree rooted at `id`: the concatenation of
/// every descendant text node's content, in document order.
pub open spec fn subtree_text(s: Seq<Node>, id: int) -> Seq<char>
    decreases s.len() - id, 1int, 0int,
        when 0 <= id < s.len()
{
    match s[id].raw_dom_data {
        NodeData::Text(t) => t.content@,
        NodeData::Element(_) => children_text_upto(s, id, s[id].children@.len() as int),
        _ => Seq::empty(),
    }
}

impl Node {
    /// Fetch another node of the same tree by id.
    pub fn with<'a>(&self, tree: &'a Arena, id: usize) -> (r: &'a Node)
        requires
            id < tree@.len(),
        ensures
            *r == tree@[id as int],
    {
        tree.at(id)
    }

    /// The sibling `n` places after this node in its parent's children
    /// list, if there is one.
    pub open spec fn spec_forward(self, s: Seq<Node>, n: int) -> Option<Node> {
        match self.parent {
            Some(p) => {
                let ch = s[p as int].children@;
                if self.child_idx + n < ch.len() && 0 <= ch[self.child_idx + n] < s.len() {
                    Some(s[ch[self.child_idx + n] as int])
                } else {
                    None
                }
            },
            None => None,
        }
    }

    /// The sibling `n` places before this node, if there is one.
    pub open spec fn spec_backward(self, s: Seq<Node>, n: int) -> Option<Node> {
        match self.parent {
            Some(p) => {
                let ch = s[p as int].children@;
                if 0 <= self.child_idx - n < ch.len() && 0 <= ch[self.child_idx - n] < s.len() {
                    Some(s[ch[self.child_idx - n] as int])
                } else {
                    None
                }
            },
            None => None,
        }
    }

    /// Get the node `n` places after this one in the parent's child list.
    #[verifier::rlimit(50)]
    #[verifier::spinoff_prover]
    pub fn forward<'a>(&self, tree: &'a Arena, n: usize) -> (r: Option<&'a Node>)
        requires
            tree_wf(tree@),
            self.id < tree@.len(),
            tree@[self.id as int] == *self,
        ensures
            match r {
                Some(nd) => self.spec_forward(tree@, n as int) == Some(*nd),
                None => self.spec_forward(tree@, n as int) is None,
            },
    {
        match self.parent {
            Some(p) => {
                proof {
                    assert(tree@[self.id as int].parent == Some(p));
                    assert(0 <= p < self.id);
                }
                let parent = tree.at(p);
                let ch_len = parent.children.len();
                if self.child_idx < ch_len && n < ch_len - self.child_idx {
                    let cid = parent.children[self.child_idx + n];
                    proof {
                        assert(p < tree@[p as int].children@[self.child_idx + n] < tree@.len());
                    }
                    Some(tree.at(cid))
                } else {
                    None
                }
            },
            None => None,
        }
    }

    /// Get the node `n` places before this one in the parent's child list.
    #[verifier::rlimit(50)]
    #[verifier::spinoff_prover]
    pub fn backward<'a>(&self, tree: &'a Arena, n: usize) -> (r: Option<&'a Node>)
        requires
            tree_wf(tree@),
            self.id < tree@.len(),
            tree@[self.id as int] == *self,
        ensures
            match r {
                Some(nd) => self.spec_backward(tree@, n as int) == Some(*nd),
                None => self.spec_backward(tree@, n as int) is None,
            },
    {
        if self.child_idx < n {
            return None;
        }
        match self.parent {
            Some(p) => {
                proof {
                    assert(tree@[self.id as int].parent == Some(p));
                    assert(0 <= p < self.id);
                }
                let parent = tree.at(p);
                let idx = self.child_idx - n;
                if idx < parent.children.len() {
                    let cid = parent.children[idx];
                    proof {
                        assert(p < tree@[p as int].children@[idx as int] < tree@.len());
                    }
                    Some(tree.at(cid))
                } else {
                    None
                }
            },
            None => None,
        }
    }

    /// The aggregated text of this node's subtree: text nodes contribute
    /// their content, elements the concatenation of their children's text
    /// in document order, other nodes nothing.
    pub fn text_content(&self, tree: &Arena) -> (r: String)
        requires
            tree_wf(tree@),
            self.id < tree@.len(),
            tree@[self.id as int] == *self,
        ensures
            r@ == subtree_text(tree@, self.id as int),
    {
        let mut out = String::new();
        self.write_text_content(tree, &mut out);
        out
    }

    #[verifier::rlimit(100)]
    #[verifier::spinoff_prover]
    fn write_text_content(&self, tree: &Arena, out: &mut String)
        requires
            tree_wf(tree@),
            self.id < tree@.len(),
            tree@[self.id as int] == *self,
        ensures
            final(out)@ == old(out)@ + subtree_text(tree@, self.id as int),
        decreases tree@.len() - self.id,
    {
        match &self.raw_dom_data {
            NodeData::Text(t) => {
                out.append(t.content.as_str());
            },
            NodeData::Element(_) => {
                let k_max = self.children.len();
                let mut k: usize = 0;
                while k < k_max
                    invariant
                        tree_wf(tree@),
                        self.id < tree@.len(),
                        tree@[self.id as int] == *self,
                        self.raw_dom_data is Element,
                        k_max == self.children@.len(),
                        0 <= k <= k_max,
                        out@ == old(out)@ + children_text_upto(tree@, self.id as int, k as int),
                    decreases k_max - k,
                {
                    let cid = self.children[k];
                    proof {
                        assert(self.id < tree@[self.id as int].children@[k as int] < tree@.len());
                    }
                    let ghost pre = out@;
                    let child = tree.at(cid);
                    child.write_text_content(tree, out);
                    proof {
                        assert(children_text_upto(tree@, self.id as int, k + 1int)
                            == children_text_upto(tree@, self.id as int, k as int) + subtree_text(
                            tree@,
                            cid as int,
                        ));
                        assert(out@ =~= old(out)@ + children_text_upto(
                            tree@,
                            self.id as int,
                            k + 1int,
                        ));
                    }
                    k += 1;
                }
                assert(out@ == old(out)@ + subtree_text(tree@, self.id as int));
            },
            _ => {
                assert(final(out)@ =~= old(out)@ + subtree_text(tree@, self.id as int));
            },
        }
    }
}

} // verus!
