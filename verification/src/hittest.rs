use vstd::prelude::*;
use crate::arena::{tree_wf, Arena};
use crate::document::{spec_root_element_id, Document};
use crate::geom::MAX_LEN_H;
use crate::node::Node;

verus! {

/// The hit target of the subtree rooted at `id` for a point given in the
/// coordinate space of the node's parent: nothing when the point falls
/// outside the node's final box, else the first child hit in document
/// order, else the node itself.
pub open spec fn spec_hit(s: Seq<Node>, id: int, x: int, y: int) -> Option<usize>
    decreases s.len() - id, 1int, 0int,
        when 0 <= id < s.len()
{
    let g = s[id].final_layout;
    let lx = x - g.x;
    let ly = y - g.y;
    if lx < 0 || lx > g.width || ly < 0 || ly > g.height {
        None
    } else {
        match children_hit_from(s, id, 0, lx, ly) {
            Some(h) => Some(h),
            None => Some(id as usize),
        }
    }
}

/// The first hit among the children of `id` from position `k` on, for a
/// point already translated into `id`'s own coordinate space.
pub open spec fn children_hit_from(s: Seq<Node>, id: int, k: int, x: int, y: int) -> Option<usize>
    decreases s.len() - id, 0int, s[id].children@.len() - k,
        when 0 <= id < s.len()
{
    if k < 0 || k >= s[id].children@.len() {
        None
    } else {
        let cid = s[id].children@[k] as int;
        let r = if id < cid < s.len() {
            spec_hit(s, cid, x, y)
        } else {
            None
        };
        if r is Some {
            r
        } else {
            children_hit_from(s, id, k + 1, x, y)
        }
    }
}

impl Node {
    /// Hit-test this node's subtree.  `x`, `y` are given in the
    /// coordinate space of the node's parent.  When several children
    /// overlap the point, the first in document order wins; stacking
    /// order is not modeled.
    #[verifier::rlimit(100)]
    #[verifier::spinoff_prover]
    pub fn hit(&self, tree: &Arena, x: i64, y: i64) -> (r: Option<usize>)
        requires
            tree_wf(tree@),
            self.id < tree@.len(),
            tree@[self.id as int] == *self,
            -2 * MAX_LEN_H <= x <= 2 * MAX_LEN_H,
            -2 * MAX_LEN_H <= y <= 2 * MAX_LEN_H,
        ensures
            r == spec_hit(tree@, self.id as int, x as int, y as int),
        decreases tree@.len() - self.id,
    {
        let g = self.final_layout;
        let lx = x - g.x;
        let ly = y - g.y;
        if lx < 0 || lx > g.width || ly < 0 || ly > g.height {
            return None;
        }
        let k_max = self.children.len();
        let mut k: usize = 0;
        while k < k_max
            invariant
                tree_wf(tree@),
                self.id < tree@.len(),
                tree@[self.id as int] == *self,
                k_max == self.children@.len(),
                0 <= k <= k_max,
                0 <= lx <= self.final_layout.width,
                0 <= ly <= self.final_layout.height,
                self.final_layout.wf(),
                lx == x - self.final_layout.x,
                ly == y - self.final_layout.y,
                children_hit_from(tree@, self.id as int, 0, lx as int, ly as int)
                    == children_hit_from(tree@, self.id as int, k as int, lx as int, ly as int),
            decreases k_max - k,
        {
            let cid = self.children[k];
            proof {
                assert(self.id < tree@[self.id as int].children@[k as int] < tree@.len());
            }
            let child = tree.at(cid);
            let r = child.hit(tree, lx, ly);
            proof {
                assert(children_hit_from(tree@, self.id as int, k as int, lx as int, ly as int)
                    == (if r is Some {
                        r
                    } else {
                        children_hit_from(tree@, self.id as int, k + 1int, lx as int, ly as int)
                    }));
            }
            if let Some(hit_id) = r {
                proof {
                    assert(spec_hit(tree@, self.id as int, x as int, y as int) == Some(hit_id));
                }
                return Some(hit_id);
            }
            k += 1;
        }
        proof {
            assert(children_hit_from(tree@, self.id as int, k as int, lx as int, ly as int)
                is None);
            assert(spec_hit(tree@, self.id as int, x as int, y as int) == Some(self.id));
        }
        Some(self.id)
    }
}

impl Document {
    /// Hit-test the resolved tree: delegate to the root element, with the
    /// point in the root element's parent space.  Nothing is hit when the
    /// point lies outside the root element's bounds, or when the tree has
    /// no root element.
    pub fn hit(&self, x: i64, y: i64) -> (r: Option<usize>)
        requires
            self.wf(),
            -2 * MAX_LEN_H <= x <= 2 * MAX_LEN_H,
            -2 * MAX_LEN_H <= y <= 2 * MAX_LEN_H,
        ensures
            match spec_root_element_id(self.nodes_view()) {
                Some(root) => r == spec_hit(self.nodes_view(), root, x as int, y as int),
                None => r is None,
            },
    {
        match self.root_element() {
            Ok(root) => {
                let t = self.tree();
                proof {
                    assert(t@ == self.nodes_view());
                    assert(t@[root.id as int] == *root);
                }
                root.hit(t, x, y)
            },
            Err(_) => None,
        }
    }
}

} // verus!
