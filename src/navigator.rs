use crate::links::{children_of, first_child_of, links_wf, next_sibling_of, parent_of, prev_sibling_of, sibling_chain};
use crate::neighbors::Neighbors;
use vstd::prelude::*;

verus! {

/// The structure of a finished tree: one `Neighbors` record per node, at the
/// node's depth-first position. It answers parent, child and sibling queries
/// with the index of the node found.
#[derive(Debug)]
pub struct Navigator {
    neighbors: Vec<Neighbors<usize>>,
}

/// `v` pairs each node with its children, from the highest index down to 0.
pub open spec fn is_depth_first_visit_list(
    s: Seq<Neighbors<usize>>,
    v: Seq<(usize, Vec<usize>)>,
) -> bool {
    &&& v.len() == s.len()
    &&& forall|k: int|
        0 <= k < v.len() ==> {
            &&& (#[trigger] v[k]).0 == s.len() - 1 - k
            &&& v[k].1@ == children_of(s, s.len() - 1 - k)
        }
}

/// `f` has been called for node `i` with the children of `i`.
pub open spec fn visited_with_children<F: FnMut(usize, Vec<usize>)>(
    f: F,
    s: Seq<Neighbors<usize>>,
    i: usize,
) -> bool {
    exists|c: Vec<usize>| c@ == children_of(s, i as int) && #[trigger] call_ensures(f, (i, c), ())
}

impl View for Navigator {
    type V = Seq<Neighbors<usize>>;

    closed spec fn view(&self) -> Seq<Neighbors<usize>> {
        self.neighbors@
    }
}

impl Navigator {
    /// The links of all nodes are consistent with each other.
    pub open spec fn wf(&self) -> bool {
        links_wf(self@)
    }

    /// Wraps the link records made by a builder.
    pub(crate) fn new(neighbors: Vec<Neighbors<usize>>) -> (r: Navigator)
        ensures
            r@ == neighbors@,
    {
        Navigator { neighbors }
    }

    /// The number of nodes.
    pub fn len(&self) -> (r: usize)
        ensures
            r == self@.len(),
    {
        self.neighbors.len()
    }

    /// Each node paired with its children, from the highest index down to 0,
    /// so that every node comes after all of its descendants.
    pub fn depth_first_visits(&self) -> (r: Vec<(usize, Vec<usize>)>)
        requires
            self.wf(),
        ensures
            is_depth_first_visit_list(self@, r@),
    {
        let n = self.neighbors.len();
        let mut out: Vec<(usize, Vec<usize>)> = Vec::new();
        let mut i: usize = n;
        while i > 0
            invariant
                self.wf(),
                n == self@.len(),
                i <= n,
                out@.len() == n - i,
                forall|k: int|
                    0 <= k < out@.len() ==> {
                        &&& (#[trigger] out@[k]).0 == n - 1 - k
                        &&& out@[k].1@ == children_of(self@, n - 1 - k)
                    },
            decreases i,
        {
            i = i - 1;
            let c = self.children(i);
            out.push((i, c));
        }
        out
    }

    /// Calls `f` once for every node, with the node's index and its children,
    /// from the highest index down to 0: all descendants of a node are
    /// visited before the node itself.
    pub fn for_each_depth_first<F>(&self, mut f: F)
        where
            F: FnMut(usize, Vec<usize>),
        requires
            self.wf(),
            forall|i: usize, c: Vec<usize>| #[trigger] call_requires(f, (i, c)),
        ensures
            forall|i: usize| i < self@.len() ==> #[trigger] visited_with_children(f, self@, i),
    {
        let n = self.neighbors.len();
        let mut i: usize = n;
        let ghost f0 = f;
        while i > 0
            invariant
                self.wf(),
                n == self@.len(),
                i <= n,
                f == f0,
                forall|i: usize, c: Vec<usize>| #[trigger] call_requires(f, (i, c)),
                forall|j: usize| i <= j < n ==> #[trigger] visited_with_children(f, self@, j),
            decreases i,
        {
            i = i - 1;
            let c = self.children(i);
            let ghost cg = c;
            f(i, c);
            assert(cg@ == children_of(self@, i as int) && call_ensures(f, (i, cg), ()));
        }
    }

    /// The link record of node `index`.
    pub fn get_neighbors(&self, index: usize) -> (r: &Neighbors<usize>)
        requires
            index < self@.len(),
        ensures
            *r == self@[index as int],
    {
        &self.neighbors[index]
    }

    /// The parent of node `index`; absent for a root or a missing node.
    pub fn parent(&self, index: usize) -> (r: Option<usize>)
        ensures
            r == parent_of(self@, index as int),
    {
        if index < self.neighbors.len() {
            self.neighbors[index].parent
        } else {
            None
        }
    }

    /// The first child of node `index`: the node right after it, if that
    /// node's parent is `index`.
    pub fn first_child(&self, index: usize) -> (r: Option<usize>)
        ensures
            r == first_child_of(self@, index as int),
    {
        let n = self.neighbors.len();
        if n > 0 && index < n - 1 {
            match self.neighbors[index + 1].parent {
                Some(p) => {
                    if p == index {
                        Some(index + 1)
                    } else {
                        None
                    }
                },
                None => None,
            }
        } else {
            None
        }
    }

    /// The children of node `index`, in order: its first child and then each
    /// next sibling in turn. Empty for a leaf or a missing node.
    pub fn children(&self, index: usize) -> (r: Vec<usize>)
        requires
            self.wf(),
        ensures
            r@ == children_of(self@, index as int),
            r@.len() == 0 <==> first_child_of(self@, index as int) is None,
    {
        let mut res: Vec<usize> = Vec::new();
        let mut cur = self.first_child(index);
        loop
            invariant
                self.wf(),
                res@ + sibling_chain(self@, cur) == children_of(self@, index as int),
                cur matches Some(c) ==> c < self@.len(),
                res@.len() > 0 ==> first_child_of(self@, index as int) is Some,
                res@.len() == 0 ==> cur == first_child_of(self@, index as int),
            decreases
                    match cur {
                        Some(c) => self@.len() - c,
                        None => 0,
                    },
        {
            match cur {
                Some(c) => {
                    proof {
                        assert(crate::links::node_wf(self@, c as int));
                    }
                    res.push(c);
                    cur = self.neighbors[c].next_sibling;
                    proof {
                        assert(res@ + sibling_chain(self@, cur) =~= children_of(self@, index as int));
                    }
                },
                None => {
                    proof {
                        assert(res@ + sibling_chain(self@, cur) =~= res@);
                    }
                    return res;
                },
            }
        }
    }

    /// The previous sibling of node `index`; absent for a first child, the
    /// first root, or a missing node.
    pub fn prev_sibling(&self, index: usize) -> (r: Option<usize>)
        ensures
            r == prev_sibling_of(self@, index as int),
    {
        if index < self.neighbors.len() {
            self.neighbors[index].prev_sibling
        } else {
            None
        }
    }

    /// The next sibling of node `index`; absent for a last child, the last
    /// root, or a missing node.
    pub fn next_sibling(&self, index: usize) -> (r: Option<usize>)
        ensures
            r == next_sibling_of(self@, index as int),
    {
        if index < self.neighbors.len() {
            self.neighbors[index].next_sibling
        } else {
            None
        }
    }
}

} // verus!
