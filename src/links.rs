use crate::neighbors::Neighbors;
use vstd::prelude::*;

verus! {

/// The parent of node `i`, absent for a root or for an index past the end.
pub open spec fn parent_of(s: Seq<Neighbors<usize>>, i: int) -> Option<usize> {
    if 0 <= i < s.len() {
        s[i].parent
    } else {
        None
    }
}

/// The previous sibling of node `i`, absent also for an index past the end.
pub open spec fn prev_sibling_of(s: Seq<Neighbors<usize>>, i: int) -> Option<usize> {
    if 0 <= i < s.len() {
        s[i].prev_sibling
    } else {
        None
    }
}

/// The next sibling of node `i`, absent also for an index past the end.
pub open spec fn next_sibling_of(s: Seq<Neighbors<usize>>, i: int) -> Option<usize> {
    if 0 <= i < s.len() {
        s[i].next_sibling
    } else {
        None
    }
}

/// The first child of node `i`: the node right after it, when that node's
/// parent is `i`.
pub open spec fn first_child_of(s: Seq<Neighbors<usize>>, i: int) -> Option<usize> {
    if 0 <= i && i + 1 < s.len() && s[i + 1].parent == Some(i as usize) {
        Some((i + 1) as usize)
    } else {
        None
    }
}

/// The nodes met when starting at `c` and following `next_sibling` links
/// until none is left.
pub open spec fn sibling_chain(s: Seq<Neighbors<usize>>, c: Option<usize>) -> Seq<usize>
    decreases
            match c {
                Some(j) => s.len() - j,
                None => 0,
            },
{
    match c {
        Some(j) => {
            if j < s.len() {
                match s[j as int].next_sibling {
                    Some(k) => {
                        if j < k && k < s.len() {
                            seq![j] + sibling_chain(s, Some(k))
                        } else {
                            seq![j]
                        }
                    },
                    None => seq![j],
                }
            } else {
                Seq::empty()
            }
        },
        None => Seq::empty(),
    }
}

/// The children of node `i`, in order: the sibling chain from its first child.
pub open spec fn children_of(s: Seq<Neighbors<usize>>, i: int) -> Seq<usize> {
    sibling_chain(s, first_child_of(s, i))
}

/// The links of node `i` agree with the rest of the sequence: a parent comes
/// before its children, sibling links point both ways between nodes of one
/// parent, and a child has no previous sibling exactly when it sits right
/// after its parent, and a root has none exactly when it is the first node.
pub open spec fn node_wf(s: Seq<Neighbors<usize>>, i: int) -> bool {
    &&& (s[i].parent matches Some(p) ==> p < i)
    &&& (s[i].prev_sibling matches Some(j) ==> {
        &&& j < i
        &&& s[j as int].next_sibling == Some(i as usize)
        &&& s[j as int].parent == s[i].parent
    })
    &&& (s[i].next_sibling matches Some(j) ==> {
        &&& i < j < s.len()
        &&& s[j as int].prev_sibling == Some(i as usize)
        &&& s[j as int].parent == s[i].parent
    })
    &&& (s[i].parent matches Some(p) ==> (s[i].prev_sibling is None <==> i == p + 1))
    &&& (s[i].parent is None ==> (s[i].prev_sibling is None <==> i == 0))
}

/// Every node's links are consistent, and every node has a `usize` index.
pub open spec fn links_wf(s: Seq<Neighbors<usize>>) -> bool {
    &&& s.len() <= usize::MAX
    &&& forall|i: int| 0 <= i < s.len() ==> #[trigger] node_wf(s, i)
}

/// `a` is a proper ancestor of `d`: it is reached from `d` by one or more
/// steps up the parent links.
pub open spec fn is_ancestor(s: Seq<Neighbors<usize>>, a: int, d: int) -> bool
    decreases d,
{
    if 0 <= d < s.len() {
        match s[d].parent {
            Some(p) => p == a || (p < d && is_ancestor(s, a, p as int)),
            None => false,
        }
    } else {
        false
    }
}

} // verus!
