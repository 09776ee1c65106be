use crate::navigator::Navigator;
use vstd::prelude::*;

verus! {

/// A finished tree: its structure and the payloads of its nodes.
pub struct FlatTree<V> {
    nav: Navigator,
    values: V,
}

impl<V> FlatTree<V> {
    /// Pairs a structure with the payloads of its nodes.
    pub(crate) fn new(nav: Navigator, values: V) -> (r: FlatTree<V>)
        ensures
            r.spec_nav() == nav,
            r.spec_values() == values,
    {
        FlatTree { nav, values }
    }

    /// The structure of the tree.
    pub closed spec fn spec_nav(&self) -> Navigator {
        self.nav
    }

    /// The payload storage of the tree.
    pub closed spec fn spec_values(&self) -> V {
        self.values
    }

    /// The structure of the tree.
    pub fn get_nav(&self) -> (r: &Navigator)
        ensures
            *r == self.spec_nav(),
    {
        &self.nav
    }

    /// The payload storage of the tree.
    pub fn get_values(&self) -> (r: &V)
        ensures
            *r == self.spec_values(),
    {
        &self.values
    }
}

/// A read-only handle on a tree, a subtree or a tree of payload references,
/// addressed by the navigator's node indices.
pub trait TreeData: Copy {
    type Node;

    fn count(self) -> usize;

    fn get(self, index: usize) -> Self::Node;

    fn get_nav(&self) -> &Navigator;
}

} // verus!
