use crate::nav_builder::{build_wf, end_step, initial_state, start_step, BuildState, NavBuilder};
use crate::tree::FlatTree;
use crate::values::VecValues;
use vstd::prelude::*;

verus! {

/// Builds a `FlatTree` from a balanced series of open and close events, each
/// opened node carrying a payload.
pub struct Builder<A> {
    nav_builder: NavBuilder,
    values: Vec<A>,
}

impl<A> Builder<A> {
    /// The structure built so far.
    pub closed spec fn state(&self) -> BuildState {
        self.nav_builder@
    }

    /// The payloads given so far, in node order.
    pub closed spec fn values(&self) -> Seq<A> {
        self.values@
    }

    /// The structure is consistent and there is one payload per node.
    pub open spec fn wf(&self) -> bool {
        &&& build_wf(self.state())
        &&& self.values().len() == self.state().nodes.len()
    }

    /// A builder with no nodes.
    pub fn new() -> (r: Builder<A>)
        ensures
            r.wf(),
            r.state() == initial_state(),
            r.values() == Seq::<A>::empty(),
    {
        let r = Builder { nav_builder: NavBuilder::new(), values: Vec::new() };
        assert(r.values() =~= Seq::<A>::empty());
        r
    }

    /// A builder with no nodes and room reserved for `c` of them.
    pub fn with_capacity(c: usize) -> (r: Builder<A>)
        ensures
            r.wf(),
            r.state() == initial_state(),
            r.values() == Seq::<A>::empty(),
    {
        let r = Builder { nav_builder: NavBuilder::with_capacity(c), values: Vec::with_capacity(c) };
        assert(r.values() =~= Seq::<A>::empty());
        r
    }

    /// The payload of node `index`, absent if no such node was opened.
    pub fn get(&self, index: usize) -> (r: Option<&A>)
        ensures
            index < self.values().len() ==> (r matches Some(v) && *v == self.values()[index as int]),
            index >= self.values().len() ==> r is None,
    {
        if index < self.values.len() {
            Some(&self.values[index])
        } else {
            None
        }
    }

    /// A mutable reference to the payload of node `index`, absent if no such
    /// node was opened. Only that payload can change through it.
    pub fn get_mut(&mut self, index: usize) -> (r: Option<&mut A>)
        ensures
            final(self).state() == old(self).state(),
            index < old(self).values().len() ==> (r matches Some(v) && *v == old(self).values()[
                index as int] && final(self).values() == old(self).values().update(
                index as int,
                *final(v),
            )),
            index >= old(self).values().len() ==> (r is None && final(self).values() == old(self).values()),
    {
        if index < self.values.len() {
            Some(&mut self.values[index])
        } else {
            None
        }
    }

    /// The number of nodes opened and not yet closed. `end_element` needs it
    /// above 0, and `build` needs it to be 0.
    pub fn open_count(&self) -> (r: usize)
        ensures
            r == self.state().open.len(),
    {
        self.nav_builder.open_count()
    }

    /// Opens a new node carrying `el` under the innermost open node (or as a
    /// root) and returns its index, the number of nodes before the call.
    pub fn start_element(&mut self, el: A) -> (r: usize)
        requires
            old(self).wf(),
            old(self).state().nodes.len() < usize::MAX,
        ensures
            final(self).wf(),
            r == old(self).state().nodes.len(),
            final(self).state() == start_step(old(self).state()),
            final(self).values() == old(self).values().push(el),
    {
        self.values.push(el);
        self.nav_builder.start_element()
    }

    /// Closes the innermost open node and returns its index.
    pub fn end_element(&mut self) -> (r: usize)
        requires
            old(self).wf(),
            old(self).state().open.len() > 0,
        ensures
            final(self).wf(),
            r == old(self).state().open.last(),
            final(self).state() == end_step(old(self).state()),
            final(self).values() == old(self).values(),
    {
        self.nav_builder.end_element()
    }

    /// Opens and at once closes a leaf node carrying `el`, returning its index.
    pub fn start_end_element(&mut self, el: A) -> (r: usize)
        requires
            old(self).wf(),
            old(self).state().nodes.len() < usize::MAX,
        ensures
            final(self).wf(),
            r == old(self).state().nodes.len(),
            final(self).state() == end_step(start_step(old(self).state())),
            final(self).values() == old(self).values().push(el),
    {
        self.values.push(el);
        self.nav_builder.start_end_element()
    }

    /// Finishes the tree. Every opened node must have been closed.
    pub fn build(self) -> (r: FlatTree<VecValues<A>>)
        requires
            self.wf(),
            self.state().open.len() == 0,
        ensures
            r.spec_nav().wf(),
            r.spec_nav()@ == self.state().nodes,
            r.spec_values()@ == self.values(),
    {
        FlatTree::new(self.nav_builder.build(), VecValues::from_vec(self.values))
    }
}

} // verus!
