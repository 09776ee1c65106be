use vstd::prelude::*;

verus! {

/// Structural metadata of one node: the index of its parent and of its
/// previous and next siblings, each absent where no such node exists.
#[derive(Clone, Copy, Debug)]
pub struct Neighbors<I> {
    pub parent: Option<I>,
    pub prev_sibling: Option<I>,
    pub next_sibling: Option<I>,
}

} // verus!
