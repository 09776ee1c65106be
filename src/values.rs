use vstd::prelude::*;

verus! {

/// The payloads of a tree's nodes, one per node index.
pub struct VecValues<A> {
    values: Vec<A>,
}

impl<A> View for VecValues<A> {
    type V = Seq<A>;

    closed spec fn view(&self) -> Seq<A> {
        self.values@
    }
}

impl<A> VecValues<A> {
    /// Takes the payloads, the one of node `i` at position `i`.
    pub fn from_vec(values: Vec<A>) -> (r: VecValues<A>)
        ensures
            r@ == values@,
    {
        VecValues { values }
    }

    /// The number of payloads.
    pub fn len(&self) -> (r: usize)
        ensures
            r == self@.len(),
    {
        self.values.len()
    }

    /// The payload of node `index`, absent past the end.
    pub fn get(&self, index: usize) -> (r: Option<&A>)
        ensures
            index < self@.len() ==> (r matches Some(v) && *v == self@[index as int]),
            index >= self@.len() ==> r is None,
    {
        if index < self.values.len() {
            Some(&self.values[index])
        } else {
            None
        }
    }
}

} // verus!
