use crate::links::{links_wf, node_wf};
use crate::navigator::Navigator;
use crate::neighbors::Neighbors;
use vstd::prelude::*;

verus! {

/// What a builder holds: the link records made so far, the nodes still open
/// (outermost first), and the most recently closed child of the innermost
/// open node, or of the top level.
pub struct BuildState {
    pub nodes: Seq<Neighbors<usize>>,
    pub open: Seq<usize>,
    pub last: Option<usize>,
}

/// The innermost open node, absent at the top level.
pub open spec fn innermost(open: Seq<usize>) -> Option<usize> {
    if open.len() == 0 {
        None
    } else {
        Some(open.last())
    }
}

/// The builder's invariant: the records are consistent, the open nodes form a
/// chain of parent and child with no next sibling yet, and `last` is the
/// latest closed child of the innermost open node.
pub open spec fn build_wf(st: BuildState) -> bool {
    &&& links_wf(st.nodes)
    &&& forall|k: int| 0 <= k < st.open.len() ==> #[trigger] st.open[k] < st.nodes.len()
    &&& forall|a: int, b: int| 0 <= a < b < st.open.len() ==> st.open[a] < st.open[b]
    &&& forall|k: int|
        0 < k < st.open.len() ==> st.nodes[#[trigger] st.open[k] as int].parent == Some(
            st.open[k - 1],
        )
    &&& st.open.len() > 0 ==> st.nodes[st.open[0] as int].parent is None
    &&& forall|k: int|
        0 <= k < st.open.len() ==> st.nodes[#[trigger] st.open[k] as int].next_sibling is None
    &&& match st.last {
        Some(l) => {
            &&& l < st.nodes.len()
            &&& st.nodes[l as int].next_sibling is None
            &&& st.nodes[l as int].parent == innermost(st.open)
        },
        None => if st.open.len() == 0 {
            st.nodes.len() == 0
        } else {
            st.open.last() == st.nodes.len() - 1
        },
    }
}

/// The state before any event.
pub open spec fn initial_state() -> BuildState {
    BuildState { nodes: Seq::empty(), open: Seq::empty(), last: None }
}

/// Opening a node: it takes the next index, its parent is the innermost open
/// node, its previous sibling is `last`, whose next sibling it becomes, and
/// it is pushed as the new innermost open node.
pub open spec fn start_step(st: BuildState) -> BuildState {
    let n = st.nodes.len();
    let linked = match st.last {
        Some(l) => st.nodes.update(
            l as int,
            Neighbors {
                parent: st.nodes[l as int].parent,
                prev_sibling: st.nodes[l as int].prev_sibling,
                next_sibling: Some(n as usize),
            },
        ),
        None => st.nodes,
    };
    BuildState {
        nodes: linked.push(
            Neighbors { parent: innermost(st.open), prev_sibling: st.last, next_sibling: None },
        ),
        open: st.open.push(n as usize),
        last: None,
    }
}

/// Closing the innermost open node: it is popped and becomes `last`.
pub open spec fn end_step(st: BuildState) -> BuildState {
    BuildState { nodes: st.nodes, open: st.open.drop_last(), last: Some(st.open.last()) }
}

/// After opening a node, the records of the old nodes other than `last` are
/// unchanged, `last` only gains a next sibling, and the new node is as given.
proof fn lemma_start_records(st: BuildState)
    requires
        st.last matches Some(l) ==> l < st.nodes.len(),
    ensures
        start_step(st).nodes.len() == st.nodes.len() + 1,
        forall|j: int|
            0 <= j < st.nodes.len() && Some(j as usize) != st.last ==> #[trigger] start_step(
                st,
            ).nodes[j] == st.nodes[j],
        st.last matches Some(l) ==> {
            &&& start_step(st).nodes[l as int].parent == st.nodes[l as int].parent
            &&& start_step(st).nodes[l as int].prev_sibling == st.nodes[l as int].prev_sibling
            &&& start_step(st).nodes[l as int].next_sibling == Some(st.nodes.len() as usize)
        },
        start_step(st).nodes[st.nodes.len() as int] == (Neighbors {
            parent: innermost(st.open),
            prev_sibling: st.last,
            next_sibling: None,
        }),
{
}

/// Opening a node leaves the links of node `i` consistent.
proof fn lemma_start_node(st: BuildState, i: int)
    requires
        build_wf(st),
        st.nodes.len() < usize::MAX,
        0 <= i <= st.nodes.len(),
    ensures
        node_wf(start_step(st).nodes, i),
{
    let n = st.nodes.len() as int;
    let s2 = start_step(st).nodes;
    lemma_start_records(st);
    if i == n {
        if let Some(l) = st.last {
            assert(node_wf(st.nodes, l as int));
        }
        if st.open.len() > 0 {
            assert(st.open[st.open.len() - 1] < st.nodes.len());
        }
    } else {
        assert(node_wf(st.nodes, i));
        if let Some(j) = st.nodes[i].prev_sibling {
            assert(s2[j as int].next_sibling == Some(i as usize));
        }
        if let Some(j) = st.nodes[i].next_sibling {
            assert(s2[j as int].prev_sibling == Some(i as usize));
        }
    }
}

/// One call on a builder: open a node, open and close a leaf, or close the
/// innermost open node.
pub enum BuildEvent {
    Start,
    StartEnd,
    End,
}

/// The state after one event.
pub open spec fn apply_event(st: BuildState, e: BuildEvent) -> BuildState {
    match e {
        BuildEvent::Start => start_step(st),
        BuildEvent::StartEnd => end_step(start_step(st)),
        BuildEvent::End => end_step(st),
    }
}

/// The state after a series of events, in order.
pub open spec fn run_events(st: BuildState, events: Seq<BuildEvent>) -> BuildState
    decreases events.len(),
{
    if events.len() == 0 {
        st
    } else {
        run_events(apply_event(st, events[0]), events.drop_first())
    }
}

/// Starting with `depth` nodes open, no event closes a node when none is
/// open, and none is left open at the end.
pub open spec fn balanced_from(depth: int, events: Seq<BuildEvent>) -> bool
    decreases events.len(),
{
    if events.len() == 0 {
        depth == 0
    } else {
        match events[0] {
            BuildEvent::Start => balanced_from(depth + 1, events.drop_first()),
            BuildEvent::StartEnd => balanced_from(depth, events.drop_first()),
            BuildEvent::End => depth > 0 && balanced_from(depth - 1, events.drop_first()),
        }
    }
}

/// The number of events that open a node.
pub open spec fn opened_count(events: Seq<BuildEvent>) -> nat
    decreases events.len(),
{
    if events.len() == 0 {
        0
    } else {
        match events[0] {
            BuildEvent::End => opened_count(events.drop_first()),
            _ => opened_count(events.drop_first()) + 1,
        }
    }
}

/// Opening a node keeps the invariant.
pub proof fn lemma_start_step(st: BuildState)
    requires
        build_wf(st),
        st.nodes.len() < usize::MAX,
    ensures
        build_wf(start_step(st)),
{
    let n = st.nodes.len();
    let s2 = start_step(st);
    lemma_start_records(st);
    assert forall|i: int| 0 <= i < s2.nodes.len() implies #[trigger] node_wf(s2.nodes, i) by {
        lemma_start_node(st, i);
    }
    if let Some(l) = st.last {
        if st.open.len() > 0 {
            assert(node_wf(st.nodes, l as int));
            assert forall|k: int| 0 <= k < st.open.len() implies st.open[k] != l by {
                if k < st.open.len() - 1 {
                    assert(st.open[k] < st.open[st.open.len() - 1]);
                }
            }
        }
    }
    assert forall|k: int| 0 <= k < s2.open.len() implies s2.nodes[#[trigger] s2.open[k] as int].next_sibling
        is None by {
        if k < st.open.len() {
            assert(st.nodes[st.open[k] as int].next_sibling is None);
        }
    }
    assert forall|k: int| 0 < k < s2.open.len() implies s2.nodes[#[trigger] s2.open[k] as int].parent
        == Some(s2.open[k - 1]) by {
        if k < st.open.len() {
            assert(st.nodes[st.open[k] as int].parent == Some(st.open[k - 1]));
        }
    }
}

/// Closing the innermost open node keeps the invariant.
pub proof fn lemma_end_step(st: BuildState)
    requires
        build_wf(st),
        st.open.len() > 0,
    ensures
        build_wf(end_step(st)),
{
    let s2 = end_step(st);
    let k = st.open.len() - 1;
    assert(st.nodes[st.open[k] as int].next_sibling is None);
    if k > 0 {
        assert(st.nodes[st.open[k] as int].parent == Some(st.open[k - 1]));
    }
    assert forall|j: int| 0 <= j < s2.open.len() implies #[trigger] s2.open[j] == st.open[j] by {}
}

/// Builds a `Navigator` from a balanced series of open and close events.
/// Nodes get their indices in the order in which they are opened.
pub struct NavBuilder {
    neighbors: Vec<Neighbors<usize>>,
    parent_stack: Vec<usize>,
    last_sibling: Option<usize>,
}

impl View for NavBuilder {
    type V = BuildState;

    closed spec fn view(&self) -> BuildState {
        BuildState { nodes: self.neighbors@, open: self.parent_stack@, last: self.last_sibling }
    }
}

impl NavBuilder {
    /// A builder with no nodes.
    pub fn new() -> (r: NavBuilder)
        ensures
            r@ == initial_state(),
            build_wf(r@),
    {
        let r = NavBuilder { neighbors: Vec::new(), parent_stack: Vec::new(), last_sibling: None };
        assert(r@.nodes =~= Seq::empty());
        assert(r@.open =~= Seq::empty());
        r
    }

    /// A builder with no nodes and room reserved for `c` of them.
    pub fn with_capacity(c: usize) -> (r: NavBuilder)
        ensures
            r@ == initial_state(),
            build_wf(r@),
    {
        let r = NavBuilder {
            neighbors: Vec::with_capacity(c),
            parent_stack: Vec::new(),
            last_sibling: None,
        };
        assert(r@.nodes =~= Seq::empty());
        assert(r@.open =~= Seq::empty());
        r
    }

    /// The number of nodes opened and not yet closed. `end_element` needs it
    /// above 0, and `build` needs it to be 0.
    pub fn open_count(&self) -> (r: usize)
        ensures
            r == self@.open.len(),
    {
        self.parent_stack.len()
    }

    /// Opens a new node under the innermost open node (or as a root) and
    /// returns its index, the number of nodes before the call.
    pub fn start_element(&mut self) -> (r: usize)
        requires
            build_wf(old(self)@),
            old(self)@.nodes.len() < usize::MAX,
        ensures
            r == old(self)@.nodes.len(),
            final(self)@ == start_step(old(self)@),
            build_wf(final(self)@),
    {
        proof {
            lemma_start_step(self@);
        }
        let index = self.neighbors.len();
        let parent = if self.parent_stack.len() == 0 {
            None
        } else {
            Some(self.parent_stack[self.parent_stack.len() - 1])
        };
        let prev = self.last_sibling;
        if let Some(l) = prev {
            let old_rec = self.neighbors[l];
            self.neighbors.set(
                l,
                Neighbors {
                    parent: old_rec.parent,
                    prev_sibling: old_rec.prev_sibling,
                    next_sibling: Some(index),
                },
            );
        }
        self.neighbors.push(Neighbors { parent, prev_sibling: prev, next_sibling: None });
        self.parent_stack.push(index);
        self.last_sibling = None;
        proof {
            assert(self@.nodes =~= start_step(old(self)@).nodes);
            assert(self@.open =~= start_step(old(self)@).open);
        }
        index
    }

    /// Closes the innermost open node and returns its index.
    pub fn end_element(&mut self) -> (r: usize)
        requires
            build_wf(old(self)@),
            old(self)@.open.len() > 0,
        ensures
            r == old(self)@.open.last(),
            final(self)@ == end_step(old(self)@),
            build_wf(final(self)@),
    {
        proof {
            lemma_end_step(self@);
        }
        let index = self.parent_stack.pop().unwrap();
        self.last_sibling = Some(index);
        proof {
            assert(self@.open =~= end_step(old(self)@).open);
        }
        index
    }

    /// Opens and at once closes a leaf node, returning its index.
    pub fn start_end_element(&mut self) -> (r: usize)
        requires
            build_wf(old(self)@),
            old(self)@.nodes.len() < usize::MAX,
        ensures
            r == old(self)@.nodes.len(),
            final(self)@ == end_step(start_step(old(self)@)),
            build_wf(final(self)@),
    {
        let index = self.start_element();
        self.end_element();
        index
    }

    /// Finishes the tree. Every opened node must have been closed.
    pub fn build(self) -> (r: Navigator)
        requires
            build_wf(self@),
            self@.open.len() == 0,
        ensures
            r@ == self@.nodes,
            r.wf(),
    {
        Navigator::new(self.neighbors)
    }
}

} // verus!
