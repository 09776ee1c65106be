use crate::links::{
    children_of, first_child_of, is_ancestor, links_wf, next_sibling_of, node_wf, parent_of,
    prev_sibling_of, sibling_chain,
};
use crate::navigator::{is_depth_first_visit_list, Navigator};
use crate::nav_builder::{
    apply_event, balanced_from, build_wf, end_step, initial_state, lemma_end_step,
    lemma_start_step, opened_count, run_events, start_step, BuildEvent, BuildState,
};
use crate::neighbors::Neighbors;
use vstd::prelude::*;

verus! {

/// Following `next_sibling` from `i` to `j` and `prev_sibling` from `j` to
/// `i` are the same link, seen from its two ends.
pub proof fn lemma_sibling_symmetry(nav: &Navigator, i: usize, j: usize)
    requires
        nav.wf(),
    ensures
        next_sibling_of(nav@, i as int) == Some(j) <==> prev_sibling_of(nav@, j as int) == Some(i),
{
    let s = nav@;
    if i < s.len() {
        assert(node_wf(s, i as int));
    }
    if j < s.len() {
        assert(node_wf(s, j as int));
    }
}

/// A node that has a parent but no previous sibling is the first child of
/// that parent, and it is stored right after the parent.
pub proof fn lemma_first_child_follows_parent(nav: &Navigator, c: usize)
    requires
        nav.wf(),
        c < nav@.len(),
        nav@[c as int].parent is Some,
        nav@[c as int].prev_sibling is None,
    ensures
        c == nav@[c as int].parent.unwrap() + 1,
        first_child_of(nav@, nav@[c as int].parent.unwrap() as int) == Some(c),
{
    assert(node_wf(nav@, c as int));
}

/// Every descendant of a node has a greater index than the node.
pub proof fn lemma_descendant_after(nav: &Navigator, a: int, d: int)
    requires
        nav.wf(),
        is_ancestor(nav@, a, d),
    ensures
        a < d,
    decreases d,
{
    let s = nav@;
    assert(node_wf(s, d));
    let p = s[d].parent.unwrap() as int;
    if p != a {
        lemma_descendant_after(nav, a, p);
    }
}

/// The nodes of a sibling chain stand in increasing order, at or after its
/// start, and share the start node's parent.
proof fn lemma_chain_shape(s: Seq<Neighbors<usize>>, c: usize)
    requires
        links_wf(s),
        c < s.len(),
    ensures
        forall|k: int|
            0 <= k < sibling_chain(s, Some(c)).len() ==> {
                &&& c <= #[trigger] sibling_chain(s, Some(c))[k] < s.len()
                &&& s[sibling_chain(s, Some(c))[k] as int].parent == s[c as int].parent
            },
        forall|a: int, b: int|
            0 <= a < b < sibling_chain(s, Some(c)).len() ==> sibling_chain(s, Some(c))[a]
                < sibling_chain(s, Some(c))[b],
    decreases s.len() - c,
{
    assert(node_wf(s, c as int));
    if let Some(k) = s[c as int].next_sibling {
        lemma_chain_shape(s, k);
        let tail = sibling_chain(s, Some(k));
        assert(sibling_chain(s, Some(c)) == seq![c] + tail);
        assert forall|x: int| 0 <= x < tail.len() implies s[tail[x] as int].parent
            == s[c as int].parent by {}
    }
}

/// A sibling chain that holds `k` also holds the next sibling of `k`.
proof fn lemma_chain_next(s: Seq<Neighbors<usize>>, c: usize, k: usize)
    requires
        links_wf(s),
        c < s.len(),
        sibling_chain(s, Some(c)).contains(k),
        s[k as int].next_sibling is Some,
    ensures
        sibling_chain(s, Some(c)).contains(s[k as int].next_sibling.unwrap()),
    decreases s.len() - c,
{
    assert(node_wf(s, c as int));
    let chain = sibling_chain(s, Some(c));
    match s[c as int].next_sibling {
        Some(n) => {
            let tail = sibling_chain(s, Some(n));
            assert(chain == seq![c] + tail);
            if k == c {
                assert(node_wf(s, n as int));
                assert(tail[0] == n);
                assert(chain[1] == n);
            } else {
                let x = choose|x: int| 0 <= x < chain.len() && chain[x] == k;
                assert(tail[x - 1] == k);
                lemma_chain_next(s, n, k);
                let y = choose|y: int| 0 <= y < tail.len() && tail[y] == s[k as int].next_sibling.unwrap();
                assert(chain[y + 1] == tail[y]);
            }
        },
        None => {
            assert(chain == seq![c]);
            assert(chain[0] == k);
        },
    }
}

/// Every node whose parent is `p` lies on the chain from `p`'s first child.
proof fn lemma_child_on_chain(s: Seq<Neighbors<usize>>, p: usize, j: usize)
    requires
        links_wf(s),
        j < s.len(),
        s[j as int].parent == Some(p),
    ensures
        first_child_of(s, p as int) is Some,
        sibling_chain(s, first_child_of(s, p as int)).contains(j),
    decreases j,
{
    assert(node_wf(s, j as int));
    match s[j as int].prev_sibling {
        None => {
            assert(first_child_of(s, p as int) == Some(j));
            assert(sibling_chain(s, Some(j))[0] == j);
        },
        Some(k) => {
            assert(node_wf(s, k as int));
            lemma_child_on_chain(s, p, k);
            lemma_chain_next(s, first_child_of(s, p as int).unwrap(), k);
        },
    }
}

/// The children of `i` are exactly the nodes whose parent is `i`, listed in
/// increasing index order, each after `i`.
pub proof fn lemma_children_exact(nav: &Navigator, i: usize)
    requires
        nav.wf(),
    ensures
        forall|j: usize| children_of(nav@, i as int).contains(j) <==> parent_of(nav@, j as int) == Some(i),
        forall|a: int, b: int|
            0 <= a < b < children_of(nav@, i as int).len() ==> children_of(nav@, i as int)[a]
                < children_of(nav@, i as int)[b],
        forall|k: int|
            0 <= k < children_of(nav@, i as int).len() ==> i < #[trigger] children_of(nav@, i as int)[k] < nav@.len(),
{
    let s = nav@;
    let ch = children_of(s, i as int);
    if first_child_of(s, i as int) is Some {
        let c = first_child_of(s, i as int).unwrap();
        lemma_chain_shape(s, c);
        assert(ch == sibling_chain(s, Some(c)));
        assert(c == i + 1 && s[c as int].parent == Some(i));
        assert forall|k: int| 0 <= k < ch.len() implies i < #[trigger] ch[k] < s.len() by {
            assert(s[ch[k] as int].parent == Some(i));
            assert(0 <= ch[k] < s.len());
            assert(node_wf(s, ch[k] as int));
        }
    }
    assert forall|j: usize| ch.contains(j) <==> parent_of(s, j as int) == Some(i) by {
        if parent_of(s, j as int) == Some(i) {
            lemma_child_on_chain(s, i, j);
        }
        if ch.contains(j) {
            let x = choose|x: int| 0 <= x < ch.len() && ch[x] == j;
            assert(ch[x] == j);
        }
    }
}

/// A depth-first visit list names every node exactly once, and lists the
/// children of each node before the node itself.
pub proof fn lemma_depth_first_complete(nav: &Navigator, v: Seq<(usize, Vec<usize>)>)
    requires
        nav.wf(),
        is_depth_first_visit_list(nav@, v),
    ensures
        forall|i: int| 0 <= i < nav@.len() ==> (#[trigger] v[nav@.len() - 1 - i]).0 == i,
        forall|a: int, b: int|
            0 <= a < v.len() && 0 <= b < v.len() && (#[trigger] v[a]).0 == (#[trigger] v[b]).0 ==> a == b,
        forall|k: int, c: usize|
            0 <= k < v.len() && #[trigger] v[k].1@.contains(c) ==> exists|e: int|
                0 <= e < k && (#[trigger] v[e]).0 == c,
{
    let n = nav@.len();
    assert forall|k: int, c: usize| 0 <= k < v.len() && #[trigger] v[k].1@.contains(c) implies exists|e: int|
        0 <= e < k && (#[trigger] v[e]).0 == c by {
        let i = v[k].0;
        lemma_children_exact(nav, i);
        let x = choose|x: int| 0 <= x < v[k].1@.len() && v[k].1@[x] == c;
        assert(i < children_of(nav@, i as int)[x] < n);
        assert(v[n - 1 - c].0 == c);
    }
}

/// Opening and closing nodes in any balanced order, starting from an empty
/// builder, ends with no node open, consistent links, and one node for each
/// event that opened one.
pub proof fn lemma_balanced_build(events: Seq<BuildEvent>)
    requires
        balanced_from(0, events),
        opened_count(events) < usize::MAX,
    ensures
        build_wf(run_events(initial_state(), events)),
        run_events(initial_state(), events).open.len() == 0,
        run_events(initial_state(), events).nodes.len() == opened_count(events),
{
    lemma_run_events(initial_state(), events);
}

/// Running events from any consistent state keeps the invariant, and moves
/// the depth and node count by what the events open and close.
proof fn lemma_run_events(st: BuildState, events: Seq<BuildEvent>)
    requires
        build_wf(st),
        balanced_from(st.open.len() as int, events),
        st.nodes.len() + opened_count(events) < usize::MAX,
    ensures
        build_wf(run_events(st, events)),
        run_events(st, events).open.len() == 0,
        run_events(st, events).nodes.len() == st.nodes.len() + opened_count(events),
    decreases events.len(),
{
    if events.len() > 0 {
        let rest = events.drop_first();
        match events[0] {
            BuildEvent::Start => {
                lemma_start_step(st);
            },
            BuildEvent::StartEnd => {
                lemma_start_step(st);
                lemma_end_step(start_step(st));
            },
            BuildEvent::End => {
                lemma_end_step(st);
            },
        }
        lemma_run_events(apply_event(st, events[0]), rest);
    }
}

} // verus!
