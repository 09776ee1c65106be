use flange_flat_tree::nav_builder::NavBuilder;
use flange_flat_tree::Navigator;

fn scenario_three() -> Navigator {
    let mut b = NavBuilder::new();
    assert_eq!(b.start_element(), 0);
    assert_eq!(b.start_end_element(), 1);
    assert_eq!(b.start_end_element(), 2);
    assert_eq!(b.end_element(), 0);
    b.build()
}

#[test]
fn empty_builder_gives_empty_navigator() {
    let nav = NavBuilder::new().build();
    assert_eq!(nav.len(), 0);
    assert_eq!(nav.children(0), Vec::<usize>::new());
    assert_eq!(nav.parent(0), None);
    assert_eq!(nav.first_child(0), None);
    assert_eq!(nav.next_sibling(0), None);
    assert_eq!(nav.prev_sibling(0), None);
}

#[test]
fn single_leaf() {
    let mut b = NavBuilder::with_capacity(4);
    assert_eq!(b.start_end_element(), 0);
    let nav = b.build();
    assert_eq!(nav.len(), 1);
    assert_eq!(nav.parent(0), None);
    assert_eq!(nav.children(0), Vec::<usize>::new());
    assert_eq!(nav.first_child(0), None);
}

#[test]
fn root_with_two_children() {
    let nav = scenario_three();
    assert_eq!(nav.children(0), vec![1, 2]);
    assert_eq!(nav.next_sibling(1), Some(2));
    assert_eq!(nav.prev_sibling(2), Some(1));
    assert_eq!(nav.first_child(0), Some(1));
    assert_eq!(nav.parent(1), Some(0));
    assert_eq!(nav.parent(2), Some(0));
    assert_eq!(nav.parent(0), None);
    assert_eq!(nav.prev_sibling(1), None);
    assert_eq!(nav.next_sibling(2), None);
    assert_eq!(nav.first_child(1), None);
    assert_eq!(nav.first_child(2), None);
    assert_eq!(nav.children(1), Vec::<usize>::new());
}

#[test]
fn two_roots() {
    let mut b = NavBuilder::new();
    assert_eq!(b.start_end_element(), 0);
    assert_eq!(b.start_end_element(), 1);
    let nav = b.build();
    assert_eq!(nav.parent(0), None);
    assert_eq!(nav.parent(1), None);
    assert_eq!(nav.next_sibling(0), Some(1));
    assert_eq!(nav.prev_sibling(1), Some(0));
    assert_eq!(nav.first_child(0), None);
    assert_eq!(nav.children(0), Vec::<usize>::new());
}

#[test]
fn depth_first_visits_descending() {
    let nav = scenario_three();
    let mut order = Vec::new();
    let mut visited = vec![false; 3];
    nav.for_each_depth_first(|i, childs| {
        visited[i] = true;
        for c in childs {
            assert!(visited[c]);
        }
        order.push(i);
    });
    assert_eq!(order, vec![2, 1, 0]);
    assert!(visited.iter().all(|v| *v));
}

#[test]
fn depth_first_visit_list() {
    let nav = scenario_three();
    let visits = nav.depth_first_visits();
    assert_eq!(visits, vec![(2, vec![]), (1, vec![]), (0, vec![1, 2])]);
}

#[test]
fn out_of_range_queries_are_absent() {
    let nav = scenario_three();
    assert_eq!(nav.parent(3), None);
    assert_eq!(nav.first_child(3), None);
    assert_eq!(nav.first_child(usize::MAX), None);
    assert_eq!(nav.next_sibling(99), None);
    assert_eq!(nav.prev_sibling(usize::MAX), None);
    assert_eq!(nav.children(7), Vec::<usize>::new());
}

#[test]
fn nested_tree_links() {
    // 0 ( 1 ( 2 3 ) 4 ( 5 ) ) 6
    let mut b = NavBuilder::new();
    assert_eq!(b.start_element(), 0);
    assert_eq!(b.start_element(), 1);
    assert_eq!(b.start_end_element(), 2);
    assert_eq!(b.start_end_element(), 3);
    assert_eq!(b.end_element(), 1);
    assert_eq!(b.start_element(), 4);
    assert_eq!(b.start_end_element(), 5);
    assert_eq!(b.end_element(), 4);
    assert_eq!(b.end_element(), 0);
    assert_eq!(b.start_end_element(), 6);
    let nav = b.build();
    assert_eq!(nav.len(), 7);
    assert_eq!(nav.children(0), vec![1, 4]);
    assert_eq!(nav.children(1), vec![2, 3]);
    assert_eq!(nav.children(4), vec![5]);
    assert_eq!(nav.first_child(4), Some(5));
    assert_eq!(nav.next_sibling(1), Some(4));
    assert_eq!(nav.prev_sibling(4), Some(1));
    assert_eq!(nav.next_sibling(3), None);
    assert_eq!(nav.next_sibling(0), Some(6));
    assert_eq!(nav.prev_sibling(6), Some(0));
    assert_eq!(nav.parent(5), Some(4));
    assert_eq!(nav.parent(6), None);
    let n = nav.get_neighbors(4);
    assert_eq!(n.parent, Some(0));
    assert_eq!(n.prev_sibling, Some(1));
    assert_eq!(n.next_sibling, None);
}

#[test]
fn sibling_links_are_symmetric() {
    let mut b = NavBuilder::new();
    b.start_element();
    b.start_end_element();
    b.start_element();
    b.start_end_element();
    b.end_element();
    b.start_end_element();
    b.end_element();
    b.start_end_element();
    let nav = b.build();
    for i in 0..nav.len() {
        if let Some(j) = nav.next_sibling(i) {
            assert_eq!(nav.prev_sibling(j), Some(i));
        }
        if let Some(j) = nav.prev_sibling(i) {
            assert_eq!(nav.next_sibling(j), Some(i));
        }
    }
}

#[test]
fn first_child_sits_after_parent() {
    let mut b = NavBuilder::new();
    b.start_element();
    b.start_element();
    b.start_end_element();
    b.end_element();
    b.end_element();
    let nav = b.build();
    for i in 0..nav.len() {
        if let Some(p) = nav.parent(i) {
            if nav.prev_sibling(i).is_none() {
                assert_eq!(i, p + 1);
                assert_eq!(nav.first_child(p), Some(i));
            }
        }
    }
}

#[test]
fn descendants_come_after_ancestors() {
    let mut b = NavBuilder::new();
    b.start_element();
    b.start_element();
    b.start_end_element();
    b.end_element();
    b.start_end_element();
    b.end_element();
    let nav = b.build();
    for d in 0..nav.len() {
        let mut cur = nav.parent(d);
        while let Some(a) = cur {
            assert!(a < d);
            cur = nav.parent(a);
        }
    }
}

#[test]
fn children_match_parent_links() {
    let mut b = NavBuilder::new();
    b.start_element();
    b.start_end_element();
    b.start_element();
    b.start_end_element();
    b.end_element();
    b.start_end_element();
    b.end_element();
    let nav = b.build();
    for i in 0..nav.len() {
        let ch = nav.children(i);
        let expected: Vec<usize> = (0..nav.len()).filter(|j| nav.parent(*j) == Some(i)).collect();
        assert_eq!(ch, expected);
        assert_eq!(ch.is_empty(), nav.first_child(i).is_none());
    }
    assert_eq!(nav.children(0), vec![1, 2, 4]);
}

#[test]
fn balanced_events_give_one_node_per_start() {
    let mut b = NavBuilder::new();
    let mut starts = 0;
    for _ in 0..3 {
        b.start_element();
        starts += 1;
        b.start_end_element();
        starts += 1;
    }
    for _ in 0..3 {
        b.end_element();
    }
    let nav = b.build();
    assert_eq!(nav.len(), starts);
    assert_eq!(nav.children(0), vec![1, 2]);
    assert_eq!(nav.children(2), vec![3, 4]);
    assert_eq!(nav.children(4), vec![5]);
}

#[test]
fn protocol_violations_are_detectable() {
    let mut b = NavBuilder::new();
    // nothing open: closing a node is not allowed
    assert_eq!(b.open_count(), 0);
    b.start_element();
    // a node still open: building is not allowed
    assert_eq!(b.open_count(), 1);
    b.start_end_element();
    assert_eq!(b.open_count(), 1);
    b.end_element();
    assert_eq!(b.open_count(), 0);
    assert_eq!(b.build().len(), 2);
}
