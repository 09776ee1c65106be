use flange_flat_tree::{Builder, VecValues};

#[test]
fn builder_keeps_payloads_in_node_order() {
    let mut b: Builder<&str> = Builder::new();
    assert_eq!(b.start_element("root"), 0);
    assert_eq!(b.start_end_element("a"), 1);
    assert_eq!(b.start_end_element("b"), 2);
    assert_eq!(b.end_element(), 0);
    assert_eq!(b.get(1), Some(&"a"));
    assert_eq!(b.get(3), None);
    let tree = b.build();
    let nav = tree.get_nav();
    assert_eq!(nav.children(0), vec![1, 2]);
    assert_eq!(nav.parent(2), Some(0));
    let values = tree.get_values();
    assert_eq!(values.len(), 3);
    assert_eq!(values.get(0), Some(&"root"));
    assert_eq!(values.get(2), Some(&"b"));
    assert_eq!(values.get(3), None);
}

#[test]
fn builder_get_mut_changes_one_payload() {
    let mut b: Builder<u32> = Builder::with_capacity(2);
    b.start_element(10);
    b.start_end_element(20);
    if let Some(v) = b.get_mut(1) {
        *v = 25;
    }
    assert!(b.get_mut(2).is_none());
    b.end_element();
    assert_eq!(b.get(0), Some(&10));
    assert_eq!(b.get(1), Some(&25));
    let tree = b.build();
    assert_eq!(tree.get_values().get(1), Some(&25));
}

#[test]
fn empty_payload_tree() {
    let b: Builder<u8> = Builder::new();
    let tree = b.build();
    assert_eq!(tree.get_nav().len(), 0);
    assert_eq!(tree.get_values().len(), 0);
    assert_eq!(tree.get_nav().children(0), Vec::<usize>::new());
}

#[test]
fn values_from_vec() {
    let v = VecValues::from_vec(vec![3, 1, 4]);
    assert_eq!(v.len(), 3);
    assert_eq!(v.get(2), Some(&4));
    assert_eq!(v.get(5), None);
}

#[test]
fn payload_builder_open_count() {
    let mut b: Builder<char> = Builder::new();
    assert_eq!(b.open_count(), 0);
    b.start_element('x');
    b.start_element('y');
    assert_eq!(b.open_count(), 2);
    assert_eq!(b.end_element(), 1);
    assert_eq!(b.open_count(), 1);
    assert_eq!(b.end_element(), 0);
    assert_eq!(b.open_count(), 0);
}
