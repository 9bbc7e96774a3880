use screen_states::hierarchy::Hierarchy;
use screen_states::node::{same_value, Activation};

fn three_levels() -> Hierarchy {
    let mut h = Hierarchy::new();
    let root = h.add_root(0);
    let mid = h.add_sub_state(root, 4, 0).unwrap();
    h.add_sub_state(mid, 1, 0).unwrap();
    h
}

#[test]
fn root_starts_at_its_default() {
    let mut h = Hierarchy::new();
    let root = h.add_root(3);
    assert_eq!(root, 0);
    assert_eq!(h.len(), 1);
    assert_eq!(h.current(root), Some(3));
    assert_eq!(h.pending(root), None);
    assert_eq!(h.activation(root), None);
}

#[test]
fn sub_state_of_inactive_parent_starts_absent() {
    let h = three_levels();
    assert_eq!(h.len(), 3);
    assert_eq!(h.current(0), Some(0));
    assert_eq!(h.current(1), None);
    assert_eq!(h.current(2), None);
    assert_eq!(h.activation(1), Some(Activation { parent: 0, required: 4 }));
    assert_eq!(h.activation(2), Some(Activation { parent: 1, required: 1 }));
}

#[test]
fn sub_state_of_matching_parent_starts_at_default() {
    let mut h = Hierarchy::new();
    let root = h.add_root(4);
    let sub = h.add_sub_state(root, 4, 7);
    assert_eq!(sub, Some(1));
    assert_eq!(h.current(1), Some(7));
}

#[test]
fn sub_state_needs_an_existing_parent() {
    let mut h = Hierarchy::new();
    assert_eq!(h.add_sub_state(0, 1, 2), None);
    assert_eq!(h.len(), 0);
    h.add_root(0);
    assert_eq!(h.add_sub_state(1, 1, 2), None);
    assert_eq!(h.add_sub_state(5, 1, 2), None);
    assert_eq!(h.len(), 1);
}

#[test]
fn unknown_node_has_no_value() {
    let h = three_levels();
    assert_eq!(h.current(3), None);
    assert_eq!(h.pending(3), None);
    assert_eq!(h.activation(3), None);
    assert_eq!(h.planned(3), None);
}

#[test]
fn request_is_buffered_and_leaves_current_alone() {
    let mut h = three_levels();
    h.request(0, 4);
    assert_eq!(h.current(0), Some(0));
    assert_eq!(h.pending(0), Some(4));
    assert_eq!(h.current(1), None);
}

#[test]
fn last_request_wins() {
    let mut h = three_levels();
    h.request(0, 4);
    h.request(0, 2);
    assert_eq!(h.pending(0), Some(2));
    assert_eq!(h.planned(0), Some(2));
}

#[test]
fn request_on_unknown_node_is_dropped() {
    let mut h = three_levels();
    h.request(9, 1);
    assert_eq!(h.pending(0), None);
    assert_eq!(h.pending(1), None);
    assert_eq!(h.pending(2), None);
    assert_eq!(h.len(), 3);
}

#[test]
fn planned_value_follows_the_rule() {
    let mut h = three_levels();
    // No request: the root keeps what it has, the inactive sub-states stay absent.
    assert_eq!(h.planned(0), Some(0));
    assert_eq!(h.planned(1), None);
    assert_eq!(h.planned(2), None);
    // A request on an inactive sub-state plans nothing.
    h.request(1, 1);
    assert_eq!(h.planned(1), None);
}

#[test]
fn planned_value_of_active_sub_state() {
    let mut h = Hierarchy::new();
    let root = h.add_root(4);
    let sub = h.add_sub_state(root, 4, 0).unwrap();
    assert_eq!(h.planned(sub), Some(0));
    h.request(sub, 1);
    assert_eq!(h.planned(sub), Some(1));
}

#[test]
fn same_value_compares_presence_and_number() {
    assert!(same_value(None, None));
    assert!(same_value(Some(2), Some(2)));
    assert!(!same_value(Some(2), Some(3)));
    assert!(!same_value(None, Some(0)));
    assert!(!same_value(Some(0), None));
}
