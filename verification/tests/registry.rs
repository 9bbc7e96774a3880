use screen_states::node::{Binding, Request, ScopeTag};
use screen_states::registry::{ObjectInfo, Registry};

fn live_ids(r: &Registry) -> Vec<usize> {
    let mut out = Vec::new();
    for id in 0..r.len() {
        if r.is_live(id) {
            out.push(id);
        }
    }
    out
}

#[test]
fn new_registry_is_empty() {
    let r = Registry::new();
    assert_eq!(r.len(), 0);
    assert!(!r.is_live(0));
    assert_eq!(r.info(0), None);
    assert_eq!(r.press(0), None);
}

#[test]
fn spawn_numbers_objects_in_order() {
    let mut r = Registry::new();
    assert_eq!(r.spawn(None, None), Some(0));
    assert_eq!(r.spawn(Some(0), None), Some(1));
    assert_eq!(r.spawn(Some(1), None), Some(2));
    assert_eq!(r.len(), 3);
    assert_eq!(r.info(2), Some(ObjectInfo { owner: Some(1), tag: None, binding: None }));
    assert_eq!(live_ids(&r), vec![0, 1, 2]);
}

#[test]
fn spawn_under_missing_or_dead_owner_is_refused() {
    let mut r = Registry::new();
    assert_eq!(r.spawn(Some(0), None), None);
    assert_eq!(r.len(), 0);
    let a = r.spawn(None, None).unwrap();
    r.destroy(a);
    assert_eq!(r.spawn(Some(a), None), None);
    assert_eq!(r.len(), 1);
}

#[test]
fn tag_is_given_once() {
    let mut r = Registry::new();
    let a = r.spawn(None, None).unwrap();
    assert!(r.tag(a, 2, 0));
    assert_eq!(r.info(a).unwrap().tag, Some(ScopeTag { node: 2, variant: 0 }));
    assert!(!r.tag(a, 2, 1));
    assert_eq!(r.info(a).unwrap().tag, Some(ScopeTag { node: 2, variant: 0 }));
}

#[test]
fn tag_on_dead_or_unknown_object_is_refused() {
    let mut r = Registry::new();
    assert!(!r.tag(0, 1, 1));
    let a = r.spawn(None, None).unwrap();
    r.destroy(a);
    assert!(!r.tag(a, 1, 1));
    assert_eq!(r.info(a).unwrap().tag, None);
}

#[test]
fn destroy_takes_the_whole_subtree() {
    let mut r = Registry::new();
    let root = r.spawn(None, None).unwrap();
    let left = r.spawn(Some(root), None).unwrap();
    let right = r.spawn(Some(root), None).unwrap();
    let leaf = r.spawn(Some(left), None).unwrap();
    let other = r.spawn(None, None).unwrap();
    let deep = r.spawn(Some(leaf), None).unwrap();
    r.destroy(left);
    assert!(r.is_live(root));
    assert!(!r.is_live(left));
    assert!(r.is_live(right));
    assert!(!r.is_live(leaf));
    assert!(r.is_live(other));
    assert!(!r.is_live(deep));
    r.destroy(root);
    assert_eq!(live_ids(&r), vec![other]);
}

#[test]
fn destroy_twice_is_a_no_op() {
    let mut r = Registry::new();
    let root = r.spawn(None, None).unwrap();
    let child = r.spawn(Some(root), None).unwrap();
    let other = r.spawn(None, None).unwrap();
    r.destroy(root);
    r.destroy(root);
    r.destroy(child);
    r.destroy(77);
    assert_eq!(live_ids(&r), vec![other]);
    assert_eq!(r.len(), 3);
}

#[test]
fn cleanup_destroys_exactly_the_matching_scope() {
    let mut r = Registry::new();
    let menu = r.spawn(None, None).unwrap();
    r.tag(menu, 2, 0);
    let panel = r.spawn(Some(menu), None).unwrap();
    let button = r.spawn(Some(panel), None).unwrap();
    let hud = r.spawn(None, None).unwrap();
    r.tag(hud, 1, 1);
    let other_variant = r.spawn(None, None).unwrap();
    r.tag(other_variant, 2, 1);
    let untagged = r.spawn(None, None).unwrap();
    r.cleanup(2, 0);
    assert!(!r.is_live(menu));
    assert!(!r.is_live(panel));
    assert!(!r.is_live(button));
    assert_eq!(live_ids(&r), vec![hud, other_variant, untagged]);
}

#[test]
fn cleanup_reaches_tagged_objects_inside_other_subtrees() {
    let mut r = Registry::new();
    let root = r.spawn(None, None).unwrap();
    let inner = r.spawn(Some(root), None).unwrap();
    r.tag(inner, 1, 1);
    let below = r.spawn(Some(inner), None).unwrap();
    let sibling = r.spawn(Some(root), None).unwrap();
    r.cleanup(1, 1);
    assert_eq!(live_ids(&r), vec![root, sibling]);
    assert!(!r.is_live(below));
}

#[test]
fn cleanup_with_nothing_tagged_changes_nothing() {
    let mut r = Registry::new();
    let a = r.spawn(None, None).unwrap();
    r.tag(a, 0, 4);
    let b = r.spawn(Some(a), None).unwrap();
    let before: Vec<Option<ObjectInfo>> = (0..r.len()).map(|i| r.info(i)).collect();
    r.cleanup(0, 3);
    r.cleanup(0, 3);
    r.cleanup(5, 4);
    let after: Vec<Option<ObjectInfo>> = (0..r.len()).map(|i| r.info(i)).collect();
    assert_eq!(before, after);
    assert_eq!(live_ids(&r), vec![a, b]);
}

#[test]
fn cleanup_twice_equals_cleanup_once() {
    let mut r = Registry::new();
    let a = r.spawn(None, None).unwrap();
    r.tag(a, 2, 1);
    let b = r.spawn(Some(a), None).unwrap();
    let c = r.spawn(None, None).unwrap();
    r.cleanup(2, 1);
    let once = live_ids(&r);
    r.cleanup(2, 1);
    assert_eq!(live_ids(&r), once);
    assert_eq!(once, vec![c]);
    assert!(!r.is_live(b));
}

#[test]
fn cleanup_after_explicit_destroy_is_a_no_op() {
    let mut r = Registry::new();
    let a = r.spawn(None, None).unwrap();
    r.tag(a, 2, 0);
    let keep = r.spawn(None, None).unwrap();
    r.destroy(a);
    r.cleanup(2, 0);
    assert_eq!(live_ids(&r), vec![keep]);
}

#[test]
fn press_gives_the_binding_of_a_live_object() {
    let mut r = Registry::new();
    let root = r.spawn(None, None).unwrap();
    let bound = Binding::Fixed(Request { node: 1, value: 0 });
    let button = r.spawn(Some(root), Some(bound)).unwrap();
    assert_eq!(r.press(root), None);
    assert_eq!(r.press(button), Some(bound));
    assert_eq!(r.press(9), None);
    r.destroy(root);
    assert_eq!(r.press(button), None);
}

#[test]
fn owned_lists_direct_children_oldest_first() {
    let mut r = Registry::new();
    let root = r.spawn(None, None).unwrap();
    let a = r.spawn(Some(root), None).unwrap();
    let b = r.spawn(Some(a), None).unwrap();
    let c = r.spawn(Some(root), None).unwrap();
    assert_eq!(r.owned(root), Some(&vec![a, c]));
    assert_eq!(r.owned(a), Some(&vec![b]));
    assert_eq!(r.owned(c), Some(&vec![]));
    assert_eq!(r.owned(4), None);
    r.destroy(a);
    assert_eq!(r.owned(root), Some(&vec![a, c]));
}
