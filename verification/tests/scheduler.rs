use screen_states::dispatch::{dispatch_press, resolve};
use screen_states::hierarchy::Hierarchy;
use screen_states::node::{Binding, Request, Transition};
use screen_states::registry::Registry;
use screen_states::scheduler::apply_all;

fn three_levels() -> Hierarchy {
    let mut h = Hierarchy::new();
    let root = h.add_root(0);
    let mid = h.add_sub_state(root, 4, 0).unwrap();
    h.add_sub_state(mid, 1, 0).unwrap();
    h
}

fn presence_rule_holds(h: &Hierarchy) -> bool {
    (0..h.len()).all(|i| {
        let expect_absent = match h.activation(i) {
            Some(a) => h.current(a.parent) != Some(a.required),
            None => false,
        };
        h.current(i).is_none() == expect_absent
    })
}

fn live_ids(r: &Registry) -> Vec<usize> {
    (0..r.len()).filter(|&i| r.is_live(i)).collect()
}

#[test]
fn apply_without_requests_changes_nothing() {
    let mut h = three_levels();
    let mut r = Registry::new();
    let log = apply_all(&mut h, &mut r);
    assert!(log.is_empty());
    assert_eq!(h.current(0), Some(0));
    assert_eq!(h.current(1), None);
}

#[test]
fn apply_consumes_requests() {
    let mut h = three_levels();
    let mut r = Registry::new();
    h.request(0, 2);
    h.request(1, 1);
    apply_all(&mut h, &mut r);
    assert_eq!(h.pending(0), None);
    assert_eq!(h.pending(1), None);
    assert_eq!(h.pending(2), None);
}

#[test]
fn request_for_the_current_value_is_no_change() {
    let mut h = three_levels();
    let mut r = Registry::new();
    let o = r.spawn(None, None).unwrap();
    r.tag(o, 0, 0);
    h.request(0, 0);
    let log = apply_all(&mut h, &mut r);
    assert!(log.is_empty());
    assert!(r.is_live(o));
    assert_eq!(h.pending(0), None);
}

#[test]
fn parent_change_activates_child_at_default() {
    let mut h = three_levels();
    let mut r = Registry::new();
    h.request(0, 4);
    let log = apply_all(&mut h, &mut r);
    assert_eq!(h.current(0), Some(4));
    assert_eq!(h.current(1), Some(0));
    assert_eq!(h.current(2), None);
    assert_eq!(
        log,
        vec![
            Transition { node: 0, from: Some(0), to: Some(4) },
            Transition { node: 1, from: None, to: Some(0) },
        ]
    );
}

#[test]
fn queued_request_on_newly_activated_node_is_honored() {
    let mut h = three_levels();
    let mut r = Registry::new();
    h.request(0, 4);
    h.request(1, 1);
    h.request(2, 1);
    let log = apply_all(&mut h, &mut r);
    assert_eq!(h.current(0), Some(4));
    assert_eq!(h.current(1), Some(1));
    assert_eq!(h.current(2), Some(1));
    assert_eq!(
        log,
        vec![
            Transition { node: 0, from: Some(0), to: Some(4) },
            Transition { node: 1, from: None, to: Some(1) },
            Transition { node: 2, from: None, to: Some(1) },
        ]
    );
}

#[test]
fn parent_transition_overrides_child_request() {
    let mut h = three_levels();
    let mut r = Registry::new();
    h.request(0, 4);
    apply_all(&mut h, &mut r);
    // The child asks for a value in the same tick in which its parent leaves.
    h.request(0, 2);
    h.request(1, 1);
    let log = apply_all(&mut h, &mut r);
    assert_eq!(h.current(0), Some(2));
    assert_eq!(h.current(1), None);
    assert_eq!(h.current(2), None);
    assert_eq!(h.pending(1), None);
    assert_eq!(
        log,
        vec![
            Transition { node: 0, from: Some(4), to: Some(2) },
            Transition { node: 1, from: Some(0), to: None },
        ]
    );
}

#[test]
fn request_on_inactive_node_is_dropped() {
    let mut h = three_levels();
    let mut r = Registry::new();
    h.request(1, 1);
    h.request(2, 1);
    let log = apply_all(&mut h, &mut r);
    assert!(log.is_empty());
    assert_eq!(h.current(1), None);
    assert_eq!(h.current(2), None);
    assert_eq!(h.pending(1), None);
    // The dropped request does not come back when the node activates later.
    h.request(0, 4);
    apply_all(&mut h, &mut r);
    assert_eq!(h.current(1), Some(0));
}

#[test]
fn presence_rule_holds_after_every_apply() {
    let mut h = three_levels();
    let mut r = Registry::new();
    assert!(presence_rule_holds(&h));
    let script: Vec<Vec<(usize, u8)>> = vec![
        vec![(0, 1)],
        vec![(0, 4)],
        vec![(1, 1)],
        vec![(2, 1)],
        vec![(2, 0), (1, 0)],
        vec![(1, 1), (2, 1)],
        vec![(0, 2), (1, 0), (2, 0)],
        vec![(2, 1)],
        vec![(0, 4), (1, 1)],
        vec![],
    ];
    let expected: Vec<[Option<u8>; 3]> = vec![
        [Some(1), None, None],
        [Some(4), Some(0), None],
        [Some(4), Some(1), Some(0)],
        [Some(4), Some(1), Some(1)],
        [Some(4), Some(0), None],
        [Some(4), Some(1), Some(1)],
        [Some(2), None, None],
        [Some(2), None, None],
        [Some(4), Some(1), Some(0)],
        [Some(4), Some(1), Some(0)],
    ];
    for (requests, want) in script.iter().zip(expected.iter()) {
        for &(node, value) in requests {
            h.request(node, value);
        }
        apply_all(&mut h, &mut r);
        assert!(presence_rule_holds(&h));
        assert_eq!([h.current(0), h.current(1), h.current(2)], *want);
    }
}

#[test]
fn leaving_a_value_destroys_its_objects() {
    let mut h = three_levels();
    let mut r = Registry::new();
    let splash = r.spawn(None, None).unwrap();
    r.tag(splash, 0, 0);
    let logo = r.spawn(Some(splash), None).unwrap();
    let unscoped = r.spawn(None, None).unwrap();
    h.request(0, 2);
    apply_all(&mut h, &mut r);
    assert!(!r.is_live(splash));
    assert!(!r.is_live(logo));
    assert_eq!(live_ids(&r), vec![unscoped]);
}

#[test]
fn unchanged_nodes_keep_their_objects() {
    let mut h = three_levels();
    let mut r = Registry::new();
    h.request(0, 4);
    h.request(1, 1);
    apply_all(&mut h, &mut r);
    let level = r.spawn(None, None).unwrap();
    r.tag(level, 0, 4);
    let overlay = r.spawn(None, None).unwrap();
    r.tag(overlay, 1, 1);
    let menu = r.spawn(None, None).unwrap();
    r.tag(menu, 2, 0);
    h.request(2, 1);
    let log = apply_all(&mut h, &mut r);
    assert_eq!(log, vec![Transition { node: 2, from: Some(0), to: Some(1) }]);
    assert_eq!(live_ids(&r), vec![level, overlay]);
}

#[test]
fn leaving_the_root_value_sweeps_all_levels_in_one_pass() {
    let mut h = three_levels();
    let mut r = Registry::new();
    h.request(0, 4);
    h.request(1, 1);
    h.request(2, 1);
    apply_all(&mut h, &mut r);
    let level = r.spawn(None, None).unwrap();
    r.tag(level, 0, 4);
    let overlay = r.spawn(None, None).unwrap();
    r.tag(overlay, 1, 1);
    let menu = r.spawn(None, None).unwrap();
    r.tag(menu, 2, 1);
    let button = r.spawn(Some(menu), None).unwrap();
    h.request(0, 2);
    let log = apply_all(&mut h, &mut r);
    assert_eq!(
        log,
        vec![
            Transition { node: 0, from: Some(4), to: Some(2) },
            Transition { node: 1, from: Some(1), to: None },
            Transition { node: 2, from: Some(1), to: None },
        ]
    );
    assert!(!r.is_live(level));
    assert!(!r.is_live(overlay));
    assert!(!r.is_live(menu));
    assert!(!r.is_live(button));
    assert!(live_ids(&r).is_empty());
}

#[test]
fn resolve_picks_by_presence() {
    let mut h = three_levels();
    let mut r = Registry::new();
    let back = Binding::Contextual {
        probe: 2,
        if_present: Request { node: 2, value: 0 },
        if_absent: Request { node: 0, value: 2 },
    };
    assert_eq!(resolve(&h, back), Request { node: 0, value: 2 });
    h.request(0, 4);
    h.request(1, 1);
    apply_all(&mut h, &mut r);
    assert_eq!(resolve(&h, back), Request { node: 2, value: 0 });
    let fixed = Binding::Fixed(Request { node: 1, value: 0 });
    assert_eq!(resolve(&h, fixed), Request { node: 1, value: 0 });
}

#[test]
fn press_issues_the_bound_request_only() {
    let mut h = three_levels();
    let mut r = Registry::new();
    let root = r.spawn(None, None).unwrap();
    let a = r.spawn(Some(root), Some(Binding::Fixed(Request { node: 0, value: 4 }))).unwrap();
    let b = r.spawn(Some(root), Some(Binding::Fixed(Request { node: 0, value: 3 }))).unwrap();
    assert_eq!(dispatch_press(&mut h, &r, root), None);
    assert_eq!(h.pending(0), None);
    assert_eq!(dispatch_press(&mut h, &r, b), Some(Request { node: 0, value: 3 }));
    assert_eq!(h.pending(0), Some(3));
    assert_eq!(dispatch_press(&mut h, &r, a), Some(Request { node: 0, value: 4 }));
    assert_eq!(h.pending(0), Some(4));
    assert_eq!(dispatch_press(&mut h, &r, 17), None);
    r.destroy(root);
    assert_eq!(dispatch_press(&mut h, &r, b), None);
    assert_eq!(h.pending(0), Some(4));
}
