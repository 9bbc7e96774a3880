//! The transition scheduler: applies the buffered requests once per tick, in
//! hierarchy order, and destroys what existed on behalf of each value that
//! is left.

use vstd::prelude::*;
use crate::hierarchy::{
    applied,
    lemma_applied_is_well_formed,
    next_value,
    ordered,
    planned_value,
    well_formed,
    Hierarchy,
};
use crate::node::{same_value, NodeId, ScopeTag, StateNode, Transition};
use crate::registry::{cleaned, scoped, ObjectInfo, Registry, Scene};

verus! {

/// Whether the next synchronization point changes the value of node `i`,
/// a change between absent and present included.
pub open spec fn changes(nodes: Seq<StateNode>, i: int) -> bool {
    0 <= i < nodes.len() && next_value(nodes, i) != nodes[i].value
}

/// The changes the next synchronization point makes to the first `k` nodes,
/// in hierarchy order.
pub open spec fn transitions(nodes: Seq<StateNode>, k: int) -> Seq<Transition>
    decreases k,
{
    if k <= 0 {
        Seq::empty()
    } else if changes(nodes, k - 1) {
        transitions(nodes, k - 1).push(
            Transition {
                node: nodes[k - 1].id,
                from: nodes[k - 1].value,
                to: next_value(nodes, k - 1),
            },
        )
    } else {
        transitions(nodes, k - 1)
    }
}

/// Whether `tag` names a node among the first `bound` together with the
/// value that node holds now and leaves at the next synchronization point.
pub open spec fn left_below(nodes: Seq<StateNode>, tag: ScopeTag, bound: int) -> bool {
    &&& tag.node < bound
    &&& changes(nodes, tag.node as int)
    &&& nodes[tag.node as int].value == Some(tag.variant)
}

/// Whether object `j` exists on behalf of a value that one of the first
/// `bound` nodes leaves at the next synchronization point.
pub open spec fn outdated_below(nodes: Seq<StateNode>, info: Seq<ObjectInfo>, j: int, bound: int) -> bool {
    exists|tag: ScopeTag| left_below(nodes, tag, bound) && #[trigger] scoped(info, j, tag)
}

/// The scene after a synchronization point of `nodes`: an object survives
/// exactly when it was alive and does not exist on behalf of a value that
/// some node leaves.
pub open spec fn swept(nodes: Seq<StateNode>, s: Scene) -> Scene {
    Scene {
        info: s.info,
        live: Seq::new(
            s.live.len(),
            |j: int| s.live[j] && !outdated_below(nodes, s.info, j, nodes.len() as int),
        ),
    }
}

/// Whether every live tagged object in `s` is tagged with the value its node
/// currently holds.
pub open spec fn scopes_current(nodes: Seq<StateNode>, s: Scene) -> bool {
    forall|j: int|
        0 <= j < s.info.len() && s.live[j] ==> match (#[trigger] s.info[j]).tag {
            Some(tag) => tag.node < nodes.len() && nodes[tag.node as int].value == Some(
                tag.variant,
            ),
            None => true,
        }
}

/// The nodes after node `i` has had its turn: it holds its planned value and
/// its pending request is consumed.
pub open spec fn turned(nodes: Seq<StateNode>, i: int) -> Seq<StateNode> {
    nodes.update(
        i,
        StateNode {
            id: nodes[i].id,
            value: planned_value(nodes, i),
            pending: None,
            parent: nodes[i].parent,
            default: nodes[i].default,
        },
    )
}

/// The change node `i` makes at its turn, if its planned value differs from
/// the value it holds.
pub open spec fn turn_change(nodes: Seq<StateNode>, i: int) -> Option<Transition> {
    if planned_value(nodes, i) != nodes[i].value {
        Some(Transition { node: nodes[i].id, from: nodes[i].value, to: planned_value(nodes, i) })
    } else {
        None
    }
}

/// The scene after node `i` has had its turn: where the node leaves a value,
/// everything that existed on behalf of that value is destroyed.
pub open spec fn turn_scene(nodes: Seq<StateNode>, s: Scene, i: int) -> Scene {
    match nodes[i].value {
        Some(v) => if planned_value(nodes, i) != nodes[i].value {
            cleaned(s, ScopeTag { node: nodes[i].id, variant: v })
        } else {
            s
        },
        None => s,
    }
}

/// One node's turn within a synchronization point: computes the node's next
/// value from the values the hierarchy holds now and, where it differs from
/// the current one, destroys what existed on behalf of the old value and
/// installs the new one. The node's pending request is consumed either way.
pub(crate) fn turn(hierarchy: &mut Hierarchy, registry: &mut Registry, node: NodeId) -> (change:
    Option<Transition>)
    requires
        node < old(hierarchy)@.len(),
        old(hierarchy)@[node as int].id == node,
        old(registry).wf(),
    ensures
        final(registry).wf(),
        final(registry).links() == old(registry).links(),
        final(hierarchy)@ == turned(old(hierarchy)@, node as int),
        change == turn_change(old(hierarchy)@, node as int),
        final(registry)@ == turn_scene(old(hierarchy)@, old(registry)@, node as int),
{
    let current = hierarchy.current(node);
    let next = hierarchy.planned(node);
    let change = if same_value(current, next) {
        None
    } else {
        match current {
            Some(v) => {
                registry.cleanup(node, v);
            },
            None => {},
        }
        Some(Transition { node, from: current, to: next })
    };
    hierarchy.settle(node, next);
    change
}

/// The synchronization point.
///
/// Walks the nodes parents first. For each node it computes the next value:
/// absent if the node's activation condition is false after its parent's
/// turn, whatever was requested; else the pending request; else the value it
/// has; else, for a node that has just become active, its default. Where the
/// next value differs from the current one it destroys every object that
/// exists on behalf of the old value and then installs the new one. Every
/// pending request is consumed.
///
/// Returns the changes in the order they were made. The caller owes each of
/// them, in that order, the exit hook of `from` and the entry hook of `to`
/// where these are present; hooks run after the pass, so whatever they
/// request waits for a later tick.
pub fn apply_all(hierarchy: &mut Hierarchy, registry: &mut Registry) -> (log: Vec<Transition>)
    requires
        old(hierarchy).wf(),
        old(registry).wf(),
    ensures
        final(hierarchy).wf(),
        final(registry).wf(),
        final(hierarchy)@ == applied(old(hierarchy)@),
        log@ == transitions(old(hierarchy)@, old(hierarchy)@.len() as int),
        final(registry)@ == swept(old(hierarchy)@, old(registry)@),
        final(registry).links() == old(registry).links(),
        forall|i: int|
            0 <= i < final(hierarchy)@.len() ==> ((#[trigger] final(hierarchy)@[i]).value is None
                <==> (final(hierarchy)@[i].parent matches Some(a)
                && final(hierarchy)@[a.parent as int].value != Some(a.required))),
{
    let ghost nodes = hierarchy@;
    let ghost scene = registry@;
    let n: usize = hierarchy.len();
    let mut log: Vec<Transition> = Vec::new();
    let mut i: usize = 0;
    while i < n
        invariant
            i <= n,
            n == nodes.len(),
            nodes == old(hierarchy)@,
            scene == old(registry)@,
            well_formed(nodes),
            hierarchy@.len() == n,
            forall|k: int| 0 <= k < i ==> #[trigger] hierarchy@[k] == applied(nodes)[k],
            forall|k: int| i <= k < n ==> #[trigger] hierarchy@[k] == nodes[k],
            registry.wf(),
            registry.links() == old(registry).links(),
            registry@.info == scene.info,
            registry@.live.len() == scene.live.len(),
            forall|j: int|
                0 <= j < scene.live.len() ==> (#[trigger] registry@.live[j]) == (scene.live[j]
                    && !outdated_below(nodes, scene.info, j, i as int)),
            log@ == transitions(nodes, i as int),
        decreases n - i,
    {
        proof {
            assert(hierarchy@[i as int] == nodes[i as int]);
            assert(nodes[i as int].id == i);
            match nodes[i as int].parent {
                Some(a) => {
                    assert(hierarchy@[a.parent as int] == applied(nodes)[a.parent as int]);
                },
                None => {},
            }
            assert(planned_value(hierarchy@, i as int) == next_value(nodes, i as int));
        }
        let change = turn(hierarchy, registry, i);
        match change {
            Some(t) => {
                log.push(t);
            },
            None => {},
        }
        proof {
            assert forall|j: int| 0 <= j < scene.live.len() implies (
            #[trigger] registry@.live[j]) == (scene.live[j] && !outdated_below(
                nodes,
                scene.info,
                j,
                i + 1,
            )) by {
                lemma_outdated_step(nodes, scene.info, j, i as int);
            }
        }
        i += 1;
    }
    proof {
        lemma_applied_is_well_formed(nodes);
        assert(hierarchy@ =~= applied(nodes));
        assert(registry@.live =~= swept(nodes, scene).live);
    }
    log
}

/// Every entry of the change list names a node that changes, with the value
/// it had and the value it gets.
pub proof fn lemma_transition_entries(nodes: Seq<StateNode>, k: int, m: int)
    requires
        ordered(nodes),
        k <= nodes.len(),
        0 <= m < transitions(nodes, k).len(),
    ensures
        transitions(nodes, k)[m].node < k,
        changes(nodes, transitions(nodes, k)[m].node as int),
        transitions(nodes, k)[m].from == nodes[transitions(nodes, k)[m].node as int].value,
        transitions(nodes, k)[m].to == next_value(nodes, transitions(nodes, k)[m].node as int),
    decreases k,
{
    if k > 0 {
        assert(nodes[k - 1].id == k - 1);
        if m < transitions(nodes, k - 1).len() {
            lemma_transition_entries(nodes, k - 1, m);
        }
    }
}

/// The change list is in hierarchy order: a later entry names a later node,
/// so no node occurs twice.
pub proof fn lemma_transitions_in_order(nodes: Seq<StateNode>, k: int, m: int, n: int)
    requires
        ordered(nodes),
        k <= nodes.len(),
        0 <= m < n < transitions(nodes, k).len(),
    ensures
        transitions(nodes, k)[m].node < transitions(nodes, k)[n].node,
    decreases k,
{
    if k > 0 {
        assert(nodes[k - 1].id == k - 1);
        if n < transitions(nodes, k - 1).len() {
            lemma_transitions_in_order(nodes, k - 1, m, n);
        } else {
            lemma_transition_entries(nodes, k - 1, m);
        }
    }
}

/// Every node that changes has an entry in the change list.
pub proof fn lemma_transitions_are_complete(nodes: Seq<StateNode>, k: int, i: int) -> (m: int)
    requires
        ordered(nodes),
        k <= nodes.len(),
        0 <= i < k,
        changes(nodes, i),
    ensures
        0 <= m < transitions(nodes, k).len(),
        transitions(nodes, k)[m].node == i,
    decreases k,
{
    assert(nodes[k - 1].id == k - 1);
    if i == k - 1 {
        transitions(nodes, k - 1).len() as int
    } else {
        lemma_transitions_are_complete(nodes, k - 1, i)
    }
}

/// A synchronization point keeps every surviving tag current: if each live
/// tagged object carried the value its node held before, then afterwards no
/// surviving tagged object belongs to a node that changed, and each still
/// carries the value its node holds.
pub proof fn lemma_sweep_keeps_scopes_current(nodes: Seq<StateNode>, s: Scene)
    requires
        well_formed(nodes),
        s.info.len() == s.live.len(),
        scopes_current(nodes, s),
    ensures
        scopes_current(applied(nodes), swept(nodes, s)),
        forall|j: int|
            0 <= j < s.info.len() && swept(nodes, s).live[j] ==> match (#[trigger] s.info[j]).tag {
                Some(tag) => !changes(nodes, tag.node as int),
                None => true,
            },
{
    let after = swept(nodes, s);
    assert forall|j: int| 0 <= j < s.info.len() && after.live[j] implies match (
    #[trigger] s.info[j]).tag {
        Some(tag) => !changes(nodes, tag.node as int) && tag.node < nodes.len() && applied(
            nodes,
        )[tag.node as int].value == Some(tag.variant),
        None => true,
    } by {
        match s.info[j].tag {
            Some(tag) => {
                assert(s.live[j]);
                assert(scoped(s.info, j, tag));
                if changes(nodes, tag.node as int) {
                    assert(left_below(nodes, tag, nodes.len() as int));
                    assert(outdated_below(nodes, s.info, j, nodes.len() as int));
                }
            },
            None => {},
        }
    }
}

/// Raising the bound past node `i` adds exactly what exists on behalf of the
/// value node `i` leaves, if it leaves one.
proof fn lemma_outdated_step(nodes: Seq<StateNode>, info: Seq<ObjectInfo>, j: int, i: int)
    requires
        0 <= i < nodes.len(),
        ordered(nodes),
    ensures
        outdated_below(nodes, info, j, i + 1) == (outdated_below(nodes, info, j, i) || match nodes[i].value {
            Some(v) => changes(nodes, i) && scoped(info, j, ScopeTag { node: nodes[i].id, variant: v }),
            None => false,
        }),
{
    assert(nodes[i].id == i);
    if outdated_below(nodes, info, j, i + 1) {
        let tag = choose|tag: ScopeTag|
            left_below(nodes, tag, i + 1) && #[trigger] scoped(info, j, tag);
        if tag.node < i {
            assert(left_below(nodes, tag, i));
        } else {
            assert(tag == ScopeTag { node: nodes[i].id, variant: nodes[i].value.unwrap() });
        }
    }
    if outdated_below(nodes, info, j, i) {
        let tag = choose|tag: ScopeTag|
            left_below(nodes, tag, i) && #[trigger] scoped(info, j, tag);
        assert(left_below(nodes, tag, i + 1));
    }
    if changes(nodes, i) && nodes[i].value is Some {
        let tag = ScopeTag { node: nodes[i].id, variant: nodes[i].value.unwrap() };
        if scoped(info, j, tag) {
            assert(left_below(nodes, tag, i + 1));
        }
    }
}

} // verus!
