//! The state hierarchy: nodes in parent-before-child order, their current
//! values and their pending requests.

use vstd::prelude::*;
use crate::node::{Activation, NodeId, StateNode, Variant};

verus! {

/// Whether the activation condition of node `i` holds for the current values
/// in `nodes`. A root node is always active.
pub open spec fn is_active(nodes: Seq<StateNode>, i: int) -> bool {
    match nodes[i].parent {
        None => true,
        Some(a) => 0 <= a.parent < nodes.len() && nodes[a.parent as int].value == Some(a.required),
    }
}

/// The fixed topology: every node sits at the position its id names, and a
/// sub-state's parent comes before it, so that no chain of parents is cyclic.
pub open spec fn ordered(nodes: Seq<StateNode>) -> bool {
    forall|i: int|
        0 <= i < nodes.len() ==> {
            &&& (#[trigger] nodes[i]).id == i
            &&& match nodes[i].parent {
                None => true,
                Some(a) => a.parent < i,
            }
        }
}

/// The presence rule: a node's value is absent exactly when the node is a
/// sub-state whose parent does not currently hold the required value.
pub open spec fn present_iff_active(nodes: Seq<StateNode>) -> bool {
    forall|i: int|
        0 <= i < nodes.len() ==> ((#[trigger] nodes[i]).value is None <==> !is_active(nodes, i))
}

/// The topology is in order and the presence rule holds.
pub open spec fn well_formed(nodes: Seq<StateNode>) -> bool {
    ordered(nodes) && present_iff_active(nodes)
}

/// The value a request turns a node's value into, for a node that is active
/// after the synchronization point: the pending request if there is one, else
/// the value it already has, else (the node has just become active) its
/// default.
pub open spec fn settled_value(node: StateNode) -> Variant {
    match node.pending {
        Some(v) => v,
        None => match node.value {
            Some(v) => v,
            None => node.default,
        },
    }
}

/// The value node `i` has after the next synchronization point.
///
/// Parents are decided before children. A sub-state whose parent does not end
/// up at the required value is absent whatever was requested of it.
pub open spec fn next_value(nodes: Seq<StateNode>, i: int) -> Option<Variant>
    decreases i,
{
    if 0 <= i < nodes.len() {
        let active = match nodes[i].parent {
            None => true,
            Some(a) => a.parent < i && next_value(nodes, a.parent as int) == Some(a.required),
        };
        if active {
            Some(settled_value(nodes[i]))
        } else {
            None
        }
    } else {
        None
    }
}

/// The value node `i` gets when its turn comes during a synchronization
/// point, read off the values that `nodes` holds at that moment: the parent,
/// being earlier in the order, already shows its new value.
pub open spec fn planned_value(nodes: Seq<StateNode>, i: int) -> Option<Variant> {
    if 0 <= i < nodes.len() && is_active(nodes, i) {
        Some(settled_value(nodes[i]))
    } else {
        None
    }
}

/// The nodes after `value` has been queued for node `i`.
pub open spec fn requested(nodes: Seq<StateNode>, i: int, value: Variant) -> Seq<StateNode> {
    if 0 <= i < nodes.len() {
        nodes.update(
            i,
            StateNode {
                id: nodes[i].id,
                value: nodes[i].value,
                pending: Some(value),
                parent: nodes[i].parent,
                default: nodes[i].default,
            },
        )
    } else {
        nodes
    }
}

/// The nodes after the next synchronization point: every value replaced by
/// its next value and every pending request consumed.
pub open spec fn applied(nodes: Seq<StateNode>) -> Seq<StateNode> {
    Seq::new(
        nodes.len(),
        |i: int|
            StateNode {
                id: nodes[i].id,
                value: next_value(nodes, i),
                pending: None,
                parent: nodes[i].parent,
                default: nodes[i].default,
            },
    )
}

/// An ordered, acyclic set of state nodes with a fixed topology.
#[derive(Debug, Clone)]
pub struct Hierarchy {
    nodes: Vec<StateNode>,
}

impl Hierarchy {
    /// The nodes, in application order.
    pub closed spec fn view(&self) -> Seq<StateNode> {
        self.nodes@
    }

    /// The topology is in order and the presence rule holds.
    pub open spec fn wf(&self) -> bool {
        well_formed(self@)
    }

    /// A hierarchy without nodes.
    pub fn new() -> (h: Hierarchy)
        ensures
            h@ == Seq::<StateNode>::empty(),
            h.wf(),
    {
        Hierarchy { nodes: Vec::new() }
    }

    /// Number of nodes.
    pub fn len(&self) -> (n: usize)
        ensures
            n == self@.len(),
    {
        self.nodes.len()
    }

    /// Appends a root node holding `default` and returns its id.
    pub fn add_root(&mut self, default: Variant) -> (id: NodeId)
        requires
            old(self).wf(),
        ensures
            final(self).wf(),
            id == old(self)@.len(),
            final(self)@ == old(self)@.push(
                StateNode { id, value: Some(default), pending: None, parent: None, default },
            ),
    {
        let id: usize = self.nodes.len();
        self.nodes.push(StateNode { id, value: Some(default), pending: None, parent: None, default });
        id
    }

    /// Appends a sub-state of `parent` that carries a value while `parent`
    /// holds `required`, and returns its id. The new node starts at `default`
    /// if its condition already holds and absent otherwise.
    ///
    /// Returns `None`, leaving the hierarchy as it was, exactly when `parent`
    /// names no node.
    pub fn add_sub_state(&mut self, parent: NodeId, required: Variant, default: Variant) -> (id:
        Option<NodeId>)
        requires
            old(self).wf(),
        ensures
            final(self).wf(),
            id is Some <==> parent < old(self)@.len(),
            id is None ==> final(self)@ == old(self)@,
            id matches Some(x) ==> x == old(self)@.len() && final(self)@ == old(self)@.push(
                StateNode {
                    id: x,
                    value: if old(self)@[parent as int].value == Some(required) {
                        Some(default)
                    } else {
                        None
                    },
                    pending: None,
                    parent: Some(Activation { parent, required }),
                    default,
                },
            ),
    {
        let id: usize = self.nodes.len();
        if parent >= id {
            return None;
        }
        let value = match self.nodes[parent].value {
            Some(v) if v == required => Some(default),
            _ => None,
        };
        self.nodes.push(
            StateNode {
                id,
                value,
                pending: None,
                parent: Some(Activation { parent, required }),
                default,
            },
        );
        Some(id)
    }

    /// The current value of `node`, or `None` while it is absent. An id that
    /// names no node has no value either.
    pub fn current(&self, node: NodeId) -> (value: Option<Variant>)
        ensures
            value == if node < self@.len() {
                self@[node as int].value
            } else {
                None
            },
    {
        if node < self.nodes.len() {
            self.nodes[node].value
        } else {
            None
        }
    }

    /// The request waiting on `node`, if any.
    pub fn pending(&self, node: NodeId) -> (value: Option<Variant>)
        ensures
            value == if node < self@.len() {
                self@[node as int].pending
            } else {
                None
            },
    {
        if node < self.nodes.len() {
            self.nodes[node].pending
        } else {
            None
        }
    }

    /// The activation condition `node` was declared with; `None` for a root
    /// and for an id that names no node.
    pub fn activation(&self, node: NodeId) -> (a: Option<Activation>)
        ensures
            a == if node < self@.len() {
                self@[node as int].parent
            } else {
                None
            },
    {
        if node < self.nodes.len() {
            self.nodes[node].parent
        } else {
            None
        }
    }

    /// Queues `value` for `node`. A later request for the same node replaces
    /// an earlier one. Current values are untouched. A request for an id that
    /// names no node is dropped.
    pub fn request(&mut self, node: NodeId, value: Variant)
        requires
            old(self).wf(),
        ensures
            final(self).wf(),
            final(self)@ == requested(old(self)@, node as int, value),
    {
        if node < self.nodes.len() {
            self.nodes[node].pending = Some(value);
        }
    }

    /// The value `node` gets when its turn comes, given the values the
    /// hierarchy holds now.
    pub fn planned(&self, node: NodeId) -> (value: Option<Variant>)
        ensures
            value == planned_value(self@, node as int),
    {
        if node >= self.nodes.len() {
            return None;
        }
        let n = self.nodes[node];
        let active = match n.parent {
            None => true,
            Some(a) => a.parent < self.nodes.len() && match self.nodes[a.parent].value {
                Some(v) => v == a.required,
                None => false,
            },
        };
        if !active {
            return None;
        }
        match n.pending {
            Some(v) => Some(v),
            None => match n.value {
                Some(v) => Some(v),
                None => Some(n.default),
            },
        }
    }

    /// Gives `node` its new value and consumes its pending request.
    pub(crate) fn settle(&mut self, node: NodeId, value: Option<Variant>)
        requires
            node < old(self)@.len(),
        ensures
            final(self)@ == old(self)@.update(
                node as int,
                StateNode {
                    id: old(self)@[node as int].id,
                    value,
                    pending: None,
                    parent: old(self)@[node as int].parent,
                    default: old(self)@[node as int].default,
                },
            ),
    {
        self.nodes[node].value = value;
        self.nodes[node].pending = None;
    }
}

/// In a well-formed hierarchy a node is absent exactly when it is a sub-state
/// whose parent's current value differs from the value the sub-state
/// requires.
pub proof fn lemma_absent_iff_parent_elsewhere(nodes: Seq<StateNode>, i: int)
    requires
        well_formed(nodes),
        0 <= i < nodes.len(),
    ensures
        nodes[i].value is None <==> (nodes[i].parent matches Some(a) && nodes[a.parent as int].value
            != Some(a.required)),
{
}

/// The presence rule holds after every synchronization point, whatever was
/// requested: applying keeps the topology and leaves each node absent exactly
/// when its parent's new value differs from the required one.
pub proof fn lemma_applied_is_well_formed(nodes: Seq<StateNode>)
    requires
        ordered(nodes),
    ensures
        well_formed(applied(nodes)),
        forall|i: int|
            0 <= i < nodes.len() ==> ((#[trigger] applied(nodes)[i]).value is None <==> (
            nodes[i].parent matches Some(a) && applied(nodes)[a.parent as int].value != Some(
                a.required,
            ))),
{
    let after = applied(nodes);
    assert forall|i: int| 0 <= i < after.len() implies ((#[trigger] after[i]).value is None
        <==> !is_active(after, i)) by {
        assert(nodes[i].id == i);
    }
    assert forall|i: int| 0 <= i < after.len() implies {
        &&& (#[trigger] after[i]).id == i
        &&& match after[i].parent {
            None => true,
            Some(a) => a.parent < i,
        }
    } by {
        assert(nodes[i].id == i);
    }
}

/// A parent's transition overrides whatever is requested of its sub-state in
/// the same tick: where the parent does not end up at the required value, the
/// sub-state ends up absent.
pub proof fn lemma_parent_overrides_child(nodes: Seq<StateNode>, i: int, value: Variant)
    requires
        ordered(nodes),
        0 <= i < nodes.len(),
        nodes[i].parent matches Some(a) && next_value(nodes, a.parent as int) != Some(a.required),
    ensures
        next_value(nodes, i) is None,
        next_value(requested(nodes, i, value), i) is None,
{
    lemma_dropped_request(nodes, i, value, i);
}

/// Once applied, the values are stable: with nothing new requested, the next
/// synchronization point changes nothing.
pub proof fn lemma_applied_is_stable(nodes: Seq<StateNode>)
    requires
        ordered(nodes),
    ensures
        applied(applied(nodes)) == applied(nodes),
{
    let once = applied(nodes);
    lemma_applied_is_well_formed(nodes);
    assert forall|i: int| 0 <= i < once.len() implies next_value(once, i) == once[i].value by {
        lemma_settled_stays(once, i);
    }
    assert(applied(once) =~= once);
}

/// In a well-formed hierarchy without pending requests every node keeps its
/// value.
proof fn lemma_settled_stays(nodes: Seq<StateNode>, i: int)
    requires
        well_formed(nodes),
        forall|k: int| 0 <= k < nodes.len() ==> (#[trigger] nodes[k]).pending is None,
        0 <= i < nodes.len(),
    ensures
        next_value(nodes, i) == nodes[i].value,
    decreases i,
{
    assert(nodes[i].value is None <==> !is_active(nodes, i));
    match nodes[i].parent {
        Some(a) => {
            lemma_settled_stays(nodes, a.parent as int);
        },
        None => {},
    }
}

/// A request changes no current value.
pub proof fn lemma_request_keeps_values(nodes: Seq<StateNode>, i: int, value: Variant)
    requires
        well_formed(nodes),
    ensures
        well_formed(requested(nodes, i, value)),
        requested(nodes, i, value).len() == nodes.len(),
        forall|k: int|
            0 <= k < nodes.len() ==> (#[trigger] requested(nodes, i, value)[k]).value
                == nodes[k].value,
{
    let after = requested(nodes, i, value);
    assert forall|k: int| 0 <= k < after.len() implies {
        &&& (#[trigger] after[k]).id == k
        &&& match after[k].parent {
            None => true,
            Some(a) => a.parent < k,
        }
        &&& (after[k].value is None <==> !is_active(after, k))
    } by {
        assert(nodes[k].id == k);
        assert(nodes[k].value is None <==> !is_active(nodes, k));
        match nodes[k].parent {
            Some(a) => {
                assert(after[a.parent as int].value == nodes[a.parent as int].value);
            },
            None => {},
        }
    }
}

/// Of several requests for one node before a synchronization point, the last
/// one wins.
pub proof fn lemma_last_request_wins(nodes: Seq<StateNode>, i: int, first: Variant, last: Variant)
    ensures
        requested(requested(nodes, i, first), i, last) == requested(nodes, i, last),
{
    assert(requested(requested(nodes, i, first), i, last) =~= requested(nodes, i, last));
}

/// A request on a sub-state whose parent does not reach the required value at
/// this synchronization point changes the next value of no node.
proof fn lemma_dropped_request(nodes: Seq<StateNode>, i: int, value: Variant, k: int)
    requires
        ordered(nodes),
        0 <= i < nodes.len(),
        nodes[i].parent matches Some(a) && next_value(nodes, a.parent as int) != Some(a.required),
    ensures
        next_value(requested(nodes, i, value), k) == next_value(nodes, k),
    decreases k,
{
    if 0 <= k < nodes.len() {
        assert(nodes[k].id == k);
        match nodes[k].parent {
            Some(a) => {
                lemma_dropped_request(nodes, i, value, a.parent as int);
            },
            None => {},
        }
    }
}

/// A request on a sub-state that is absent, and whose parent does not reach
/// the required value at the next synchronization point, is dropped: the
/// node stays absent, and every node ends up as if nothing had been
/// requested of it.
pub proof fn lemma_request_on_inactive_node(nodes: Seq<StateNode>, i: int, value: Variant)
    requires
        well_formed(nodes),
        0 <= i < nodes.len(),
        nodes[i].value is None,
        nodes[i].parent matches Some(a) ==> next_value(nodes, a.parent as int) != Some(a.required),
    ensures
        next_value(requested(nodes, i, value), i) is None,
        applied(requested(nodes, i, value)) == applied(nodes),
{
    assert(!is_active(nodes, i));
    assert(nodes[i].parent is Some);
    assert forall|k: int| 0 <= k < nodes.len() implies next_value(requested(nodes, i, value), k)
        == next_value(nodes, k) by {
        lemma_dropped_request(nodes, i, value, k);
    }
    assert(applied(requested(nodes, i, value)) =~= applied(nodes));
}

} // verus!
