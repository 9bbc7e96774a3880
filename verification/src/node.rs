//! Plain value types shared by the hierarchy, the registry and the scheduler.

use vstd::prelude::*;

verus! {

/// Position of a state node inside its hierarchy.
pub type NodeId = usize;

/// One of the values a state node can take, by number.
pub type Variant = u8;

/// Position of an object inside its registry.
pub type ObjectId = usize;

/// The activation condition of a sub-state: the sub-state carries a value
/// exactly while `parent` currently holds `required`.
#[derive(Clone, Copy, Debug, PartialEq, Eq, Hash, Structural)]
pub struct Activation {
    pub parent: NodeId,
    pub required: Variant,
}

/// One axis of the state machine.
///
/// `value` is `None` while the node is absent; `pending` is the request, if
/// any, that the next synchronization point will consider.
#[derive(Clone, Copy, Debug, PartialEq, Eq, Hash)]
pub struct StateNode {
    pub id: NodeId,
    pub value: Option<Variant>,
    pub pending: Option<Variant>,
    pub parent: Option<Activation>,
    pub default: Variant,
}

/// A request to move `node` to `value` at the next synchronization point.
#[derive(Clone, Copy, Debug, PartialEq, Eq, Hash, Structural)]
pub struct Request {
    pub node: NodeId,
    pub value: Variant,
}

/// What pressing an interactive object asks for.
#[derive(Clone, Copy, Debug, PartialEq, Eq, Hash)]
pub enum Binding {
    /// Always the same request.
    Fixed(Request),
    /// `if_present` while node `probe` carries a value, `if_absent` while it
    /// is absent.
    Contextual { probe: NodeId, if_present: Request, if_absent: Request },
}

/// The state value that justifies an object's existence.
#[derive(Clone, Copy, Debug, PartialEq, Eq, Hash, Structural)]
pub struct ScopeTag {
    pub node: NodeId,
    pub variant: Variant,
}

/// A change of one node's value made by a synchronization point.
///
/// The exit hook of `from` (if present) belongs before the change and the
/// entry hook of `to` (if present) after it.
#[derive(Clone, Copy, Debug, PartialEq, Eq, Hash)]
pub struct Transition {
    pub node: NodeId,
    pub from: Option<Variant>,
    pub to: Option<Variant>,
}

/// Whether two possibly absent values are the same.
pub fn same_value(a: Option<Variant>, b: Option<Variant>) -> (same: bool)
    ensures
        same == (a == b),
{
    match (a, b) {
        (Some(x), Some(y)) => x == y,
        (None, None) => true,
        _ => false,
    }
}

} // verus!
