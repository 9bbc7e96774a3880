//! Event dispatch: turns a press on an interactive object into the request
//! the object was bound with.

use vstd::prelude::*;
use crate::hierarchy::{requested, Hierarchy};
use crate::node::{Binding, ObjectId, Request, StateNode};
use crate::registry::{Registry, Scene};

verus! {

/// The request a binding stands for, given the current values in `nodes`.
pub open spec fn resolved(nodes: Seq<StateNode>, binding: Binding) -> Request {
    match binding {
        Binding::Fixed(r) => r,
        Binding::Contextual { probe, if_present, if_absent } => if probe < nodes.len()
            && nodes[probe as int].value is Some {
            if_present
        } else {
            if_absent
        },
    }
}

/// The request a press on `object` issues: the one its binding stands for,
/// if the object is alive and interactive.
pub open spec fn press_request(nodes: Seq<StateNode>, s: Scene, object: int) -> Option<Request> {
    if 0 <= object < s.live.len() && s.live[object] {
        match s.info[object].binding {
            Some(b) => Some(resolved(nodes, b)),
            None => None,
        }
    } else {
        None
    }
}

/// Works out which request `binding` stands for right now.
pub fn resolve(hierarchy: &Hierarchy, binding: Binding) -> (request: Request)
    ensures
        request == resolved(hierarchy@, binding),
{
    match binding {
        Binding::Fixed(r) => r,
        Binding::Contextual { probe, if_present, if_absent } => match hierarchy.current(probe) {
            Some(_) => if_present,
            None => if_absent,
        },
    }
}

/// Delivers a pointer press on `object`.
///
/// Queues exactly the request the object was bound with, whatever other
/// objects exist, and returns it. A press on an object that is destroyed,
/// was never spawned or has no binding queues nothing.
pub fn dispatch_press(hierarchy: &mut Hierarchy, registry: &Registry, object: ObjectId) -> (issued:
    Option<Request>)
    requires
        old(hierarchy).wf(),
        registry.wf(),
    ensures
        final(hierarchy).wf(),
        issued == press_request(old(hierarchy)@, registry@, object as int),
        final(hierarchy)@ == match issued {
            Some(r) => requested(old(hierarchy)@, r.node as int, r.value),
            None => old(hierarchy)@,
        },
{
    match registry.press(object) {
        Some(binding) => {
            let request = resolve(hierarchy, binding);
            hierarchy.request(request.node, request.value);
            Some(request)
        },
        None => None,
    }
}

} // verus!
