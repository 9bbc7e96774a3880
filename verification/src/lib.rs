//! A hierarchical application-state machine.
//!
//! A [`hierarchy::Hierarchy`] holds state nodes in parent-before-child order.
//! A sub-state node carries a value only while its parent holds the value the
//! sub-state was declared for. Objects created on behalf of a state value are
//! recorded in a [`registry::Registry`] and destroyed, together with
//! everything they own, when that value is left. Requests are buffered and
//! applied once per tick by [`scheduler::apply_all`]; [`dispatch`] turns a
//! press on an object into the request the object was bound with.
//!
//! [`screens`], [`menus`] and [`machine`] instantiate the machine for an
//! application with a root `Screen` node and the two nested pause
//! sub-states: the typed state values and what the pause key asks for, the
//! menus that exist on behalf of them, and the machine that ties the two
//! together.

pub mod node;
pub mod hierarchy;
pub mod registry;
pub mod scheduler;
pub mod dispatch;
pub mod screens;
pub mod menus;
pub mod machine;
