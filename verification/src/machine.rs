//! The application's state machine: the three screen nodes together with the
//! objects that exist on their behalf.

use vstd::prelude::*;
use crate::dispatch::{dispatch_press, press_request, resolved};
use crate::hierarchy::{
    applied,
    lemma_applied_is_well_formed,
    lemma_request_keeps_values,
    next_value,
    planned_value,
    requested,
    well_formed,
    Hierarchy,
};
use crate::menus::{enter, entered, exit};
use crate::node::{
    same_value,
    Activation,
    Binding,
    NodeId,
    ObjectId,
    Request,
    ScopeTag,
    StateNode,
    Transition,
    Variant,
};
use crate::registry::{
    cleaned,
    destroyed,
    lemma_cleanup_is_idempotent,
    scene_wf,
    scoped,
    spawned,
    tagged,
    ObjectInfo,
    Registry,
    Scene,
};
use crate::scheduler::{
    changes,
    scopes_current,
    transitions,
    turn,
    turn_scene,
    turned,
};
use crate::screens::{
    exit_settings_binding,
    settings_exit,
    toggle_pause,
    toggled,
    valid_request,
    IsPaused,
    PauseState,
    Screen,
    StateRequest,
    IS_PAUSED,
    PAUSE_STATE,
    SCREEN,
};

verus! {

/// The fixed topology of the screens: `Screen` is the root and defaults to
/// `Splash`; `IsPaused` exists while `Screen` is `Playing` and defaults to
/// `Running`; `PauseState` exists while `IsPaused` is `Paused` and defaults
/// to `PauseMenu`.
pub open spec fn reference_topology(nodes: Seq<StateNode>) -> bool {
    &&& nodes.len() == 3
    &&& nodes[SCREEN as int].parent is None
    &&& nodes[SCREEN as int].default == Screen::Splash.code()
    &&& nodes[IS_PAUSED as int].parent == Some(
        Activation { parent: SCREEN, required: Screen::Playing.code() },
    )
    &&& nodes[IS_PAUSED as int].default == IsPaused::Running.code()
    &&& nodes[PAUSE_STATE as int].parent == Some(
        Activation { parent: IS_PAUSED, required: IsPaused::Paused.code() },
    )
    &&& nodes[PAUSE_STATE as int].default == PauseState::PauseMenu.code()
}

/// The nodes at startup: the splash screen, both pause sub-states absent,
/// nothing requested.
pub open spec fn startup() -> Seq<StateNode> {
    seq![
        StateNode {
            id: SCREEN,
            value: Some(Screen::Splash.code()),
            pending: None,
            parent: None,
            default: Screen::Splash.code(),
        },
        StateNode {
            id: IS_PAUSED,
            value: None,
            pending: None,
            parent: Some(Activation { parent: SCREEN, required: Screen::Playing.code() }),
            default: IsPaused::Running.code(),
        },
        StateNode {
            id: PAUSE_STATE,
            value: None,
            pending: None,
            parent: Some(Activation { parent: IS_PAUSED, required: IsPaused::Paused.code() }),
            default: PauseState::PauseMenu.code(),
        },
    ]
}

/// Every current and every pending value is one of its node's values.
pub open spec fn values_in_range(nodes: Seq<StateNode>) -> bool {
    forall|i: int|
        0 <= i < nodes.len() ==> {
            &&& (#[trigger] nodes[i]).value matches Some(v) ==> valid_request(
                Request { node: nodes[i].id, value: v },
            )
            &&& nodes[i].pending matches Some(v) ==> valid_request(
                Request { node: nodes[i].id, value: v },
            )
        }
}

/// Every binding stands for requests on the three nodes only.
pub open spec fn bindings_valid(info: Seq<ObjectInfo>) -> bool {
    forall|j: int|
        0 <= j < info.len() ==> match (#[trigger] info[j]).binding {
            Some(Binding::Fixed(r)) => valid_request(r),
            Some(Binding::Contextual { probe, if_present, if_absent }) => valid_request(if_present)
                && valid_request(if_absent),
            None => true,
        }
}

/// The scene after the first `k` nodes have had their turn at a
/// synchronization point. Each node that changes first loses everything that
/// existed on behalf of the value it leaves, and then, once it holds its new
/// value, gets what the entry hook of that value creates.
pub open spec fn ticked(nodes: Seq<StateNode>, s: Scene, k: int) -> Scene
    decreases k,
{
    if k <= 0 {
        s
    } else if changes(nodes, k - 1) {
        let left = match nodes[k - 1].value {
            Some(v) => cleaned(ticked(nodes, s, k - 1), ScopeTag { node: nodes[k - 1].id, variant: v }),
            None => ticked(nodes, s, k - 1),
        };
        match next_value(nodes, k - 1) {
            Some(v) => entered(left, nodes[k - 1].id, v),
            None => left,
        }
    } else {
        ticked(nodes, s, k - 1)
    }
}

/// A node's turn keeps tags current: what was tagged with the value the node
/// leaves is gone when the node holds its new value.
proof fn lemma_turn_keeps_scopes(nodes: Seq<StateNode>, s: Scene, i: int)
    requires
        0 <= i < nodes.len(),
        nodes[i].id == i,
        s.info.len() == s.live.len(),
        scopes_current(nodes, s),
    ensures
        scopes_current(turned(nodes, i), turn_scene(nodes, s, i)),
{
    let after = turn_scene(nodes, s, i);
    assert forall|j: int| 0 <= j < after.info.len() && after.live[j] implies match (
    #[trigger] after.info[j]).tag {
        Some(tag) => tag.node < turned(nodes, i).len() && turned(nodes, i)[tag.node as int].value
            == Some(tag.variant),
        None => true,
    } by {
        assert(s.live[j]);
        match s.info[j].tag {
            Some(tag) => {
                if tag.node == i && planned_value(nodes, i) != nodes[i].value {
                    assert(scoped(s.info, j, tag));
                }
            },
            None => {},
        }
    }
}

/// An entry hook run for the value a node holds keeps bindings valid and
/// tags current.
proof fn lemma_entered_keeps(nodes: Seq<StateNode>, s: Scene, node: NodeId, value: Variant)
    requires
        s.info.len() == s.live.len(),
        bindings_valid(s.info),
        scopes_current(nodes, s),
        node < nodes.len(),
        nodes[node as int].value == Some(value),
    ensures
        bindings_valid(entered(s, node, value).info),
        scopes_current(nodes, entered(s, node, value)),
        entered(s, node, value).info.len() == entered(s, node, value).live.len(),
{
    let after = entered(s, node, value);
    let n = s.info.len() as int;
    assert forall|j: int| 0 <= j < after.info.len() implies match (#[trigger] after.info[j]).binding {
        Some(Binding::Fixed(r)) => valid_request(r),
        Some(Binding::Contextual { probe, if_present, if_absent }) => valid_request(if_present)
            && valid_request(if_absent),
        None => true,
    } by {
        if j < n {
            assert(after.info[j] == s.info[j]);
        }
    }
    assert forall|j: int| 0 <= j < after.info.len() && after.live[j] implies match (
    #[trigger] after.info[j]).tag {
        Some(tag) => tag.node < nodes.len() && nodes[tag.node as int].value == Some(tag.variant),
        None => true,
    } by {
        if j < n {
            assert(after.info[j] == s.info[j]);
            assert(after.live[j] == s.live[j]);
        }
    }
}

/// The current screen in `nodes`.
pub open spec fn screen_of(nodes: Seq<StateNode>) -> Screen {
    match nodes[SCREEN as int].value {
        Some(v) => Screen::decode(v),
        None => Screen::Splash,
    }
}

/// Whether the game is paused in `nodes`; `None` while `IsPaused` is absent.
pub open spec fn is_paused_of(nodes: Seq<StateNode>) -> Option<IsPaused> {
    match nodes[IS_PAUSED as int].value {
        Some(v) => Some(IsPaused::decode(v)),
        None => None,
    }
}

/// The pause menu shown in `nodes`; `None` while `PauseState` is absent.
pub open spec fn pause_state_of(nodes: Seq<StateNode>) -> Option<PauseState> {
    match nodes[PAUSE_STATE as int].value {
        Some(v) => Some(PauseState::decode(v)),
        None => None,
    }
}

/// Whether no request is waiting on any node.
pub open spec fn nothing_pending(nodes: Seq<StateNode>) -> bool {
    forall|i: int| 0 <= i < nodes.len() ==> (#[trigger] nodes[i]).pending is None
}

/// The nodes after `request` has been queued and the next synchronization
/// point has passed.
pub open spec fn after_request(nodes: Seq<StateNode>, request: StateRequest) -> Seq<StateNode> {
    applied(requested(nodes, request.plain().node as int, request.plain().value))
}

/// The pause key, pressed while the game runs and nothing else is requested,
/// pauses the game and brings up the pause menu.
pub proof fn lemma_toggle_while_running(nodes: Seq<StateNode>)
    requires
        well_formed(nodes),
        reference_topology(nodes),
        values_in_range(nodes),
        nothing_pending(nodes),
        screen_of(nodes) == Screen::Playing,
        is_paused_of(nodes) == Some(IsPaused::Running),
    ensures
        screen_of(after_request(nodes, toggled(pause_state_of(nodes)))) == Screen::Playing,
        is_paused_of(after_request(nodes, toggled(pause_state_of(nodes)))) == Some(
            IsPaused::Paused,
        ),
        pause_state_of(after_request(nodes, toggled(pause_state_of(nodes)))) == Some(
            PauseState::PauseMenu,
        ),
{
    assert(nodes[0].id == 0 && nodes[1].id == 1 && nodes[2].id == 2);
    let r = toggled(pause_state_of(nodes)).plain();
    let mid = requested(nodes, r.node as int, r.value);
    assert(mid[0].pending is None && mid[2].pending is None);
    assert(next_value(mid, 0) == Some(4u8));
    assert(next_value(mid, 1) == Some(1u8));
    assert(next_value(mid, 2) == Some(0u8));
}

/// The pause key, pressed on the settings menu with nothing else requested,
/// goes back to the pause menu and leaves the game paused.
pub proof fn lemma_toggle_on_settings_menu(nodes: Seq<StateNode>)
    requires
        well_formed(nodes),
        reference_topology(nodes),
        values_in_range(nodes),
        nothing_pending(nodes),
        pause_state_of(nodes) == Some(PauseState::SettingsMenu),
    ensures
        screen_of(after_request(nodes, toggled(pause_state_of(nodes)))) == Screen::Playing,
        is_paused_of(after_request(nodes, toggled(pause_state_of(nodes)))) == Some(
            IsPaused::Paused,
        ),
        pause_state_of(after_request(nodes, toggled(pause_state_of(nodes)))) == Some(
            PauseState::PauseMenu,
        ),
{
    assert(nodes[0].id == 0 && nodes[1].id == 1 && nodes[2].id == 2);
    let r = toggled(pause_state_of(nodes)).plain();
    let mid = requested(nodes, r.node as int, r.value);
    assert(mid[0].pending is None && mid[1].pending is None);
    assert(next_value(mid, 0) == Some(4u8));
    assert(next_value(mid, 1) == Some(1u8));
    assert(next_value(mid, 2) == Some(0u8));
}

/// The pause key, pressed on the pause menu with nothing else requested,
/// resumes the game, and the pause menu state becomes absent.
pub proof fn lemma_toggle_on_pause_menu(nodes: Seq<StateNode>)
    requires
        well_formed(nodes),
        reference_topology(nodes),
        values_in_range(nodes),
        nothing_pending(nodes),
        pause_state_of(nodes) == Some(PauseState::PauseMenu),
    ensures
        screen_of(after_request(nodes, toggled(pause_state_of(nodes)))) == Screen::Playing,
        is_paused_of(after_request(nodes, toggled(pause_state_of(nodes)))) == Some(
            IsPaused::Running,
        ),
        pause_state_of(after_request(nodes, toggled(pause_state_of(nodes)))) is None,
{
    assert(nodes[0].id == 0 && nodes[1].id == 1 && nodes[2].id == 2);
    let r = toggled(pause_state_of(nodes)).plain();
    let mid = requested(nodes, r.node as int, r.value);
    assert(mid[0].pending is None && mid[2].pending is None);
    assert(next_value(mid, 0) == Some(4u8));
    assert(next_value(mid, 1) == Some(0u8));
    assert(next_value(mid, 2) is None);
}

/// Pressing the settings' back button asks for what leaving the settings asks
/// for in the current context: the pause menu while a pause menu state is
/// present, the title screen otherwise.
pub proof fn lemma_back_button_exits_settings(nodes: Seq<StateNode>)
    requires
        reference_topology(nodes),
    ensures
        resolved(nodes, exit_settings_binding()) == settings_exit(pause_state_of(nodes)).plain(),
{
}

/// Leaving the `Playing` screen takes both pause sub-states away, whatever
/// they held and whatever was requested of them.
pub proof fn lemma_leaving_playing(nodes: Seq<StateNode>)
    requires
        well_formed(nodes),
        reference_topology(nodes),
        next_value(nodes, SCREEN as int) != Some(Screen::Playing.code()),
    ensures
        is_paused_of(applied(nodes)) is None,
        pause_state_of(applied(nodes)) is None,
{
    assert(nodes[0].id == 0 && nodes[1].id == 1 && nodes[2].id == 2);
    assert(next_value(nodes, 1) is None);
    assert(next_value(nodes, 2) is None);
}

/// After a synchronization point no tagged object outlives the value it was
/// created for: a live object tagged for `IsPaused` or `PauseState` exists
/// only while that node holds the tagged value, and nothing alive is owned by
/// something destroyed.
pub proof fn lemma_nothing_outlives_its_scope(m: &ScreenMachine, j: int)
    requires
        m.wf(),
        0 <= j < m.scene().info.len(),
        m.scene().live[j],
    ensures
        m.scene().info[j].tag matches Some(tag) ==> tag.node < 3 && m.nodes()[tag.node as int].value
            == Some(tag.variant),
        m.scene().info[j].owner matches Some(o) ==> o < j && m.scene().live[o as int],
{
}

/// Queuing a request on one of the three nodes for one of its values keeps
/// the machine in order.
proof fn lemma_request_keeps_machine(nodes: Seq<StateNode>, s: Scene, r: Request)
    requires
        well_formed(nodes),
        reference_topology(nodes),
        values_in_range(nodes),
        scopes_current(nodes, s),
        valid_request(r),
    ensures
        well_formed(requested(nodes, r.node as int, r.value)),
        reference_topology(requested(nodes, r.node as int, r.value)),
        values_in_range(requested(nodes, r.node as int, r.value)),
        scopes_current(requested(nodes, r.node as int, r.value), s),
{
    let after = requested(nodes, r.node as int, r.value);
    lemma_request_keeps_values(nodes, r.node as int, r.value);
    assert forall|i: int| 0 <= i < after.len() implies {
        &&& (#[trigger] after[i]).value matches Some(v) ==> valid_request(
            Request { node: after[i].id, value: v },
        )
        &&& after[i].pending matches Some(v) ==> valid_request(
            Request { node: after[i].id, value: v },
        )
    } by {
        assert(nodes[i].id == i);
    }
    assert forall|j: int| 0 <= j < s.info.len() && s.live[j] implies match (
    #[trigger] s.info[j]).tag {
        Some(tag) => tag.node < after.len() && after[tag.node as int].value == Some(tag.variant),
        None => true,
    } by {
        match s.info[j].tag {
            Some(tag) => {
                assert(after[tag.node as int].value == nodes[tag.node as int].value);
            },
            None => {},
        }
    }
}

/// The screens of the application and everything that exists on their
/// behalf.
#[derive(Debug, Clone)]
pub struct ScreenMachine {
    hierarchy: Hierarchy,
    registry: Registry,
}

impl ScreenMachine {
    /// The three nodes: `Screen`, `IsPaused`, `PauseState`.
    pub closed spec fn nodes(&self) -> Seq<StateNode> {
        self.hierarchy@
    }

    /// The objects.
    pub closed spec fn scene(&self) -> Scene {
        self.registry@
    }

    /// The registry's owned-children lists agree with the owner entries.
    pub closed spec fn linked(&self) -> bool {
        self.registry.linked()
    }

    /// The hierarchy is the one of the screens and obeys the presence rule,
    /// all values and bindings name values of the three nodes, and every
    /// live tagged object carries the value its node holds.
    pub open spec fn wf(&self) -> bool {
        &&& well_formed(self.nodes())
        &&& reference_topology(self.nodes())
        &&& values_in_range(self.nodes())
        &&& scene_wf(self.scene())
        &&& self.linked()
        &&& bindings_valid(self.scene().info)
        &&& scopes_current(self.nodes(), self.scene())
    }

    /// The machine at startup: the splash screen, nothing paused, no objects.
    pub fn new() -> (m: ScreenMachine)
        ensures
            m.wf(),
            m.nodes() == startup(),
            m.scene().info.len() == 0,
            m.scene().live.len() == 0,
    {
        let mut hierarchy = Hierarchy::new();
        let screen = hierarchy.add_root(Screen::Splash.index());
        let is_paused = hierarchy.add_sub_state(
            screen,
            Screen::Playing.index(),
            IsPaused::Running.index(),
        );
        let pause_state = hierarchy.add_sub_state(
            IS_PAUSED,
            IsPaused::Paused.index(),
            PauseState::PauseMenu.index(),
        );
        let registry = Registry::new();
        proof {
            assert(hierarchy@ =~= startup());
        }
        ScreenMachine { hierarchy, registry }
    }

    /// The state hierarchy, for reading.
    pub fn hierarchy(&self) -> (h: &Hierarchy)
        ensures
            h@ == self.nodes(),
    {
        &self.hierarchy
    }

    /// The registry, for reading.
    pub fn registry(&self) -> (r: &Registry)
        ensures
            r@ == self.scene(),
            r.linked() == self.linked(),
    {
        &self.registry
    }

    /// The current screen.
    pub open spec fn screen_value(&self) -> Screen {
        screen_of(self.nodes())
    }

    /// Whether the game is paused; `None` while `IsPaused` is absent.
    pub open spec fn is_paused_value(&self) -> Option<IsPaused> {
        is_paused_of(self.nodes())
    }

    /// The pause menu that is shown; `None` while `PauseState` is absent.
    pub open spec fn pause_state_value(&self) -> Option<PauseState> {
        pause_state_of(self.nodes())
    }

    /// The current screen.
    pub fn screen(&self) -> (s: Screen)
        requires
            self.wf(),
        ensures
            s == self.screen_value(),
            self.nodes()[SCREEN as int].value == Some(s.code()),
    {
        proof {
            assert(self.nodes()[0].id == 0);
        }
        Screen::from_index(self.hierarchy.current(SCREEN).unwrap()).unwrap()
    }

    /// Whether the game is paused; `None` exactly while the screen is not
    /// `Playing`.
    pub fn is_paused(&self) -> (s: Option<IsPaused>)
        requires
            self.wf(),
        ensures
            s == self.is_paused_value(),
            s matches Some(x) ==> self.nodes()[IS_PAUSED as int].value == Some(x.code()),
            s is None <==> self.screen_value() != Screen::Playing,
    {
        proof {
            assert(self.nodes()[0].id == 0);
            assert(self.nodes()[1].id == 1);
        }
        match self.hierarchy.current(IS_PAUSED) {
            Some(v) => IsPaused::from_index(v),
            None => None,
        }
    }

    /// The pause menu that is shown; `None` exactly while the game is not
    /// paused.
    pub fn pause_state(&self) -> (s: Option<PauseState>)
        requires
            self.wf(),
        ensures
            s == self.pause_state_value(),
            s matches Some(x) ==> self.nodes()[PAUSE_STATE as int].value == Some(x.code()),
            s is None <==> self.is_paused_value() != Some(IsPaused::Paused),
    {
        proof {
            assert(self.nodes()[1].id == 1);
            assert(self.nodes()[2].id == 2);
        }
        match self.hierarchy.current(PAUSE_STATE) {
            Some(v) => PauseState::from_index(v),
            None => None,
        }
    }

    /// Queues `request` for the next synchronization point.
    pub fn request(&mut self, request: StateRequest)
        requires
            old(self).wf(),
        ensures
            final(self).wf(),
            final(self).nodes() == requested(
                old(self).nodes(),
                request.plain().node as int,
                request.plain().value,
            ),
            final(self).scene() == old(self).scene(),
    {
        let r = request.to_request();
        self.hierarchy.request(r.node, r.value);
        proof {
            lemma_request_keeps_machine(old(self).nodes(), self.scene(), r);
        }
    }

    /// Delivers a press of the pause key.
    ///
    /// While the screen is `Playing` this queues what the toggle asks for,
    /// given the current pause menu, and returns it. On every other screen
    /// the key does nothing.
    pub fn key_pressed(&mut self) -> (issued: Option<StateRequest>)
        requires
            old(self).wf(),
        ensures
            final(self).wf(),
            final(self).scene() == old(self).scene(),
            issued == if old(self).screen_value() == Screen::Playing {
                Some(toggled(old(self).pause_state_value()))
            } else {
                None
            },
            final(self).nodes() == match issued {
                Some(r) => requested(old(self).nodes(), r.plain().node as int, r.plain().value),
                None => old(self).nodes(),
            },
    {
        match self.screen() {
            Screen::Playing => {
                let r = toggle_pause(self.pause_state());
                self.request(r);
                Some(r)
            },
            _ => None,
        }
    }

    /// Delivers a pointer press on `object`.
    ///
    /// Queues exactly the request the object was bound with, whatever other
    /// objects exist, and returns it. A press on an object that is
    /// destroyed, was never spawned or has no binding does nothing.
    pub fn pressed(&mut self, object: ObjectId) -> (issued: Option<StateRequest>)
        requires
            old(self).wf(),
        ensures
            final(self).wf(),
            final(self).scene() == old(self).scene(),
            match issued {
                Some(r) => {
                    &&& press_request(old(self).nodes(), old(self).scene(), object as int) == Some(
                        r.plain(),
                    )
                    &&& final(self).nodes() == requested(
                        old(self).nodes(),
                        r.plain().node as int,
                        r.plain().value,
                    )
                },
                None => {
                    &&& press_request(old(self).nodes(), old(self).scene(), object as int) is None
                    &&& final(self).nodes() == old(self).nodes()
                },
            },
    {
        match dispatch_press(&mut self.hierarchy, &self.registry, object) {
            Some(r) => {
                proof {
                    assert(old(self).scene().info[object as int].binding is Some);
                    lemma_request_keeps_machine(old(self).nodes(), self.scene(), r);
                }
                StateRequest::from_request(r)
            },
            None => None,
        }
    }

    /// Creates an object that exists on behalf of the value `node` holds
    /// now, owned by nobody, and returns its id.
    ///
    /// Returns `None`, changing nothing, exactly when `node` is absent or is
    /// none of the three nodes.
    pub fn spawn_scoped(&mut self, node: NodeId) -> (id: Option<ObjectId>)
        requires
            old(self).wf(),
        ensures
            final(self).wf(),
            final(self).nodes() == old(self).nodes(),
            id is Some <==> node < 3 && old(self).nodes()[node as int].value is Some,
            match id {
                Some(x) => x == old(self).scene().info.len() && final(self).scene() == tagged(
                    spawned(old(self).scene(), None, None),
                    x as int,
                    ScopeTag { node, variant: old(self).nodes()[node as int].value.unwrap() },
                ),
                None => final(self).scene() == old(self).scene(),
            },
    {
        match self.hierarchy.current(node) {
            Some(v) => {
                let x = self.registry.spawn(None, None).unwrap();
                self.registry.tag(x, node, v);
                proof {
                    let before = old(self).scene();
                    let after = self.scene();
                    assert forall|j: int| 0 <= j < after.info.len() implies match (
                    #[trigger] after.info[j]).binding {
                        Some(Binding::Fixed(r)) => valid_request(r),
                        Some(Binding::Contextual { probe, if_present, if_absent }) => valid_request(
                            if_present,
                        ) && valid_request(if_absent),
                        None => true,
                    } by {
                        if j < before.info.len() {
                            assert(after.info[j] == before.info[j]);
                        }
                    }
                    assert forall|j: int|
                        0 <= j < after.info.len() && after.live[j] implies match (
                    #[trigger] after.info[j]).tag {
                        Some(tag) => tag.node < self.nodes().len() && self.nodes()[tag.node as int].value
                            == Some(tag.variant),
                        None => true,
                    } by {
                        if j < before.info.len() {
                            assert(after.info[j] == before.info[j]);
                            assert(after.live[j] == before.live[j]);
                        }
                    }
                }
                Some(x)
            },
            None => None,
        }
    }

    /// Creates an untagged object owned by `owner`, bound to `on_press` if
    /// given, and returns its id.
    ///
    /// Returns `None`, changing nothing, exactly when `owner` is not alive.
    pub fn spawn_child(&mut self, owner: ObjectId, on_press: Option<StateRequest>) -> (id: Option<
        ObjectId,
    >)
        requires
            old(self).wf(),
        ensures
            final(self).wf(),
            final(self).nodes() == old(self).nodes(),
            id is Some <==> owner < old(self).scene().live.len() && old(
                self,
            ).scene().live[owner as int],
            match id {
                Some(x) => x == old(self).scene().info.len() && final(self).scene() == spawned(
                    old(self).scene(),
                    Some(owner),
                    match on_press {
                        Some(r) => Some(Binding::Fixed(r.plain())),
                        None => None,
                    },
                ),
                None => final(self).scene() == old(self).scene(),
            },
    {
        let binding = match on_press {
            Some(r) => Some(Binding::Fixed(r.to_request())),
            None => None,
        };
        let id = self.registry.spawn(Some(owner), binding);
        proof {
            let before = old(self).scene();
            let after = self.scene();
            if id is Some {
                assert forall|j: int| 0 <= j < after.info.len() implies match (
                #[trigger] after.info[j]).binding {
                    Some(Binding::Fixed(r)) => valid_request(r),
                    Some(Binding::Contextual { probe, if_present, if_absent }) => valid_request(
                        if_present,
                    ) && valid_request(if_absent),
                    None => true,
                } by {
                    if j < before.info.len() {
                        assert(after.info[j] == before.info[j]);
                    }
                }
                assert forall|j: int| 0 <= j < after.info.len() && after.live[j] implies match (
                #[trigger] after.info[j]).tag {
                    Some(tag) => tag.node < self.nodes().len() && self.nodes()[tag.node as int].value
                        == Some(tag.variant),
                    None => true,
                } by {
                    if j < before.info.len() {
                        assert(after.info[j] == before.info[j]);
                        assert(after.live[j] == before.live[j]);
                    }
                }
            }
        }
        id
    }

    /// Destroys `object` and everything it owns, as an exit hook may do ahead
    /// of the automatic cleanup. Destroying what is already destroyed
    /// changes nothing.
    pub fn destroy(&mut self, object: ObjectId)
        requires
            old(self).wf(),
        ensures
            final(self).wf(),
            final(self).nodes() == old(self).nodes(),
            final(self).scene() == destroyed(old(self).scene(), object as int),
    {
        self.registry.destroy(object);
        proof {
            let before = old(self).scene();
            let after = self.scene();
            assert forall|j: int| 0 <= j < after.info.len() && after.live[j] implies match (
            #[trigger] after.info[j]).tag {
                Some(tag) => tag.node < self.nodes().len() && self.nodes()[tag.node as int].value
                    == Some(tag.variant),
                None => true,
            } by {
                assert(before.live[j]);
            }
        }
    }

    /// The synchronization point of the tick.
    ///
    /// Gives each of the three nodes its turn, parents first. A node whose
    /// next value differs from its current one runs the exit hook of the old
    /// value, loses everything that existed on behalf of it, takes the new
    /// value, and runs the entry hook of the new value. Every pending
    /// request is consumed. Returns the changes in the order they were made,
    /// so that the caller can do what else the application ties to them.
    pub fn apply_all(&mut self) -> (log: Vec<Transition>)
        requires
            old(self).wf(),
        ensures
            final(self).wf(),
            final(self).nodes() == applied(old(self).nodes()),
            log@ == transitions(old(self).nodes(), 3),
            final(self).scene() == ticked(old(self).nodes(), old(self).scene(), 3),
    {
        let ghost nodes = self.nodes();
        let ghost scene = self.scene();
        let mut log: Vec<Transition> = Vec::new();
        let mut i: usize = 0;
        while i < 3
            invariant
                i <= 3,
                nodes == old(self).nodes(),
                scene == old(self).scene(),
                well_formed(nodes),
                reference_topology(nodes),
                values_in_range(nodes),
                self.hierarchy@.len() == 3,
                forall|k: int| 0 <= k < i ==> #[trigger] self.hierarchy@[k] == applied(nodes)[k],
                forall|k: int| i <= k < 3 ==> #[trigger] self.hierarchy@[k] == nodes[k],
                self.registry.wf(),
                self.registry@ == ticked(nodes, scene, i as int),
                self.registry@.info.len() == self.registry@.live.len(),
                bindings_valid(self.registry@.info),
                scopes_current(self.hierarchy@, self.registry@),
                log@ == transitions(nodes, i as int),
            decreases 3 - i,
        {
            let ghost mixed = self.hierarchy@;
            let ghost before = self.registry@;
            proof {
                assert(mixed[i as int] == nodes[i as int]);
                assert(nodes[i as int].id == i);
                match nodes[i as int].parent {
                    Some(a) => {
                        assert(mixed[a.parent as int] == applied(nodes)[a.parent as int]);
                    },
                    None => {},
                }
                assert(planned_value(mixed, i as int) == next_value(nodes, i as int));
            }
            let current = self.hierarchy.current(i);
            let next = self.hierarchy.planned(i);
            if !same_value(current, next) {
                match current {
                    Some(v) => {
                        exit(&mut self.registry, i, v);
                        proof {
                            lemma_cleanup_is_idempotent(before, ScopeTag { node: i, variant: v });
                        }
                    },
                    None => {},
                }
            }
            let change = turn(&mut self.hierarchy, &mut self.registry, i);
            proof {
                assert(self.registry@ == turn_scene(mixed, before, i as int));
                lemma_turn_keeps_scopes(mixed, before, i as int);
            }
            match change {
                Some(t) => {
                    log.push(t);
                    match t.to {
                        Some(v) => {
                            proof {
                                lemma_entered_keeps(self.hierarchy@, self.registry@, i, v);
                            }
                            enter(&mut self.registry, i, v);
                        },
                        None => {},
                    }
                },
                None => {},
            }
            i += 1;
        }
        proof {
            lemma_applied_is_well_formed(nodes);
            assert(self.hierarchy@ =~= applied(nodes));
            let after = applied(nodes);
            assert forall|k: int| 0 <= k < after.len() implies {
                &&& (#[trigger] after[k]).value matches Some(v) ==> valid_request(
                    Request { node: after[k].id, value: v },
                )
                &&& after[k].pending matches Some(v) ==> valid_request(
                    Request { node: after[k].id, value: v },
                )
            } by {
                assert(nodes[k].id == k);
            }
        }
        log
    }
}

} // verus!
