//! The scope tag registry: objects, who owns them, and the state value each
//! one was created for.

use vstd::prelude::*;
use crate::node::{Binding, NodeId, ObjectId, ScopeTag, Variant};

verus! {

/// What is fixed about an object: its owner, its scope tag and what pressing
/// it asks for. The owner and the binding are set at creation; the tag is set
/// at most once.
#[derive(Clone, Copy, Debug, PartialEq, Eq, Hash)]
pub struct ObjectInfo {
    pub owner: Option<ObjectId>,
    pub tag: Option<ScopeTag>,
    pub binding: Option<Binding>,
}

/// The mathematical content of a registry: one entry per object ever
/// spawned, in order of creation, and whether each is still alive.
pub struct Scene {
    pub info: Seq<ObjectInfo>,
    pub live: Seq<bool>,
}

/// An owner is older than what it owns, and nothing alive is owned by
/// something destroyed.
pub open spec fn scene_wf(s: Scene) -> bool {
    &&& s.info.len() == s.live.len()
    &&& forall|j: int|
        0 <= j < s.info.len() ==> match (#[trigger] s.info[j]).owner {
            Some(o) => o < j && (s.live[j] ==> s.live[o as int]),
            None => true,
        }
}

/// Whether object `c` exists and names `o` as its owner.
pub open spec fn owned_by(info: Seq<ObjectInfo>, c: int, o: int) -> bool {
    0 <= c < info.len() && match info[c].owner {
        Some(p) => p == o,
        None => false,
    }
}

/// Whether object `j` is `x` itself or is owned, directly or through a chain
/// of owners, by `x`.
pub open spec fn in_subtree(info: Seq<ObjectInfo>, j: int, x: int) -> bool
    decreases j,
{
    0 <= j < info.len() && (j == x || match info[j].owner {
        Some(o) => o < j && in_subtree(info, o as int, x),
        None => false,
    })
}

/// Whether object `j`, or one of the objects that own it directly or through
/// a chain of owners, sits below position `bound` and carries `tag`.
pub open spec fn scoped_below(info: Seq<ObjectInfo>, j: int, tag: ScopeTag, bound: int) -> bool
    decreases j,
{
    0 <= j < info.len() && ((j < bound && info[j].tag == Some(tag)) || match info[j].owner {
        Some(o) => o < j && scoped_below(info, o as int, tag, bound),
        None => false,
    })
}

/// Whether object `j` exists on behalf of `tag`: it carries the tag itself or
/// belongs to the subtree of an object that does.
pub open spec fn scoped(info: Seq<ObjectInfo>, j: int, tag: ScopeTag) -> bool {
    scoped_below(info, j, tag, info.len() as int)
}

/// The scene after a new live object has been appended.
pub open spec fn spawned(s: Scene, owner: Option<ObjectId>, binding: Option<Binding>) -> Scene {
    Scene { info: s.info.push(ObjectInfo { owner, tag: None, binding }), live: s.live.push(true) }
}

/// The scene after `object` has received `tag`.
pub open spec fn tagged(s: Scene, object: int, tag: ScopeTag) -> Scene {
    Scene {
        info: s.info.update(
            object,
            ObjectInfo { owner: s.info[object].owner, tag: Some(tag), binding: s.info[object].binding },
        ),
        live: s.live,
    }
}

/// The scene after `x` and everything in its subtree has been destroyed.
pub open spec fn destroyed(s: Scene, x: int) -> Scene {
    Scene {
        info: s.info,
        live: Seq::new(s.live.len(), |j: int| s.live[j] && !in_subtree(s.info, j, x)),
    }
}

/// The scene after everything that exists on behalf of `tag` has been
/// destroyed.
pub open spec fn cleaned(s: Scene, tag: ScopeTag) -> Scene {
    Scene {
        info: s.info,
        live: Seq::new(s.live.len(), |j: int| s.live[j] && !scoped(s.info, j, tag)),
    }
}

/// Membership in a subtree only reaches younger objects.
proof fn lemma_subtree_is_younger(info: Seq<ObjectInfo>, j: int, x: int)
    requires
        in_subtree(info, j, x),
    ensures
        0 <= x <= j,
    decreases j,
{
    if j != x {
        lemma_subtree_is_younger(info, info[j].owner.unwrap() as int, x);
    }
}

/// In a well-formed scene a live object keeps every owner above it alive.
proof fn lemma_subtree_root_is_live(s: Scene, j: int, x: int)
    requires
        scene_wf(s),
        in_subtree(s.info, j, x),
        s.live[j],
    ensures
        s.live[x],
    decreases j,
{
    if j != x {
        lemma_subtree_root_is_live(s, s.info[j].owner.unwrap() as int, x);
    }
}

/// The subtree of an object owned by `x` lies inside the subtree of `x`.
proof fn lemma_subtree_of_owned(info: Seq<ObjectInfo>, j: int, c: int, x: int)
    requires
        in_subtree(info, j, c),
        owned_by(info, c, x),
        0 <= x < c,
    ensures
        in_subtree(info, j, x),
    decreases j,
{
    if j == c {
        assert(in_subtree(info, x, x));
    } else {
        lemma_subtree_of_owned(info, info[j].owner.unwrap() as int, c, x);
    }
}

/// An object strictly inside the subtree of `x` lies in the subtree of an
/// object that `x` owns directly.
proof fn lemma_subtree_branch(info: Seq<ObjectInfo>, j: int, x: int) -> (c: int)
    requires
        in_subtree(info, j, x),
        j != x,
    ensures
        owned_by(info, c, x),
        in_subtree(info, j, c),
    decreases j,
{
    let o = info[j].owner.unwrap() as int;
    if o == x {
        j
    } else {
        lemma_subtree_branch(info, o, x)
    }
}

/// Below position zero there is nothing to carry a tag.
proof fn lemma_scoped_below_nothing(info: Seq<ObjectInfo>, j: int, tag: ScopeTag)
    ensures
        !scoped_below(info, j, tag, 0),
    decreases j,
{
    if 0 <= j < info.len() {
        match info[j].owner {
            Some(o) => {
                if o < j {
                    lemma_scoped_below_nothing(info, o as int, tag);
                }
            },
            None => {},
        }
    }
}

/// Raising the bound past position `a` adds exactly the subtree of `a`, if
/// `a` carries the tag.
proof fn lemma_scoped_step(info: Seq<ObjectInfo>, j: int, tag: ScopeTag, a: int)
    requires
        0 <= a < info.len(),
    ensures
        scoped_below(info, j, tag, a + 1) == (scoped_below(info, j, tag, a) || (info[a].tag == Some(
            tag,
        ) && in_subtree(info, j, a))),
    decreases j,
{
    if 0 <= j < info.len() {
        match info[j].owner {
            Some(o) => {
                if o < j {
                    lemma_scoped_step(info, o as int, tag, a);
                }
            },
            None => {},
        }
    }
}

/// In a well-formed scene where no live object carries `tag`, no live object
/// exists on behalf of it.
proof fn lemma_live_is_unscoped(s: Scene, j: int, tag: ScopeTag)
    requires
        scene_wf(s),
        forall|i: int| 0 <= i < s.info.len() && s.live[i] ==> (#[trigger] s.info[i]).tag != Some(tag),
        0 <= j < s.info.len(),
        s.live[j],
    ensures
        !scoped(s.info, j, tag),
    decreases j,
{
    match s.info[j].owner {
        Some(o) => {
            lemma_live_is_unscoped(s, o as int, tag);
        },
        None => {},
    }
}

/// Cleaning up the same scope twice changes nothing the second time.
pub proof fn lemma_cleanup_is_idempotent(s: Scene, tag: ScopeTag)
    ensures
        cleaned(cleaned(s, tag), tag) == cleaned(s, tag),
{
    assert(cleaned(cleaned(s, tag), tag).live =~= cleaned(s, tag).live);
}

/// Cleaning up a scope that no live object is tagged with changes nothing,
/// however often it is done.
pub proof fn lemma_cleanup_without_live_objects(s: Scene, tag: ScopeTag)
    requires
        scene_wf(s),
        forall|i: int| 0 <= i < s.info.len() && s.live[i] ==> (#[trigger] s.info[i]).tag != Some(tag),
    ensures
        cleaned(s, tag) == s,
        cleaned(cleaned(s, tag), tag) == s,
{
    assert forall|j: int| 0 <= j < s.live.len() implies (s.live[j] && !scoped(s.info, j, tag))
        == s.live[j] by {
        if s.live[j] {
            lemma_live_is_unscoped(s, j, tag);
        }
    }
    assert(cleaned(s, tag).live =~= s.live);
}

/// Destroying an object that is already destroyed changes nothing.
pub proof fn lemma_destroy_of_dead_object(s: Scene, x: int)
    requires
        scene_wf(s),
        !(0 <= x < s.live.len() && s.live[x]),
    ensures
        destroyed(s, x) == s,
{
    assert forall|j: int| 0 <= j < s.live.len() implies (s.live[j] && !in_subtree(s.info, j, x))
        == s.live[j] by {
        if s.live[j] && in_subtree(s.info, j, x) {
            lemma_subtree_is_younger(s.info, j, x);
            lemma_subtree_root_is_live(s, j, x);
        }
    }
    assert(destroyed(s, x).live =~= s.live);
}

/// The objects spawned so far, the tree in which they own each other, and
/// their scope tags.
#[derive(Debug, Clone)]
pub struct Registry {
    info: Vec<ObjectInfo>,
    live: Vec<bool>,
    children: Vec<Vec<ObjectId>>,
}

impl Registry {
    /// The objects and which of them are alive.
    pub closed spec fn view(&self) -> Scene {
        Scene { info: self.info@, live: self.live@ }
    }

    /// For each object, the objects it owns directly, oldest first.
    pub closed spec fn links(&self) -> Seq<Seq<ObjectId>> {
        Seq::new(self.children@.len(), |o: int| self.children@[o]@)
    }

    /// The owned-children lists say exactly what the owner entries say.
    pub open spec fn linked(&self) -> bool {
        &&& self.links().len() == self@.info.len()
        &&& forall|o: int, m: int|
            0 <= o < self.links().len() && 0 <= m < self.links()[o].len() ==> {
                &&& o < (#[trigger] self.links()[o][m])
                &&& owned_by(self@.info, self.links()[o][m] as int, o)
            }
        &&& forall|c: int|
            0 <= c < self@.info.len() ==> match (#[trigger] self@.info[c]).owner {
                Some(o) => exists|m: int|
                    0 <= m < self.links()[o as int].len() && #[trigger] self.links()[o as int][m]
                        == c,
                None => true,
            }
    }

    /// The scene is well formed and the owned-children lists agree with it.
    pub open spec fn wf(&self) -> bool {
        scene_wf(self@) && self.linked()
    }

    /// A registry without objects.
    pub fn new() -> (r: Registry)
        ensures
            r.wf(),
            r@.info == Seq::<ObjectInfo>::empty(),
            r@.live == Seq::<bool>::empty(),
    {
        Registry { info: Vec::new(), live: Vec::new(), children: Vec::new() }
    }

    /// Number of objects ever spawned, destroyed ones included.
    pub fn len(&self) -> (n: usize)
        ensures
            n == self@.info.len(),
    {
        self.info.len()
    }

    /// Whether `object` exists and has not been destroyed.
    pub fn is_live(&self, object: ObjectId) -> (live: bool)
        ensures
            live == (object < self@.live.len() && self@.live[object as int]),
    {
        object < self.live.len() && self.live[object]
    }

    /// What is fixed about `object`, or `None` if no such object was ever
    /// spawned.
    pub fn info(&self, object: ObjectId) -> (info: Option<ObjectInfo>)
        ensures
            info == if object < self@.info.len() {
                Some(self@.info[object as int])
            } else {
                None
            },
    {
        if object < self.info.len() {
            Some(self.info[object])
        } else {
            None
        }
    }

    /// The objects `object` owns directly, oldest first, or `None` if no such
    /// object was ever spawned.
    pub fn owned(&self, object: ObjectId) -> (kids: Option<&Vec<ObjectId>>)
        requires
            self.wf(),
        ensures
            match kids {
                Some(k) => object < self@.info.len() && k@ == self.links()[object as int],
                None => object >= self@.info.len(),
            },
    {
        if object < self.children.len() {
            Some(&self.children[object])
        } else {
            None
        }
    }

    /// What pressing `object` asks for: its binding, if it is alive and has
    /// one. A destroyed object answers no press.
    pub fn press(&self, object: ObjectId) -> (binding: Option<Binding>)
        requires
            self.wf(),
        ensures
            binding == if object < self@.live.len() && self@.live[object as int] {
                self@.info[object as int].binding
            } else {
                None
            },
    {
        if object < self.live.len() && self.live[object] {
            self.info[object].binding
        } else {
            None
        }
    }

    /// Creates a live, untagged object owned by `owner` (by nobody if `None`)
    /// and returns its id.
    ///
    /// Returns `None`, leaving the registry as it was, exactly when an owner
    /// is named that is not alive.
    pub fn spawn(&mut self, owner: Option<ObjectId>, binding: Option<Binding>) -> (id: Option<
        ObjectId,
    >)
        requires
            old(self).wf(),
        ensures
            final(self).wf(),
            id is Some <==> (owner matches Some(o) ==> o < old(self)@.live.len() && old(
                self,
            )@.live[o as int]),
            id is None ==> final(self)@ == old(self)@,
            id matches Some(x) ==> x == old(self)@.info.len() && final(self)@ == spawned(
                old(self)@,
                owner,
                binding,
            ),
    {
        let id: usize = self.info.len();
        match owner {
            Some(o) => {
                if o >= id || !self.live[o] {
                    return None;
                }
                self.children[o].push(id);
            },
            None => {},
        }
        self.info.push(ObjectInfo { owner, tag: None, binding });
        self.live.push(true);
        self.children.push(Vec::new());
        proof {
            let before = old(self).links();
            let after = self.links();
            assert forall|o: int, m: int|
                0 <= o < after.len() && 0 <= m < after[o].len() implies o < (
            #[trigger] after[o][m]) && owned_by(self@.info, after[o][m] as int, o) by {
                if o < before.len() && m < before[o].len() {
                    assert(after[o][m] == before[o][m]);
                }
            }
            assert forall|c: int| 0 <= c < self@.info.len() implies match (
            #[trigger] self@.info[c]).owner {
                Some(o) => exists|m: int|
                    0 <= m < after[o as int].len() && #[trigger] after[o as int][m] == c,
                None => true,
            } by {
                match self@.info[c].owner {
                    Some(o) => {
                        if c < id {
                            assert(old(self)@.info[c].owner == Some(o));
                            let m = choose|m: int|
                                0 <= m < before[o as int].len() && #[trigger] before[o as int][m]
                                    == c;
                            assert(after[o as int][m] == c);
                        } else {
                            let m = before[o as int].len() as int;
                            assert(after[o as int][m] == c);
                        }
                    },
                    None => {},
                }
            }
            assert(self@ =~= spawned(old(self)@, owner, binding));
        }
        Some(id)
    }

    /// Attaches the scope tag `(node, variant)` to `object`.
    ///
    /// A tag is given once: the call is accepted exactly when `object` is
    /// alive and untagged, and otherwise leaves the registry as it was.
    pub fn tag(&mut self, object: ObjectId, node: NodeId, variant: Variant) -> (accepted: bool)
        requires
            old(self).wf(),
        ensures
            final(self).wf(),
            accepted == (object < old(self)@.live.len() && old(self)@.live[object as int] && old(
                self,
            )@.info[object as int].tag is None),
            final(self)@ == if accepted {
                tagged(old(self)@, object as int, ScopeTag { node, variant })
            } else {
                old(self)@
            },
            final(self).links() == old(self).links(),
    {
        if object >= self.live.len() || !self.live[object] {
            return false;
        }
        match self.info[object].tag {
            Some(_) => false,
            None => {
                self.info[object].tag = Some(ScopeTag { node, variant });
                proof {
                    assert(self@ =~= tagged(old(self)@, object as int, ScopeTag { node, variant }));
                    assert forall|j: int| 0 <= j < self@.info.len() implies (
                    #[trigger] self@.info[j]).owner == old(self)@.info[j].owner by {}
                }
                true
            },
        }
    }

    /// Destroys `object` and, walking the objects it owns depth-first,
    /// everything in its subtree, each owned object before its owner.
    /// Destroying what is already destroyed, or was never spawned, changes
    /// nothing.
    pub fn destroy(&mut self, object: ObjectId)
        requires
            old(self).wf(),
        ensures
            final(self).wf(),
            final(self)@ == destroyed(old(self)@, object as int),
            final(self).links() == old(self).links(),
        decreases old(self)@.info.len() - object,
    {
        if object >= self.live.len() || !self.live[object] {
            proof {
                lemma_destroy_of_dead_object(self@, object as int);
            }
            return ;
        }
        let count: usize = self.children[object].len();
        let mut k: usize = 0;
        while k < count
            invariant
                k <= count,
                self.wf(),
                old(self).wf(),
                self@.info == old(self)@.info,
                self@.live.len() == old(self)@.live.len(),
                self.links() == old(self).links(),
                object < self@.info.len(),
                count == self.links()[object as int].len(),
                forall|j: int|
                    0 <= j < self@.live.len() ==> (#[trigger] self@.live[j]) == (old(self)@.live[j]
                        && !(exists|m: int|
                        0 <= m < k && in_subtree(
                            old(self)@.info,
                            j,
                            #[trigger] old(self).links()[object as int][m] as int,
                        ))),
            decreases count - k,
        {
            let child: usize = self.children[object][k];
            let ghost before = self@;
            let ghost kids = old(self).links()[object as int];
            assert(child == kids[k as int]);
            self.destroy(child);
            proof {
                assert forall|j: int| 0 <= j < self@.live.len() implies (#[trigger] self@.live[j])
                    == (old(self)@.live[j] && !(exists|m: int|
                    0 <= m < k + 1 && in_subtree(old(self)@.info, j, #[trigger] kids[m] as int))) by {
                    assert(self@.live[j] == (before.live[j] && !in_subtree(
                        before.info,
                        j,
                        child as int,
                    )));
                    if in_subtree(old(self)@.info, j, child as int) {
                        assert(in_subtree(old(self)@.info, j, kids[k as int] as int));
                    }
                }
            }
            k += 1;
        }
        let ghost mid = self@;
        self.live[object] = false;
        proof {
            let s = old(self)@;
            assert(self@.info == mid.info);
            assert(self@.live =~= mid.live.update(object as int, false));
            let x = object as int;
            let kids = old(self).links()[x];
            assert forall|j: int| 0 <= j < s.live.len() implies (#[trigger] self@.live[j]) == (
            s.live[j] && !in_subtree(s.info, j, x)) by {
                if j == x {
                    assert(in_subtree(s.info, x, x));
                } else if in_subtree(s.info, j, x) {
                    let c = lemma_subtree_branch(s.info, j, x);
                    assert(s.info[c].owner is Some);
                    let m = choose|m: int| 0 <= m < kids.len() && #[trigger] kids[m] == c;
                    assert(in_subtree(s.info, j, kids[m] as int));
                } else {
                    if exists|m: int|
                        0 <= m < count && in_subtree(s.info, j, #[trigger] kids[m] as int) {
                        let m = choose|m: int|
                            0 <= m < count && in_subtree(s.info, j, #[trigger] kids[m] as int);
                        lemma_subtree_of_owned(s.info, j, kids[m] as int, x);
                    }
                }
            }
            assert(self@.live =~= destroyed(s, x).live);
            assert forall|j: int| 0 <= j < self@.info.len() implies match (
            #[trigger] self@.info[j]).owner {
                Some(o) => o < j && (self@.live[j] ==> self@.live[o as int]),
                None => true,
            } by {
                assert(mid.info[j] == s.info[j]);
                match s.info[j].owner {
                    Some(o) => {
                        assert(o < j && (mid.live[j] ==> mid.live[o as int]));
                        if self@.live[j] && o == object {
                            assert(owned_by(s.info, j, x));
                            let m = choose|m: int| 0 <= m < kids.len() && #[trigger] kids[m] == j;
                            assert(in_subtree(s.info, j, kids[m] as int));
                            assert(!mid.live[j]);
                        }
                    },
                    None => {},
                }
            }
            assert(scene_wf(self@));
            assert(self.links() == old(self).links());
            assert(self.linked());
        }
    }

    /// Destroys every object that exists on behalf of `(node, variant)`: each
    /// live object tagged with exactly that pair, together with its subtree.
    /// With no such object alive the call changes nothing.
    pub fn cleanup(&mut self, node: NodeId, variant: Variant)
        requires
            old(self).wf(),
        ensures
            final(self).wf(),
            final(self)@ == cleaned(old(self)@, ScopeTag { node, variant }),
            final(self).links() == old(self).links(),
    {
        let ghost tag = ScopeTag { node, variant };
        let n: usize = self.info.len();
        let mut a: usize = 0;
        proof {
            assert forall|j: int| 0 <= j < n implies !scoped_below(self@.info, j, tag, 0) by {
                lemma_scoped_below_nothing(self@.info, j, tag);
            }
        }
        while a < n
            invariant
                a <= n,
                n == self@.info.len(),
                self.wf(),
                self@.info == old(self)@.info,
                self@.live.len() == old(self)@.live.len(),
                self.links() == old(self).links(),
                tag == (ScopeTag { node, variant }),
                forall|j: int|
                    0 <= j < n ==> (#[trigger] self@.live[j]) == (old(self)@.live[j] && !scoped_below(
                        old(self)@.info,
                        j,
                        tag,
                        a as int,
                    )),
            decreases n - a,
        {
            let hit = match self.info[a].tag {
                Some(t) => t.node == node && t.variant == variant,
                None => false,
            };
            let ghost before = self@;
            if hit {
                self.destroy(a);
            }
            proof {
                assert(hit == (before.info[a as int].tag == Some(tag)));
                assert forall|j: int| 0 <= j < n implies (#[trigger] self@.live[j]) == (old(
                    self,
                )@.live[j] && !scoped_below(old(self)@.info, j, tag, a + 1)) by {
                    lemma_scoped_step(old(self)@.info, j, tag, a as int);
                }
            }
            a += 1;
        }
        proof {
            assert(self@.live =~= cleaned(old(self)@, tag).live);
        }
    }
}

} // verus!
