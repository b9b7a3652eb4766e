//! The entity-component world.
//!
//! A [`World`] is a non-empty stack of world states.  Each world state is one
//! independent universe: an id allocator that recycles freed ids
//! most-recently-freed first, the set of active entities, and one component
//! store per registered component type token.  All entity and component
//! operations act on the top of the stack; [`push_state`], [`pop_state`] and
//! [`switch_state`] are reserved for the driver that owns the world.
//!
//! Component types are identified by a caller-chosen `u64` type token, and a
//! world is generic over the one Rust type `C` that carries component values
//! (typically an enum with one variant per component type).  Every operation
//! is specified as a transition on the model of [`crate::model`].

use vstd::prelude::*;
use crate::assoc::{
    kv_unique, kv_map, lemma_kv_dom, lemma_kv_at, lemma_kv_update, lemma_kv_push,
    lemma_kv_remove_at, lemma_to_set_push, lemma_to_set_remove_at,
};
use crate::model::{
    StateModel, st_inv, st_empty, st_can_create, st_create, st_create_id, st_remove, st_register,
    st_add, with_top, world_push, world_pop, world_switch,
};

verus! {

/// An entity: an opaque, copyable, totally ordered identifier.  Within one
/// world state no two active entities share an id, and removed ids are
/// recycled.
#[derive(Clone, Copy, PartialEq, Eq, Structural, Hash, PartialOrd, Ord, Debug)]
pub struct Entity(pub usize);

/// Marker for the type that carries a world's component values.
pub trait Component: Sized {
}

/// A homogeneous store: the component values of one registered type token,
/// one entry per entity.  Entries are kept in a vector with pairwise distinct
/// entity keys and are read as a map from entity to value.
pub(crate) struct ComponentStore<C> {
    pub(crate) data: Vec<(Entity, C)>,
}

/// The map a store denotes.
pub(crate) open spec fn store_map<C>(st: ComponentStore<C>) -> Map<Entity, C> {
    kv_map(st.data@)
}

/// All registered stores of one world state, as a map from type token to the
/// store's own map.
pub(crate) open spec fn store_maps<C>(s: Seq<(u64, ComponentStore<C>)>) -> Map<u64, Map<Entity, C>> {
    kv_map(s).map_values(|st: ComponentStore<C>| store_map(st))
}

impl<C> ComponentStore<C> {
    pub(crate) open spec fn wf(self) -> bool {
        kv_unique(self.data@)
    }

    pub(crate) fn new() -> (st: ComponentStore<C>)
        ensures
            st.wf(),
            store_map(st) == Map::<Entity, C>::empty(),
            st.data@.len() == 0,
    {
        let st = ComponentStore { data: Vec::new() };
        proof {
            assert(store_map(st) =~= Map::<Entity, C>::empty());
        }
        st
    }

    /// The index carrying entity `e`, if any entry does.
    fn find(&self, e: Entity) -> (r: Option<usize>)
        ensures
            match r {
                Some(j) => j < self.data@.len() && self.data@[j as int].0 == e,
                None => forall|m: int| 0 <= m < self.data@.len() ==> (#[trigger] self.data@[m]).0 != e,
            },
    {
        let mut i: usize = 0;
        let n: usize = self.data.len();
        while i < n
            invariant
                n == self.data@.len(),
                i <= n,
                forall|m: int| 0 <= m < i ==> (#[trigger] self.data@[m]).0 != e,
            decreases n - i,
        {
            if self.data[i].0 == e {
                return Some(i);
            }
            i = i + 1;
        }
        None
    }

    /// Insert or overwrite the entry for `e`.
    pub(crate) fn insert(&mut self, e: Entity, v: C)
        requires
            old(self).wf(),
        ensures
            final(self).wf(),
            store_map(*final(self)) == store_map(*old(self)).insert(e, v),
    {
        match self.find(e) {
            Some(j) => {
                self.data[j] = (e, v);
                proof {
                    lemma_kv_update(old(self).data@, j as int, v);
                }
            },
            None => {
                self.data.push((e, v));
                proof {
                    lemma_kv_dom(old(self).data@, e);
                    lemma_kv_push(old(self).data@, e, v);
                }
            },
        }
    }

    /// Drop the entry for `e`, if there is one.
    pub(crate) fn remove_entity(&mut self, e: Entity)
        requires
            old(self).wf(),
        ensures
            final(self).wf(),
            store_map(*final(self)) == store_map(*old(self)).remove(e),
    {
        match self.find(e) {
            Some(j) => {
                self.data.remove(j);
                proof {
                    lemma_kv_remove_at(old(self).data@, j as int);
                }
            },
            None => {
                proof {
                    lemma_kv_dom(self.data@, e);
                    assert(store_map(*self) =~= store_map(*self).remove(e));
                }
            },
        }
    }

    /// A mutable borrow of the value stored for `e`.
    pub(crate) fn get_mut(&mut self, e: Entity) -> (r: &mut C)
        requires
            old(self).wf(),
            store_map(*old(self)).dom().contains(e),
        ensures
            *r == store_map(*old(self))[e],
            final(self).wf(),
            store_map(*final(self)) == store_map(*old(self)).insert(e, *final(r)),
    {
        let j: usize = match self.find(e) {
            Some(j) => j,
            None => {
                proof {
                    lemma_kv_dom(self.data@, e);
                }
                0
            },
        };
        proof {
            lemma_kv_at(self.data@, j as int);
            assert forall|v: C|
                kv_unique(#[trigger] self.data@.update(j as int, (e, v))) && kv_map(
                    self.data@.update(j as int, (e, v)),
                ) == kv_map(self.data@).insert(e, v) by {
                lemma_kv_update(self.data@, j as int, v);
            }
        }
        &mut self.data[j].1
    }
}

/// One universe: the id allocator, the active entities, and the registered
/// component stores.
pub(crate) struct WorldState<C> {
    current_id: usize,
    reusable_ids: Vec<usize>,
    active: Vec<Entity>,
    components: Vec<(u64, ComponentStore<C>)>,
}

impl<C> View for WorldState<C> {
    type V = StateModel<C>;

    closed spec fn view(&self) -> StateModel<C> {
        StateModel {
            next_id: self.current_id,
            free: self.reusable_ids@,
            active: self.active@.to_set(),
            comps: store_maps(self.components@),
        }
    }
}

impl<C> WorldState<C> {
    pub(crate) closed spec fn wf(self) -> bool {
        &&& self.active@.no_duplicates()
        &&& kv_unique(self.components@)
        &&& forall|i: int|
            0 <= i < self.components@.len() ==> (#[trigger] self.components@[i]).1.wf()
        &&& st_inv(self@)
    }

    pub(crate) fn new() -> (s: WorldState<C>)
        ensures
            s.wf(),
            s@ == st_empty::<C>(),
    {
        let s = WorldState {
            current_id: 0,
            reusable_ids: Vec::new(),
            active: Vec::new(),
            components: Vec::new(),
        };
        proof {
            assert(s.active@.to_set() =~= Set::<Entity>::empty());
            assert(store_maps(s.components@) =~= Map::<u64, Map<Entity, C>>::empty());
            assert(s@ =~= st_empty::<C>());
        }
        s
    }

    /// True exactly when `e` is active here.
    pub(crate) fn contains(&self, e: Entity) -> (r: bool)
        ensures
            r == self@.active.contains(e),
    {
        match self.find_active(e) {
            Some(_) => true,
            None => {
                proof {
                    if self@.active.contains(e) {
                        let m = choose|m: int| 0 <= m < self.active@.len() && self.active@[m] == e;
                        assert(self.active@[m] == e);
                    }
                }
                false
            },
        }
    }

    /// The index of `e` in the active list, if it is active.
    fn find_active(&self, e: Entity) -> (r: Option<usize>)
        ensures
            match r {
                Some(j) => j < self.active@.len() && self.active@[j as int] == e
                    && self@.active.contains(e),
                None => forall|m: int| 0 <= m < self.active@.len() ==> self.active@[m] != e,
            },
    {
        let mut i: usize = 0;
        let n: usize = self.active.len();
        while i < n
            invariant
                n == self.active@.len(),
                i <= n,
                forall|m: int| 0 <= m < i ==> self.active@[m] != e,
            decreases n - i,
        {
            if self.active[i] == e {
                proof {
                    assert(self.active@[i as int] == e);
                }
                return Some(i);
            }
            i = i + 1;
        }
        None
    }

    /// Allocate an entity: reuse the most recently freed id if one is
    /// waiting, else mint the next fresh id.
    pub(crate) fn create(&mut self) -> (r: Entity)
        requires
            old(self).wf(),
            st_can_create(old(self)@),
        ensures
            final(self).wf(),
            final(self)@ == st_create(old(self)@),
            r.0 == st_create_id(old(self)@),
    {
        let id: usize;
        match self.reusable_ids.pop() {
            Some(reused) => {
                id = reused;
            },
            None => {
                proof {
                    assert(old(self)@.free.len() == 0);
                }
                id = self.current_id;
                self.current_id = self.current_id + 1;
            },
        }
        proof {
            assert(id == st_create_id(old(self)@));
            assert(old(self)@.active == old(self).active@.to_set());
            if old(self)@.free.len() > 0 {
                assert(old(self)@.free[old(self)@.free.len() - 1] == id);
                assert(!old(self)@.active.contains(Entity(id)));
            } else {
                if old(self)@.active.contains(Entity(id)) {
                    assert(Entity(id).0 < old(self)@.next_id);
                    assert(false);
                }
            }
            assert(!old(self).active@.to_set().contains(Entity(id)));
        }
        self.active.push(Entity(id));
        proof {
            lemma_to_set_push(old(self).active@, Entity(id));
            let s0 = old(self)@;
            assert(self@.active =~= s0.active.insert(Entity(id)));
            if s0.free.len() > 0 {
                assert(self@.free =~= s0.free.drop_last());
            }
            assert(self@ =~= st_create(s0));
            assert(st_inv(self@)) by {
                assert forall|i: int| 0 <= i < self@.free.len() implies (#[trigger] self@.free[i])
                    < self@.next_id && !self@.active.contains(Entity(self@.free[i])) by {
                    assert(self@.free[i] == s0.free[i]);
                    assert(s0.free[i] < s0.next_id);
                    if s0.free.len() > 0 {
                        assert(s0.free[i] != s0.free[s0.free.len() - 1]);
                    }
                }
                assert forall|e2: Entity| #[trigger] self@.active.contains(e2) implies e2.0
                    < self@.next_id by {
                    if e2 != Entity(id) {
                        assert(s0.active.contains(e2));
                    }
                }
            }
        }
        Entity(id)
    }

    /// Remove `e` if it is active: recycle its id, deactivate it, and drop
    /// its entry from every store.  A no-op if `e` is not active.
    pub(crate) fn remove(&mut self, e: Entity)
        requires
            old(self).wf(),
        ensures
            final(self).wf(),
            final(self)@ == st_remove(old(self)@, e),
    {
        match self.find_active(e) {
            None => {
                proof {
                    if self@.active.contains(e) {
                        let m = choose|m: int| 0 <= m < self.active@.len() && self.active@[m] == e;
                        assert(self.active@[m] == e);
                    }
                }
            },
            Some(j) => {
                self.reusable_ids.push(e.0);
                self.active.remove(j);
                proof {
                    lemma_to_set_remove_at(old(self).active@, j as int);
                    assert forall|i: int|
                        0 <= i < old(self)@.free.len() implies (#[trigger] old(self)@.free[i])
                        != e.0 by {
                        assert(!old(self)@.active.contains(Entity(old(self)@.free[i])));
                    }
                }
                let ghost mid = *self;
                let n: usize = self.components.len();
                let mut i: usize = 0;
                while i < n
                    invariant
                        n == self.components@.len(),
                        i <= n,
                        self.current_id == mid.current_id,
                        self.reusable_ids@ == mid.reusable_ids@,
                        self.active@ == mid.active@,
                        self.components@.len() == mid.components@.len(),
                        forall|m: int|
                            0 <= m < n ==> (#[trigger] self.components@[m]).0
                                == mid.components@[m].0,
                        forall|m: int|
                            0 <= m < i ==> (#[trigger] self.components@[m]).1.wf() && store_map(
                                self.components@[m].1,
                            ) == store_map(mid.components@[m].1).remove(e),
                        forall|m: int|
                            i <= m < n ==> (#[trigger] self.components@[m]).1
                                == mid.components@[m].1,
                        forall|m: int| 0 <= m < n ==> (#[trigger] mid.components@[m]).1.wf(),
                    decreases n - i,
                {
                    let entry = &mut self.components[i];
                    entry.1.remove_entity(e);
                    i = i + 1;
                }
                proof {
                    let s0 = old(self)@;
                    assert(kv_unique(self.components@));
                    assert forall|t: u64|
                        #[trigger] store_maps(self.components@).dom().contains(t)
                            <==> s0.comps.dom().contains(t) by {
                        lemma_kv_dom(self.components@, t);
                        lemma_kv_dom(old(self).components@, t);
                        if store_maps(self.components@).dom().contains(t) {
                            let m = choose|m: int|
                                0 <= m < self.components@.len() && (#[trigger] self.components@[m]).0
                                    == t;
                            assert(old(self).components@[m].0 == t);
                        }
                        if s0.comps.dom().contains(t) {
                            let m = choose|m: int|
                                0 <= m < old(self).components@.len() && (#[trigger] old(
                                    self,
                                ).components@[m]).0 == t;
                            assert(self.components@[m].0 == t);
                        }
                    }
                    assert forall|t: u64|
                        #[trigger] s0.comps.dom().contains(t) implies store_maps(self.components@)[t]
                        == s0.comps[t].remove(e) by {
                        lemma_kv_dom(old(self).components@, t);
                        let m = choose|m: int|
                            0 <= m < old(self).components@.len() && (#[trigger] old(
                                self,
                            ).components@[m]).0 == t;
                        lemma_kv_at(old(self).components@, m);
                        lemma_kv_at(self.components@, m);
                    }
                    assert(store_maps(self.components@) =~= s0.comps.map_values(
                        |m2: Map<Entity, C>| m2.remove(e),
                    ));
                    assert(self@.free =~= s0.free.push(e.0));
                    assert(self@.active =~= s0.active.remove(e));
                    assert(self@ =~= st_remove(s0, e));
                    assert(st_inv(self@)) by {
                        assert forall|i2: int|
                            0 <= i2 < self@.free.len() implies (#[trigger] self@.free[i2])
                            < self@.next_id && !self@.active.contains(Entity(self@.free[i2])) by {
                            if i2 < s0.free.len() {
                                assert(s0.free[i2] < s0.next_id);
                            } else {
                                assert(self@.free[i2] == e.0);
                                assert(s0.active.contains(e));
                            }
                        }
                    }
                    assert(self@.free.no_duplicates());
                }
            },
        }
    }

    /// The index of the store registered under `token`, if any.
    fn find_token(&self, token: u64) -> (r: Option<usize>)
        ensures
            match r {
                Some(j) => j < self.components@.len() && self.components@[j as int].0 == token,
                None => forall|m: int|
                    0 <= m < self.components@.len() ==> (#[trigger] self.components@[m]).0 != token,
            },
    {
        let mut i: usize = 0;
        let n: usize = self.components.len();
        while i < n
            invariant
                n == self.components@.len(),
                i <= n,
                forall|m: int| 0 <= m < i ==> (#[trigger] self.components@[m]).0 != token,
            decreases n - i,
        {
            if self.components[i].0 == token {
                return Some(i);
            }
            i = i + 1;
        }
        None
    }

    /// The index of the store registered under `token`, which must exist.
    fn find_token_present(&self, token: u64) -> (j: usize)
        requires
            self@.comps.dom().contains(token),
        ensures
            j < self.components@.len(),
            self.components@[j as int].0 == token,
    {
        match self.find_token(token) {
            Some(j) => j,
            None => {
                proof {
                    lemma_kv_dom(self.components@, token);
                }
                0
            },
        }
    }

    /// True exactly when a store is registered under `token`.
    pub(crate) fn is_registered(&self, token: u64) -> (r: bool)
        ensures
            r == self@.comps.dom().contains(token),
    {
        match self.find_token(token) {
            Some(j) => {
                proof {
                    lemma_kv_dom(self.components@, token);
                    assert(self.components@[j as int].0 == token);
                }
                true
            },
            None => {
                proof {
                    lemma_kv_dom(self.components@, token);
                }
                false
            },
        }
    }

    /// Whether another entity can still be allocated here.
    pub(crate) fn can_create(&self) -> (r: bool)
        ensures
            r == st_can_create(self@),
    {
        self.reusable_ids.len() > 0 || self.current_id < usize::MAX
    }

    /// Install an empty store under `token`, replacing any store already
    /// registered there.
    pub(crate) fn register(&mut self, token: u64)
        requires
            old(self).wf(),
        ensures
            final(self).wf(),
            final(self)@ == st_register(old(self)@, token),
    {
        let st = ComponentStore::new();
        match self.find_token(token) {
            Some(j) => {
                self.components[j] = (token, st);
                proof {
                    lemma_kv_update(old(self).components@, j as int, st);
                }
            },
            None => {
                self.components.push((token, st));
                proof {
                    lemma_kv_dom(old(self).components@, token);
                    lemma_kv_push(old(self).components@, token, st);
                }
            },
        }
        proof {
            let s0 = old(self)@;
            assert(kv_map(self.components@) == kv_map(old(self).components@).insert(token, st));
            assert(store_maps(self.components@) =~= s0.comps.insert(token, Map::empty()));
            assert(self@ =~= st_register(s0, token));
        }
    }

    /// Insert or overwrite `e`'s value in the store registered under `token`.
    pub(crate) fn add(&mut self, token: u64, e: Entity, v: C)
        requires
            old(self).wf(),
            old(self)@.comps.dom().contains(token),
        ensures
            final(self).wf(),
            final(self)@ == st_add(old(self)@, token, e, v),
    {
        let j: usize = self.find_token_present(token);
        proof {
            lemma_kv_at(self.components@, j as int);
        }
        let entry = &mut self.components[j];
        entry.1.insert(e, v);
        proof {
            let s0 = old(self)@;
            lemma_kv_update(
                old(self).components@,
                j as int,
                self.components@[j as int].1,
            );
            assert(store_maps(self.components@) =~= s0.comps.insert(
                token,
                s0.comps[token].insert(e, v),
            ));
            assert(self@ =~= st_add(s0, token, e, v));
        }
    }

    /// The entries of the store registered under `token`.
    pub(crate) fn get(&self, token: u64) -> (r: &Vec<(Entity, C)>)
        requires
            self.wf(),
            self@.comps.dom().contains(token),
        ensures
            kv_unique(r@),
            kv_map(r@) == self@.comps[token],
    {
        let j: usize = self.find_token_present(token);
        proof {
            lemma_kv_at(self.components@, j as int);
        }
        &self.components[j].1.data
    }

    /// A mutable borrow of `e`'s value in the store registered under `token`.
    pub(crate) fn get_mut(&mut self, token: u64, e: Entity) -> (r: &mut C)
        requires
            old(self).wf(),
            old(self)@.comps.dom().contains(token),
            old(self)@.comps[token].dom().contains(e),
        ensures
            *r == old(self)@.comps[token][e],
            final(self).wf(),
            final(self)@ == st_add(old(self)@, token, e, *final(r)),
    {
        let j: usize = self.find_token_present(token);
        proof {
            lemma_kv_at(self.components@, j as int);
            let s = self.components@;
            let s0 = self@;
            assert forall|st2: ComponentStore<C>|
                st2.wf() implies kv_unique(#[trigger] s.update(j as int, (token, st2))) && (forall|
                    m: int,
                |
                    0 <= m < s.update(j as int, (token, st2)).len() ==> (#[trigger] s.update(
                        j as int,
                        (token, st2),
                    )[m]).1.wf()) && store_maps(s.update(j as int, (token, st2)))
                == s0.comps.insert(token, store_map(st2)) && st_inv(
                StateModel {
                    next_id: self.current_id,
                    free: self.reusable_ids@,
                    active: self.active@.to_set(),
                    comps: store_maps(s.update(j as int, (token, st2))),
                },
            ) by {
                lemma_kv_update(s, j as int, st2);
                let s2 = s.update(j as int, (token, st2));
                assert forall|m: int| 0 <= m < s2.len() implies (#[trigger] s2[m]).1.wf() by {
                    if m != j {
                        assert(s2[m] == s[m]);
                    }
                }
                assert(store_maps(s2) =~= s0.comps.insert(token, store_map(st2)));
                let s3 = StateModel {
                    next_id: self.current_id,
                    free: self.reusable_ids@,
                    active: self.active@.to_set(),
                    comps: store_maps(s2),
                };
                assert(s3.next_id == s0.next_id && s3.free == s0.free && s3.active == s0.active);
                assert(st_inv(s3));
            }
            assert forall|p: (u64, ComponentStore<C>)| #![trigger p.1] p == (p.0, p.1) by {}
        }
        let entry = &mut self.components[j];
        entry.1.get_mut(e)
    }
}

/// The stack of universes that a world holds, as their models, bottom first.
pub(crate) open spec fn stack_models<C>(s: Seq<WorldState<C>>) -> Seq<StateModel<C>> {
    s.map_values(|ws: WorldState<C>| ws@)
}

/// The world: a non-empty stack of world states.  Only the top state is
/// addressed by entity and component operations.
pub struct World<C: Component> {
    world_state_stack: Vec<WorldState<C>>,
}

impl<C: Component> View for World<C> {
    type V = Seq<StateModel<C>>;

    closed spec fn view(&self) -> Seq<StateModel<C>> {
        stack_models(self.world_state_stack@)
    }
}

/// Append a fresh, empty world state on top of the stack.  The previous top
/// is retained beneath, untouched and unreachable until the new state is
/// popped.  Reserved for the driver.
pub fn push_state<C: Component>(world: &mut World<C>)
    requires
        old(world).wf(),
    ensures
        final(world).wf(),
        final(world)@ == world_push(old(world)@),
{
    world.world_state_stack.push(WorldState::new());
    proof {
        assert(world@ =~= world_push(old(world)@));
        world.lemma_stack_wf();
    }
}

/// Discard the top world state and everything it holds.  The stack must keep
/// at least one state, so popping a one-state world is excluded.  Reserved
/// for the driver.
pub fn pop_state<C: Component>(world: &mut World<C>)
    requires
        old(world).wf(),
        old(world)@.len() >= 2,
    ensures
        final(world).wf(),
        final(world)@ == world_pop(old(world)@),
{
    let _ = world.world_state_stack.pop();
    proof {
        assert(world.world_state_stack@ =~= old(world).world_state_stack@.drop_last());
        assert(world@ =~= world_pop(old(world)@));
        world.lemma_stack_wf();
    }
}

/// Replace the top world state by a fresh empty one: a pop followed by a
/// push.  Reserved for the driver.
pub fn switch_state<C: Component>(world: &mut World<C>)
    requires
        old(world).wf(),
        old(world)@.len() >= 2,
    ensures
        final(world).wf(),
        final(world)@ == world_switch(old(world)@),
{
    pop_state(world);
    push_state(world);
    proof {
        assert(world@ =~= world_switch(old(world)@));
    }
}

impl<C: Component> World<C> {
    /// Well-formedness: the stack is non-empty and every state satisfies the
    /// allocator invariant of [`st_inv`].  Holds of a new world and is
    /// preserved by every operation.
    pub closed spec fn wf(self) -> bool {
        &&& self.world_state_stack@.len() >= 1
        &&& forall|i: int|
            0 <= i < self.world_state_stack@.len() ==> (
            #[trigger] self.world_state_stack@[i]).wf()
    }

    /// A well-formed world has at least one state and each state's model
    /// satisfies the allocator invariant.
    pub proof fn lemma_wf_inv(&self)
        requires
            self.wf(),
        ensures
            self@.len() >= 1,
            forall|i: int| 0 <= i < self@.len() ==> st_inv(#[trigger] self@[i]),
    {
        assert forall|i: int| 0 <= i < self@.len() implies st_inv(#[trigger] self@[i]) by {
            assert(self@[i] == self.world_state_stack@[i]@);
        }
    }

    proof fn lemma_stack_wf(&self)
        requires
            self.world_state_stack@.len() >= 1,
            forall|i: int|
                0 <= i < self.world_state_stack@.len() ==> (
                #[trigger] self.world_state_stack@[i]).wf(),
        ensures
            self.wf(),
    {
    }

    /// A world starts with exactly one, empty, world state.
    pub fn new() -> (w: World<C>)
        ensures
            w.wf(),
            w@ == seq![st_empty::<C>()],
    {
        let mut stack: Vec<WorldState<C>> = Vec::new();
        stack.push(WorldState::new());
        let w = World { world_state_stack: stack };
        proof {
            assert(w@ =~= seq![st_empty::<C>()]);
        }
        w
    }

    /// Create a fresh entity in the top world state and return it.  The most
    /// recently freed id is reused first; otherwise the next fresh id is
    /// minted.  Requires that the id space is not exhausted.
    pub fn create(&mut self) -> (r: Entity)
        requires
            old(self).wf(),
            st_can_create(old(self)@.last()),
        ensures
            final(self).wf(),
            final(self)@ == with_top(old(self)@, st_create(old(self)@.last())),
            r.0 == st_create_id(old(self)@.last()),
            !old(self)@.last().active.contains(r),
            final(self)@.last().active.contains(r),
    {
        let k: usize = self.world_state_stack.len() - 1;
        proof {
            assert(old(self)@[k as int] == self.world_state_stack@[k as int]@);
        }
        let ws = &mut self.world_state_stack[k];
        let r = ws.create();
        proof {
            assert(self@ =~= with_top(old(self)@, st_create(old(self)@.last())));
            self.lemma_stack_wf();
            assert(st_inv(old(self)@.last()));
        }
        r
    }

    /// Install an empty store for `token` in the top world state, replacing
    /// any store registered under that token before (and losing its data:
    /// re-registration is the caller's responsibility).
    pub fn register_comp(&mut self, token: u64)
        requires
            old(self).wf(),
        ensures
            final(self).wf(),
            final(self)@ == with_top(old(self)@, st_register(old(self)@.last(), token)),
    {
        let k: usize = self.world_state_stack.len() - 1;
        proof {
            assert(old(self)@[k as int] == self.world_state_stack@[k as int]@);
        }
        let ws = &mut self.world_state_stack[k];
        ws.register(token);
        proof {
            assert(self@ =~= with_top(old(self)@, st_register(old(self)@.last(), token)));
            self.lemma_stack_wf();
        }
    }

    /// Insert or overwrite `e`'s component of type `token` in the top world
    /// state.  The token must be registered there.  `e` need not be active:
    /// attaching a component to an inactive id is allowed and kept.
    pub fn add_comp(&mut self, token: u64, e: Entity, v: C)
        requires
            old(self).wf(),
            old(self)@.last().comps.dom().contains(token),
        ensures
            final(self).wf(),
            final(self)@ == with_top(old(self)@, st_add(old(self)@.last(), token, e, v)),
    {
        let k: usize = self.world_state_stack.len() - 1;
        proof {
            assert(old(self)@[k as int] == self.world_state_stack@[k as int]@);
        }
        let ws = &mut self.world_state_stack[k];
        ws.add(token, e, v);
        proof {
            assert(self@ =~= with_top(old(self)@, st_add(old(self)@.last(), token, e, v)));
            self.lemma_stack_wf();
        }
    }

    /// The entries of the top world state's store for `token`: exactly the
    /// pairs most recently set, each entity at most once, in no promised
    /// order.  The token must be registered.
    pub fn get_comp(&self, token: u64) -> (r: &Vec<(Entity, C)>)
        requires
            self.wf(),
            self@.last().comps.dom().contains(token),
        ensures
            kv_unique(r@),
            kv_map(r@) == self@.last().comps[token],
    {
        let k: usize = self.world_state_stack.len() - 1;
        proof {
            assert(self@[k as int] == self.world_state_stack@[k as int]@);
        }
        let ws = &self.world_state_stack[k];
        ws.get(token)
    }

    /// A mutable borrow of `e`'s component of type `token` in the top world
    /// state: mutation in place, with no way to insert or drop entries.  The
    /// token must be registered and `e` must have an entry.
    pub fn get_comp_mut(&mut self, token: u64, e: Entity) -> (r: &mut C)
        requires
            old(self).wf(),
            old(self)@.last().comps.dom().contains(token),
            old(self)@.last().comps[token].dom().contains(e),
        ensures
            *r == old(self)@.last().comps[token][e],
            final(self).wf(),
            final(self)@ == with_top(old(self)@, st_add(old(self)@.last(), token, e, *final(r))),
    {
        let k: usize = self.world_state_stack.len() - 1;
        proof {
            assert(old(self)@[k as int] == self.world_state_stack@[k as int]@);
            let stack = self.world_state_stack@;
            let v0 = self@;
            assert forall|ws2: WorldState<C>|
                ws2.wf() implies {
                let stack2 = stack.update(k as int, ws2);
                stack_models(stack2) == with_top(v0, ws2@) && (forall|i: int|
                    0 <= i < stack2.len() ==> (#[trigger] stack2[i]).wf())
            } by {
                let stack2 = stack.update(k as int, ws2);
                assert(stack_models(stack2) =~= with_top(v0, ws2@));
                assert forall|i: int| 0 <= i < stack2.len() implies (#[trigger] stack2[i]).wf() by {
                    if i != k {
                        assert(stack2[i] == stack[i]);
                    }
                }
            }
        }
        let ws = &mut self.world_state_stack[k];
        ws.get_mut(token, e)
    }

    /// True exactly when `e` is active in the top world state.
    pub fn contains(&self, e: Entity) -> (r: bool)
        requires
            self.wf(),
        ensures
            r == self@.last().active.contains(e),
    {
        let k: usize = self.world_state_stack.len() - 1;
        proof {
            assert(self@[k as int] == self.world_state_stack@[k as int]@);
        }
        let ws = &self.world_state_stack[k];
        ws.contains(e)
    }

    /// Remove `e` from the top world state: recycle its id, deactivate it,
    /// and drop its entry from every registered store.  Removing an entity
    /// that is not active changes nothing and is not an error.
    pub fn remove(&mut self, e: Entity)
        requires
            old(self).wf(),
        ensures
            final(self).wf(),
            final(self)@ == with_top(old(self)@, st_remove(old(self)@.last(), e)),
    {
        let k: usize = self.world_state_stack.len() - 1;
        proof {
            assert(old(self)@[k as int] == self.world_state_stack@[k as int]@);
        }
        let ws = &mut self.world_state_stack[k];
        ws.remove(e);
        proof {
            assert(self@ =~= with_top(old(self)@, st_remove(old(self)@.last(), e)));
            self.lemma_stack_wf();
        }
    }

    /// The number of world states on the stack.
    pub fn depth(&self) -> (r: usize)
        ensures
            r == self@.len(),
    {
        self.world_state_stack.len()
    }

    /// True exactly when `token` is registered in the top world state.
    pub fn is_registered(&self, token: u64) -> (r: bool)
        requires
            self.wf(),
        ensures
            r == self@.last().comps.dom().contains(token),
    {
        let k: usize = self.world_state_stack.len() - 1;
        proof {
            assert(self@[k as int] == self.world_state_stack@[k as int]@);
        }
        let ws = &self.world_state_stack[k];
        ws.is_registered(token)
    }

    /// Whether another entity can still be created in the top world state.
    pub fn can_create(&self) -> (r: bool)
        requires
            self.wf(),
        ensures
            r == st_can_create(self@.last()),
    {
        let k: usize = self.world_state_stack.len() - 1;
        proof {
            assert(self@[k as int] == self.world_state_stack@[k as int]@);
        }
        let ws = &self.world_state_stack[k];
        ws.can_create()
    }

    /// The active entities of the top world state, each exactly once, in no
    /// promised order.
    pub fn iter(&self) -> (r: &Vec<Entity>)
        requires
            self.wf(),
        ensures
            r@.to_set() == self@.last().active,
            r@.no_duplicates(),
    {
        let k: usize = self.world_state_stack.len() - 1;
        proof {
            assert(self@[k as int] == self.world_state_stack@[k as int]@);
        }
        let ws = &self.world_state_stack[k];
        &ws.active
    }
}

} // verus!
