//! The mathematical model of a world state.
//!
//! Every operation of the entity-component world is specified as a transition
//! on `StateModel`: the abstraction of one universe of entities and
//! components.  The executable types of [`crate::ecs`] carry a view into this
//! model, and their contracts say which transition each call performs.

use vstd::prelude::*;
use crate::ecs::Entity;

verus! {

/// One universe of entities and components, as mathematics:
/// the fresh-id counter, the stack of freed ids (most recently freed last),
/// the set of active entities, and the registered component stores, keyed by
/// their type token and read as maps from entity to component value.
#[verifier::ext_equal]
pub ghost struct StateModel<C> {
    pub next_id: usize,
    pub free: Seq<usize>,
    pub active: Set<Entity>,
    pub comps: Map<u64, Map<Entity, C>>,
}

/// The invariant of a well-formed universe: every freed id was minted before,
/// is freed at most once, and is not active; every active id was minted.
/// An id is therefore active, freed, or not yet minted, never two of these.
pub open spec fn st_inv<C>(s: StateModel<C>) -> bool {
    &&& s.free.no_duplicates()
    &&& forall|i: int| 0 <= i < s.free.len() ==> (#[trigger] s.free[i]) < s.next_id
    &&& forall|i: int| 0 <= i < s.free.len() ==> !s.active.contains(Entity(#[trigger] s.free[i]))
    &&& forall|e: Entity| #[trigger] s.active.contains(e) ==> e.0 < s.next_id
}

/// The universe a fresh world state starts from: nothing minted, nothing
/// active, nothing registered.
pub open spec fn st_empty<C>() -> StateModel<C> {
    StateModel { next_id: 0, free: Seq::empty(), active: Set::empty(), comps: Map::empty() }
}

/// Entity creation succeeds when a freed id can be reused or a fresh one can
/// still be minted.
pub open spec fn st_can_create<C>(s: StateModel<C>) -> bool {
    s.free.len() > 0 || s.next_id < usize::MAX
}

/// The id that creation hands out: the most recently freed id if any is
/// waiting, else the next fresh one.
pub open spec fn st_create_id<C>(s: StateModel<C>) -> usize {
    if s.free.len() > 0 {
        s.free.last()
    } else {
        s.next_id
    }
}

/// Creation: the handed-out id becomes active; a reused id leaves the free
/// stack, a fresh one advances the counter.
pub open spec fn st_create<C>(s: StateModel<C>) -> StateModel<C> {
    StateModel {
        next_id: if s.free.len() > 0 {
            s.next_id
        } else {
            (s.next_id + 1) as usize
        },
        free: if s.free.len() > 0 {
            s.free.drop_last()
        } else {
            s.free
        },
        active: s.active.insert(Entity(st_create_id(s))),
        comps: s.comps,
    }
}

/// Removal of an active entity: its id goes on top of the free stack, it
/// leaves the active set, and every store forgets its entry.  Removal of an
/// inactive entity changes nothing.
pub open spec fn st_remove<C>(s: StateModel<C>, e: Entity) -> StateModel<C> {
    if s.active.contains(e) {
        StateModel {
            next_id: s.next_id,
            free: s.free.push(e.0),
            active: s.active.remove(e),
            comps: s.comps.map_values(|m: Map<Entity, C>| m.remove(e)),
        }
    } else {
        s
    }
}

/// Registration installs an empty store for the token, replacing any store
/// registered under it before.
pub open spec fn st_register<C>(s: StateModel<C>, token: u64) -> StateModel<C> {
    StateModel { comps: s.comps.insert(token, Map::empty()), ..s }
}

/// Adding a component under a registered token: the entity's entry in that
/// one store is set to the value; nothing else moves.  The entity need not be
/// active: entries for inactive ids are deliberately representable.
pub open spec fn st_add<C>(s: StateModel<C>, token: u64, e: Entity, v: C) -> StateModel<C> {
    StateModel { comps: s.comps.insert(token, s.comps[token].insert(e, v)), ..s }
}

/// A world is a non-empty stack of universes; operations act on its top.
/// `with_top` replaces the top universe.
pub open spec fn with_top<C>(ws: Seq<StateModel<C>>, s: StateModel<C>) -> Seq<StateModel<C>>
    recommends
        ws.len() >= 1,
{
    ws.update(ws.len() - 1, s)
}

/// The stack transition a push performs: a fresh empty universe on top, the
/// rest untouched.
pub open spec fn world_push<C>(ws: Seq<StateModel<C>>) -> Seq<StateModel<C>> {
    ws.push(st_empty())
}

/// The stack transition a pop performs: the top universe discarded.
pub open spec fn world_pop<C>(ws: Seq<StateModel<C>>) -> Seq<StateModel<C>> {
    ws.drop_last()
}

/// The stack transition a switch performs: the top universe discarded and a
/// fresh empty one put in its place.
pub open spec fn world_switch<C>(ws: Seq<StateModel<C>>) -> Seq<StateModel<C>> {
    ws.drop_last().push(st_empty())
}

} // verus!
