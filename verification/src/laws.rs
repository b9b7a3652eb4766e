//! Laws of the world: how the operations' transitions compose.
//!
//! Each law is stated over the model transitions of [`crate::model`], which
//! are exactly what the operations of [`crate::ecs`] promise in their
//! contracts, so these proofs are statements about every run of the
//! executable world.

use vstd::prelude::*;
use crate::ecs::Entity;
use crate::model::{
    StateModel, st_inv, st_empty, st_can_create, st_create, st_create_id, st_remove, st_add,
    world_push, world_pop, world_switch,
};

verus! {

/// A fresh universe starts its ids at 0: nothing is minted, freed or active,
/// and nothing is registered.
pub proof fn lemma_empty_universe<C>()
    ensures
        st_empty::<C>().next_id == 0,
        st_empty::<C>().free.len() == 0,
        st_empty::<C>().active == Set::<Entity>::empty(),
        st_empty::<C>().comps == Map::<u64, Map<Entity, C>>::empty(),
        forall|e: Entity| !st_empty::<C>().active.contains(e),
{
}

/// Fresh allocation counts up by one: in a universe with no freed ids,
/// creation hands out the counter's value and advances it, and leaves the
/// free stack empty — so consecutive creations hand out consecutive ids,
/// starting at 0 in a fresh universe.
pub proof fn lemma_fresh_allocation<C>(s: StateModel<C>)
    requires
        st_inv(s),
        s.free.len() == 0,
        s.next_id < usize::MAX,
    ensures
        st_create_id(s) == s.next_id,
        st_create(s).next_id == s.next_id + 1,
        st_create(s).free.len() == 0,
        st_inv(st_create(s)),
{
    assert forall|e2: Entity| #[trigger] st_create(s).active.contains(e2) implies e2.0 < st_create(
        s,
    ).next_id by {
        if e2 != Entity(st_create_id(s)) {
            assert(s.active.contains(e2));
        }
    }
}

/// The most recently freed id is reused first: after removing an active
/// entity, the very next creation hands back exactly that entity's id, and
/// mints no fresh id.
pub proof fn lemma_remove_then_create<C>(s: StateModel<C>, e: Entity)
    requires
        s.active.contains(e),
    ensures
        st_can_create(st_remove(s, e)),
        st_create_id(st_remove(s, e)) == e.0,
        st_create(st_remove(s, e)).next_id == s.next_id,
{
}

/// An entity is active immediately after the creation that returned it.
pub proof fn lemma_create_then_contains<C>(s: StateModel<C>)
    ensures
        st_create(s).active.contains(Entity(st_create_id(s))),
{
}

/// An entity is inactive immediately after its removal, whether or not it
/// was active before.
pub proof fn lemma_remove_then_contains<C>(s: StateModel<C>, e: Entity)
    ensures
        !st_remove(s, e).active.contains(e),
{
}

/// Removing an entity that is not active changes nothing at all, and is not
/// an error.
pub proof fn lemma_remove_inactive<C>(s: StateModel<C>, e: Entity)
    requires
        !s.active.contains(e),
    ensures
        st_remove(s, e) == s,
{
}

/// A store yields exactly what was most recently set: adding a value makes
/// the store hold that pair, leaves its other entries and every other store
/// untouched, and removing an active entity drops its pair from every
/// registered store.
pub proof fn lemma_store_contents<C>(s: StateModel<C>, token: u64, e: Entity, v: C)
    requires
        s.comps.dom().contains(token),
    ensures
        st_add(s, token, e, v).comps[token] == s.comps[token].insert(e, v),
        forall|t: u64|
            t != token && s.comps.dom().contains(t) ==> #[trigger] st_add(s, token, e, v).comps[t]
                == s.comps[t],
        s.active.contains(e) ==> st_remove(s, e).comps[token] == s.comps[token].remove(e),
        s.active.contains(e) ==> !st_remove(s, e).comps[token].dom().contains(e),
{
}

/// A mutation written through a mutable component borrow is what a
/// subsequent lookup of the same entity and token yields.
pub proof fn lemma_mutate_then_get<C>(s: StateModel<C>, token: u64, e: Entity, v: C)
    requires
        s.comps.dom().contains(token),
    ensures
        st_add(s, token, e, v).comps[token][e] == v,
        st_add(s, token, e, v).comps[token].dom().contains(e),
{
}

/// Pushing hides the current universe behind a fresh empty one — no entity
/// is active on the new top — and popping restores the stack exactly as it
/// was before the push, every universe untouched.
pub proof fn lemma_push_then_pop<C>(ws: Seq<StateModel<C>>)
    ensures
        world_push(ws).last() == st_empty::<C>(),
        forall|e: Entity| !world_push(ws).last().active.contains(e),
        world_pop(world_push(ws)) == ws,
{
    assert(world_pop(world_push(ws)) =~= ws);
    assert(st_empty::<C>().active =~= Set::<Entity>::empty());
}

/// Switching is observably a pop followed by a push: the transition that a
/// switch performs on the stack equals the composition of the pop and push
/// transitions.
pub proof fn lemma_switch_is_pop_then_push<C>(ws: Seq<StateModel<C>>)
    requires
        ws.len() >= 1,
    ensures
        world_switch(ws) == world_push(world_pop(ws)),
{
}

} // verus!
