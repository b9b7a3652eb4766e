//! Application-state transitions and their effect on the world's stack.
//!
//! A driver owns two stacks: its own stack of application states and the
//! [`World`]'s stack of world states.  Each tick the current application
//! state returns a [`StateTrans`]; the driver must apply the matching
//! mutation to both stacks together, which [`apply_to_world`] does for the
//! world's side.

use vstd::prelude::*;
use crate::ecs::{Component, World, push_state, pop_state, switch_state};
use crate::model::{world_push, world_pop, world_switch};

verus! {

/// The instruction an application state's update returns: stay in this
/// state, leave it, enter a new one on top of it, or replace it by a new
/// one.  `S` is the driver's own representation of an application state.
pub enum StateTrans<S> {
    Stay,
    Pop,
    Push(S),
    Swap(S),
}

/// Apply a transition's world-stack effect, keeping the world in lockstep
/// with the driver's application-state stack: `Stay` leaves the stack as it
/// is, `Pop` discards the top world state, `Push` saves it beneath a fresh
/// empty one, and `Swap` replaces it by a fresh empty one.  A `Pop` or
/// `Swap` needs a world state beneath to return to.
pub fn apply_to_world<S, C: Component>(t: &StateTrans<S>, world: &mut World<C>)
    requires
        old(world).wf(),
        matches!(t, StateTrans::Pop | StateTrans::Swap(_)) ==> old(world)@.len() >= 2,
    ensures
        final(world).wf(),
        (match t {
            StateTrans::Stay => final(world)@ == old(world)@,
            StateTrans::Pop => final(world)@ == world_pop(old(world)@),
            StateTrans::Push(_) => final(world)@ == world_push(old(world)@),
            StateTrans::Swap(_) => final(world)@ == world_switch(old(world)@),
        }),
{
    match t {
        StateTrans::Stay => {
        },
        StateTrans::Pop => {
            pop_state(world);
        },
        StateTrans::Push(_) => {
            push_state(world);
        },
        StateTrans::Swap(_) => {
            switch_state(world);
        },
    }
}

} // verus!
