use ecs_stack::ecs::{pop_state, push_state, switch_state};
use ecs_stack::state::{apply_to_world, StateTrans};
use ecs_stack::{Component, Entity, World};

#[derive(Clone, Copy, PartialEq, Debug)]
struct Health {
    hp: usize,
}

impl Component for Health {}

const HEALTH: u64 = 7;

// fresh ids count up from 0, one per creation
#[test]
fn fresh_ids_count_up() {
    let mut world: World<Health> = World::new();
    assert_eq!(world.create().0, 0);
    assert_eq!(world.create().0, 1);
    assert_eq!(world.create().0, 2);
}

// the most recently freed id is reused first, before any fresh id
#[test]
fn freed_ids_reused_most_recent_first() {
    let mut world: World<Health> = World::new();
    let e0 = world.create();
    let e1 = world.create();
    world.remove(e0);
    world.remove(e1);
    assert_eq!(world.create().0, 1);
    assert_eq!(world.create().0, 0);
    assert_eq!(world.create().0, 2);
}

// an entity is active right after creation and inactive right after removal
#[test]
fn contains_follows_create_and_remove() {
    let mut world: World<Health> = World::new();
    let e = world.create();
    assert!(world.contains(e));
    world.remove(e);
    assert!(!world.contains(e));
    let e2 = world.create();
    assert!(world.contains(e2));
}

// a store yields exactly the pairs most recently set, and removal drops an
// entity's pair from every registered store
#[test]
fn store_yields_latest_pairs() {
    let mut world: World<Health> = World::new();
    world.register_comp(HEALTH);
    let e0 = world.create();
    let e1 = world.create();
    world.add_comp(HEALTH, e0, Health { hp: 1 });
    world.add_comp(HEALTH, e1, Health { hp: 2 });
    world.add_comp(HEALTH, e0, Health { hp: 9 });
    let mut pairs: Vec<(usize, usize)> =
        world.get_comp(HEALTH).iter().map(|(e, h)| (e.0, h.hp)).collect();
    pairs.sort();
    assert_eq!(pairs, vec![(0, 9), (1, 2)]);
    world.remove(e0);
    let pairs_after: Vec<(usize, usize)> =
        world.get_comp(HEALTH).iter().map(|(e, h)| (e.0, h.hp)).collect();
    assert_eq!(pairs_after, vec![(1, 2)]);
}

// a mutation through the mutable borrow is seen by the next lookup
#[test]
fn mutation_is_visible() {
    let mut world: World<Health> = World::new();
    world.register_comp(HEALTH);
    let e = world.create();
    world.add_comp(HEALTH, e, Health { hp: 5 });
    {
        let h = world.get_comp_mut(HEALTH, e);
        h.hp = 42;
    }
    let pairs = world.get_comp(HEALTH);
    assert_eq!(pairs.len(), 1);
    assert_eq!(pairs[0].1.hp, 42);
}

// re-registering a token replaces its store, losing the data it held
#[test]
fn reregistration_replaces_store() {
    let mut world: World<Health> = World::new();
    world.register_comp(HEALTH);
    let e = world.create();
    world.add_comp(HEALTH, e, Health { hp: 5 });
    assert_eq!(world.get_comp(HEALTH).len(), 1);
    world.register_comp(HEALTH);
    assert_eq!(world.get_comp(HEALTH).len(), 0);
}

// pushing hides the prior universe entirely; popping restores it exactly
#[test]
fn push_hides_and_pop_restores() {
    let mut world: World<Health> = World::new();
    world.register_comp(HEALTH);
    let e0 = world.create();
    let e1 = world.create();
    world.add_comp(HEALTH, e0, Health { hp: 6 });
    push_state(&mut world);
    assert!(!world.contains(e0));
    assert!(!world.contains(e1));
    assert!(!world.is_registered(HEALTH));
    assert_eq!(world.iter().len(), 0);
    pop_state(&mut world);
    assert!(world.contains(e0));
    assert!(world.contains(e1));
    assert!(world.is_registered(HEALTH));
    let pairs = world.get_comp(HEALTH);
    assert_eq!(pairs.len(), 1);
    assert_eq!(pairs[0].0, e0);
    assert_eq!(pairs[0].1.hp, 6);
    assert_eq!(world.create().0, 2);
}

// switching is observably a pop followed by a push
#[test]
fn switch_equals_pop_then_push() {
    let mut switched: World<Health> = World::new();
    let mut popped_pushed: World<Health> = World::new();
    for world in [&mut switched, &mut popped_pushed] {
        world.register_comp(HEALTH);
        let e = world.create();
        world.add_comp(HEALTH, e, Health { hp: 6 });
        push_state(world);
        world.register_comp(HEALTH);
        let e2 = world.create();
        world.add_comp(HEALTH, e2, Health { hp: 3 });
    }
    switch_state(&mut switched);
    pop_state(&mut popped_pushed);
    push_state(&mut popped_pushed);
    for world in [&mut switched, &mut popped_pushed] {
        assert_eq!(world.depth(), 2);
        assert!(!world.contains(Entity(0)));
        assert!(!world.is_registered(HEALTH));
        pop_state(world);
        let pairs = world.get_comp(HEALTH);
        assert_eq!(pairs.len(), 1);
        assert_eq!(pairs[0].1.hp, 6);
    }
}

// removing a never-created or already-removed id changes nothing
#[test]
fn removing_inactive_changes_nothing() {
    let mut world: World<Health> = World::new();
    world.register_comp(HEALTH);
    let e = world.create();
    world.add_comp(HEALTH, e, Health { hp: 6 });
    world.remove(Entity(50));
    assert!(world.contains(e));
    assert_eq!(world.get_comp(HEALTH).len(), 1);
    assert_eq!(world.create().0, 1);
    world.remove(e);
    world.remove(e);
    assert!(!world.contains(e));
    assert_eq!(world.get_comp(HEALTH).len(), 0);
    assert_eq!(world.create().0, 0);
}

// a component may be attached to an id that is not active; it is kept
#[test]
fn add_does_not_check_activity() {
    let mut world: World<Health> = World::new();
    world.register_comp(HEALTH);
    world.add_comp(HEALTH, Entity(50), Health { hp: 1 });
    let pairs = world.get_comp(HEALTH);
    assert_eq!(pairs.len(), 1);
    assert_eq!(pairs[0].0, Entity(50));
}

// scenario: one entity with one Health component, then removed
#[test]
fn health_scenario() {
    let mut world: World<Health> = World::new();
    let e0 = world.create();
    assert_eq!(e0.0, 0);
    world.register_comp(HEALTH);
    world.add_comp(HEALTH, e0, Health { hp: 6 });
    let pairs = world.get_comp(HEALTH);
    assert_eq!(pairs.len(), 1);
    assert_eq!(pairs[0].0, e0);
    assert_eq!(pairs[0].1.hp, 6);
    world.remove(e0);
    assert_eq!(world.get_comp(HEALTH).len(), 0);
}

// scenario: ids restart in a pushed state; the old universe comes back whole
#[test]
fn pushed_state_scenario() {
    let mut world: World<Health> = World::new();
    let e0 = world.create();
    world.register_comp(HEALTH);
    world.add_comp(HEALTH, e0, Health { hp: 6 });
    push_state(&mut world);
    let pushed = world.create();
    assert_eq!(pushed.0, 0);
    pop_state(&mut world);
    let pairs = world.get_comp(HEALTH);
    assert_eq!(pairs.len(), 1);
    assert_eq!(pairs[0].0, e0);
    assert_eq!(pairs[0].1.hp, 6);
}

// the driver's transitions move the world stack in lockstep
#[test]
fn transitions_drive_the_stack() {
    let mut world: World<Health> = World::new();
    assert_eq!(world.depth(), 1);
    let stay: StateTrans<&str> = StateTrans::Stay;
    apply_to_world(&stay, &mut world);
    assert_eq!(world.depth(), 1);
    let push: StateTrans<&str> = StateTrans::Push("menu");
    apply_to_world(&push, &mut world);
    assert_eq!(world.depth(), 2);
    let e = world.create();
    let swap: StateTrans<&str> = StateTrans::Swap("level");
    apply_to_world(&swap, &mut world);
    assert_eq!(world.depth(), 2);
    assert!(!world.contains(e));
    let pop: StateTrans<&str> = StateTrans::Pop;
    apply_to_world(&pop, &mut world);
    assert_eq!(world.depth(), 1);
}

// iter yields each active entity exactly once
#[test]
fn iter_yields_active_entities() {
    let mut world: World<Health> = World::new();
    let e0 = world.create();
    let e1 = world.create();
    let e2 = world.create();
    world.remove(e1);
    let mut ids: Vec<usize> = world.iter().iter().map(|e| e.0).collect();
    ids.sort();
    assert_eq!(ids, vec![0, 2]);
    assert!(world.iter().contains(&e0));
    assert!(world.iter().contains(&e2));
}

// an unregistered token is reported as such, and registration changes that
#[test]
fn registration_is_observable() {
    let mut world: World<Health> = World::new();
    assert!(!world.is_registered(HEALTH));
    world.register_comp(HEALTH);
    assert!(world.is_registered(HEALTH));
    assert!(!world.is_registered(8));
    assert!(world.can_create());
}
