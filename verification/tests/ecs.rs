use ecs_stack::ecs::{push_state, pop_state, switch_state};
use ecs_stack::{Component, Entity, World};

struct TestComponent {
    x: usize,
}

impl Component for TestComponent {}

const TEST_COMP: u64 = 0;

// it should allow a new Entity to be created
#[test]
fn test_create_entity() {
    let mut test_world: World<TestComponent> = World::new();
    test_world.create();
}

// it should create entities with ascending ids
#[test]
fn test_entity_ids() {
    let mut test_world: World<TestComponent> = World::new();
    let entity0 = test_world.create();
    let entity1 = test_world.create();
    assert_eq!(entity0.0, 0);
    assert_eq!(entity1.0, 1);
}

// it should correctly add a component to an entity
#[test]
fn test_add_comp() {
    let mut test_world: World<TestComponent> = World::new();
    let entity = test_world.create();
    test_world.register_comp(TEST_COMP);
    test_world.add_comp(TEST_COMP, entity, TestComponent { x: 6 });
    let test_comp = test_world.get_comp(TEST_COMP);
    assert_eq!(test_comp.len(), 1);
    for (e, comp) in test_comp {
        assert_eq!(e.0, 0);
        assert_eq!(comp.x, 6);
    }
}

// it should allow an entity's components to be modified
#[test]
fn test_modify_comp() {
    let mut test_world: World<TestComponent> = World::new();
    let entity = test_world.create();
    test_world.register_comp(TEST_COMP);
    test_world.add_comp(TEST_COMP, entity, TestComponent { x: 6 });
    {
        assert_eq!(test_world.get_comp(TEST_COMP).len(), 1);
        let comp = test_world.get_comp_mut(TEST_COMP, entity);
        assert_eq!(comp.x, 6);
        comp.x += 1;
        assert_eq!(comp.x, 7);
    }
    let test_comp_again = test_world.get_comp(TEST_COMP);
    assert_eq!(test_comp_again.len(), 1);
    for (e, comp) in test_comp_again {
        assert_eq!(e.0, 0);
        assert_eq!(comp.x, 7);
    }
}

// it should allow an entity to be removed
#[test]
fn test_remove() {
    let mut test_world: World<TestComponent> = World::new();
    let entity = test_world.create();
    assert_eq!(test_world.contains(entity), true);
    test_world.remove(entity);
    assert_eq!(test_world.contains(entity), false);
}

// it should properly handle pushing a new state on to the state stack
#[test]
fn test_push() {
    let mut test_world: World<TestComponent> = World::new();
    let entity = test_world.create();
    assert_eq!(test_world.contains(entity), true);
    push_state(&mut test_world);
    assert_eq!(test_world.contains(entity), false);
}

// it should properly handle popping a state off of the state stack
#[test]
fn test_pop() {
    let mut test_world: World<TestComponent> = World::new();
    let entity = test_world.create();
    assert_eq!(entity.0, 0);
    test_world.register_comp(TEST_COMP);
    test_world.add_comp(TEST_COMP, entity, TestComponent { x: 6 });
    {
        let test_comp = test_world.get_comp(TEST_COMP);
        assert_eq!(test_comp.len(), 1);
        for (_, comp) in test_comp {
            assert_eq!(comp.x, 6);
        }
    }
    push_state(&mut test_world);
    test_world.register_comp(TEST_COMP);
    let entity_pushed = test_world.create();
    assert_eq!(entity_pushed.0, 0);
    test_world.add_comp(TEST_COMP, entity_pushed, TestComponent { x: 3 });
    {
        let test_comp_pushed = test_world.get_comp(TEST_COMP);
        assert_eq!(test_comp_pushed.len(), 1);
        for (_, comp) in test_comp_pushed {
            assert_eq!(comp.x, 3);
        }
    }
    pop_state(&mut test_world);
    let test_comp_after_pop = test_world.get_comp(TEST_COMP);
    assert_eq!(test_comp_after_pop.len(), 1);
    for (_, comp) in test_comp_after_pop {
        assert_eq!(comp.x, 6);
    }
}

// it should properly handle swapping states on the state stack
#[test]
fn test_switch() {
    let mut test_world: World<TestComponent> = World::new();
    let entity = test_world.create();
    assert_eq!(entity.0, 0);
    test_world.register_comp(TEST_COMP);
    test_world.add_comp(TEST_COMP, entity, TestComponent { x: 6 });
    {
        let test_comp = test_world.get_comp(TEST_COMP);
        assert_eq!(test_comp.len(), 1);
        for (_, comp) in test_comp {
            assert_eq!(comp.x, 6);
        }
    }
    push_state(&mut test_world);
    test_world.register_comp(TEST_COMP);
    let entity_pushed = test_world.create();
    assert_eq!(entity_pushed.0, 0);
    test_world.add_comp(TEST_COMP, entity_pushed, TestComponent { x: 3 });
    {
        let test_comp_pushed = test_world.get_comp(TEST_COMP);
        assert_eq!(test_comp_pushed.len(), 1);
        for (_, comp) in test_comp_pushed {
            assert_eq!(comp.x, 3);
        }
    }
    switch_state(&mut test_world);
    assert_eq!(test_world.contains(entity_pushed), false);
    pop_state(&mut test_world);
    let test_comp_after_pop = test_world.get_comp(TEST_COMP);
    assert_eq!(test_comp_after_pop.len(), 1);
    for (_, comp) in test_comp_after_pop {
        assert_eq!(comp.x, 6);
    }
}

// it should return Unit when trying to remove an entity that is not active
#[test]
fn test_remove_inactive() {
    let mut test_world: World<TestComponent> = World::new();
    assert_eq!(test_world.remove(Entity(50)), ());
}
