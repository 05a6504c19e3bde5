use chisel::component::spatial::{Aabb, Position, Velocity};
use chisel::ecs::error::CoreError;
use chisel::ecs::world::World;
use chisel::math::Vec2;

#[derive(Debug, Eq, PartialEq)]
struct Score(u32);

fn zero() -> Vec2<f32> {
    Vec2::new(0.0, 0.0)
}

#[test]
fn new_world_contains_core_resources() {
    let world: World<f32, Score> = World::new();

    assert!(world.event_queue().is_empty());
    assert!(world.tag_registry().is_empty());
    assert!(!world.contains_resource());
}

#[test]
fn resources_round_trip_by_type() {
    let mut world: World<f32, Score> = World::new();

    world.insert_resource(Score(7));
    assert_eq!(world.resource(), Some(&Score(7)));

    world.resource_mut().expect("score exists").0 += 1;
    assert_eq!(world.remove_resource(), Some(Score(8)));
    assert!(!world.contains_resource());
}

#[test]
fn spawn_attaches_components_and_allows_mutation() {
    let mut world: World<f32, ()> = World::new();

    let entity = world
        .spawn()
        .with(Position(Vec2::new(1.0, 2.0)))
        .with(Velocity(Vec2::new(3.0, 4.0)))
        .finish();

    assert!(world.is_alive(entity));
    assert_eq!(world.entities(), vec![entity]);
    assert_eq!(
        world.get::<Position<f32>>(entity).map(|p| p.0),
        Some(Vec2::new(1.0, 2.0))
    );
    assert!(world.contains::<Velocity<f32>>(entity));

    world
        .get_mut::<Position<f32>>(entity)
        .expect("position exists")
        .0
        .x = 5.0;
    assert_eq!(world.get::<Position<f32>>(entity).map(|p| p.0.x), Some(5.0));
}

#[test]
fn remove_and_despawn_clear_component_access() {
    let mut world: World<f32, ()> = World::new();
    let entity = world.spawn().with(Position(zero())).finish();

    let removed = world.remove::<Position<f32>>(entity).expect("position exists");
    assert_eq!(removed.0, zero());
    assert!(matches!(
        world.remove::<Position<f32>>(entity),
        Err(CoreError::ComponentMissing { entity: missing_entity, .. })
            if missing_entity == entity
    ));

    world
        .insert(entity, Position(Vec2::new(9.0, 0.0)))
        .expect("entity is alive");
    world.despawn(entity).expect("entity is alive");

    assert!(!world.is_alive(entity));
    assert_eq!(world.get::<Position<f32>>(entity).map(|p| p.0), None);
    assert!(matches!(
        world.insert(entity, Position(zero())),
        Err(CoreError::EntityNotFound(missing_entity)) if missing_entity == entity
    ));
}

#[test]
fn despawn_reuses_index_with_new_generation() {
    let mut world: World<f32, ()> = World::new();

    let first = world.spawn().finish();
    world.despawn(first).expect("entity is alive");
    let second = world.spawn().finish();

    assert_eq!(first.index, second.index);
    assert_ne!(first.generation, second.generation);
    assert!(!world.is_alive(first));
    assert!(world.is_alive(second));
}

#[test]
fn query_returns_entities_with_requested_components() {
    let mut world: World<f32, ()> = World::new();
    let moving = world
        .spawn()
        .with(Position(Vec2::new(1.0, 0.0)))
        .with(Velocity(Vec2::new(2.0, 0.0)))
        .finish();
    let _ = world.spawn().with(Position(Vec2::new(9.0, 0.0))).finish();

    let mut rows = Vec::new();
    let mut iter = world
        .query::<(&Position<f32>, &Velocity<f32>)>()
        .into_iter();
    while let Some((entity, (position, velocity))) = iter.next() {
        rows.push((entity, position.0, velocity.0));
    }

    assert_eq!(
        rows,
        vec![(moving, Vec2::new(1.0, 0.0), Vec2::new(2.0, 0.0))]
    );
}

#[test]
fn query_filters_with_and_without_components() {
    let mut world: World<f32, ()> = World::new();
    let expected = world
        .spawn()
        .with(Position(Vec2::new(1.0, 0.0)))
        .with(Velocity(Vec2::new(1.0, 0.0)))
        .finish();
    let _ = world.spawn().with(Position(Vec2::new(2.0, 0.0))).finish();
    let _ = world
        .spawn()
        .with(Position(Vec2::new(3.0, 0.0)))
        .with(Velocity(Vec2::new(3.0, 0.0)))
        .with(Aabb {
            half_extents: Vec2::new(1.0, 1.0),
        })
        .finish();

    let mut entities = Vec::new();
    let mut iter = world
        .query::<&Position<f32>>()
        .with::<Velocity<f32>>()
        .without::<Aabb<f32>>()
        .into_iter();
    while let Some((entity, _)) = iter.next() {
        entities.push(entity);
    }

    assert_eq!(entities, vec![expected]);
}

#[test]
fn query_preserves_entity_iteration_order() {
    let mut world: World<f32, ()> = World::new();
    let first = world.spawn().with(Position(Vec2::new(1.0, 0.0))).finish();
    let second = world.spawn().with(Position(Vec2::new(2.0, 0.0))).finish();

    let mut entities = Vec::new();
    let mut iter = world.query::<&Position<f32>>().into_iter();
    while let Some((entity, _)) = iter.next() {
        entities.push(entity);
    }

    assert_eq!(entities, vec![first, second]);
}

#[test]
fn query_mut_updates_single_component_with_filters() {
    let mut world: World<f32, ()> = World::new();
    let still = world.spawn().with(Position(Vec2::new(1.0, 0.0))).finish();
    let moving = world
        .spawn()
        .with(Position(Vec2::new(2.0, 0.0)))
        .with(Velocity(Vec2::new(1.0, 0.0)))
        .finish();

    let mut iter = world.query_mut::<Position<f32>>().with::<Velocity<f32>>().into_iter();
    while let Some((_, position)) = iter.next() {
        position.0.x += 10.0;
    }

    assert_eq!(world.get::<Position<f32>>(still).map(|p| p.0.x), Some(1.0));
    assert_eq!(world.get::<Position<f32>>(moving).map(|p| p.0.x), Some(12.0));
}

#[test]
fn stale_handles_stay_dead_and_entities_ascend() {
    let mut world: World<f32, ()> = World::new();
    let a = world.spawn().with(Position(zero())).finish();
    let b = world.spawn().with(Velocity(zero())).finish();
    let c = world.spawn().finish();

    world.despawn(b).expect("entity is alive");
    assert!(!world.is_alive(b));
    assert_eq!(world.get::<Velocity<f32>>(b), None);
    assert!(world.insert(b, Position(zero())).is_err());
    assert!(world.get::<Position<f32>>(a).is_some());

    let d = world.spawn().finish();
    assert_eq!(d.index, b.index);
    assert!(!world.is_alive(b));
    world.despawn(d).expect("entity is alive");
    let e = world.spawn().finish();
    assert!(!world.is_alive(b));
    assert!(!world.is_alive(d));

    let live = world.entities();
    assert_eq!(live, vec![a, e, c]);
    assert!(live.windows(2).all(|w| w[0].index < w[1].index));
}
