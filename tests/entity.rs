use flecs_ecs::ids::{CHILD_OF, Id};
use flecs_ecs::world::World;

#[derive(Clone, Copy, Debug, PartialEq)]
enum Comp {
    Position { x: i32, y: i32 },
    Velocity { x: i32, y: i32 },
    Mass { value: i32 },
    SelfRef { value: u64 },
    Template { x: i32, y: i32 },
}

struct Ids {
    position: u64,
    velocity: u64,
    mass: u64,
    tag: u64,
    rel: u64,
    obj: u64,
    obj2: u64,
    self_ref: u64,
}

fn setup() -> (World<Comp>, Ids) {
    let mut w = World::new();
    let position = w.entity_named("Position");
    let velocity = w.entity_named("Velocity");
    let mass = w.entity_named("Mass");
    let tag = w.entity_named("Tag");
    let rel = w.entity_named("Rel");
    let obj = w.entity_named("Obj");
    let obj2 = w.entity_named("Obj2");
    let self_ref = w.entity_named("SelfRef");
    (w, Ids { position, velocity, mass, tag, rel, obj, obj2, self_ref })
}

fn e_(id: u64) -> Id {
    Id::Entity(id)
}

fn pos(w: &World<Comp>, e: u64, c: &Ids) -> Option<(i32, i32)> {
    match w.get(e, e_(c.position)) {
        Some(Comp::Position { x, y }) => Some((x, y)),
        _ => None,
    }
}

fn vel(w: &World<Comp>, e: u64, c: &Ids) -> Option<(i32, i32)> {
    match w.get(e, e_(c.velocity)) {
        Some(Comp::Velocity { x, y }) => Some((x, y)),
        _ => None,
    }
}

fn set_pos(w: &mut World<Comp>, e: u64, c: &Ids, x: i32, y: i32) {
    w.set(e, e_(c.position), Comp::Position { x, y }).unwrap();
}

fn set_vel(w: &mut World<Comp>, e: u64, c: &Ids, x: i32, y: i32) {
    w.set(e, e_(c.velocity), Comp::Velocity { x, y }).unwrap();
}

#[test]
fn entity_new() {
    let (mut world, _c) = setup();
    let entity = world.entity();
    assert!(world.is_alive(entity));
}

#[test]
fn entity_new_named() {
    let (mut world, _c) = setup();
    let entity = world.entity_named("test");
    assert!(world.is_alive(entity));
    assert_eq!(world.name(entity), "test");
}

#[test]
fn entity_new_named_from_scope() {
    let (mut world, _c) = setup();
    let entity = world.entity_named("Foo");
    assert!(world.is_alive(entity));

    let prev = world.set_scope(entity);
    let child = world.entity_named("Bar");
    assert!(world.is_alive(child));

    world.set_scope(prev);

    assert_eq!(world.name(child), "Bar");
    assert_eq!(world.path(child), "::Foo::Bar");
}

#[test]
fn entity_new_nested_named_from_nested_scope() {
    let (mut world, _c) = setup();
    let entity = world.entity_named("Foo::Bar");

    assert!(world.is_alive(entity));
    assert_eq!(world.name(entity), "Bar");
    assert_eq!(world.path(entity), "::Foo::Bar");

    let prev = world.set_scope(entity);
    let child = world.entity_named("Hello::World");
    assert!(world.is_alive(child));
    world.set_scope(prev);

    assert_eq!(world.name(child), "World");
    assert_eq!(world.path(child), "::Foo::Bar::Hello::World");
}

#[test]
fn entity_new_add() {
    let (mut world, c) = setup();
    let entity = world.entity();
    set_pos(&mut world, entity, &c, 0, 0);
    assert!(world.is_alive(entity));
    assert!(world.has(entity, e_(c.position)));
}

#[test]
fn entity_new_add_2() {
    let (mut world, c) = setup();
    let entity = world.entity();
    set_pos(&mut world, entity, &c, 0, 0);
    set_vel(&mut world, entity, &c, 0, 0);
    assert!(world.is_alive(entity));
    assert!(world.has(entity, e_(c.position)));
    assert!(world.has(entity, e_(c.velocity)));
}

#[test]
fn entity_new_set() {
    let (mut world, c) = setup();
    let entity = world.entity();
    set_pos(&mut world, entity, &c, 10, 20);
    assert!(world.is_alive(entity));
    assert!(world.has(entity, e_(c.position)));
    assert_eq!(pos(&world, entity, &c), Some((10, 20)));
}

#[test]
fn entity_new_set_2() {
    let (mut world, c) = setup();
    let entity = world.entity();
    set_pos(&mut world, entity, &c, 10, 20);
    set_vel(&mut world, entity, &c, 1, 2);
    assert!(world.is_alive(entity));
    assert!(world.has(entity, e_(c.position)));
    assert!(world.has(entity, e_(c.velocity)));
    assert_eq!(pos(&world, entity, &c), Some((10, 20)));
    assert_eq!(vel(&world, entity, &c), Some((1, 2)));
}

#[test]
fn entity_add() {
    let (mut world, c) = setup();
    let entity = world.entity();
    assert!(world.is_alive(entity));
    set_pos(&mut world, entity, &c, 0, 0);
    assert!(world.has(entity, e_(c.position)));
}

#[test]
fn entity_remove() {
    let (mut world, c) = setup();
    let entity = world.entity();
    assert!(world.is_alive(entity));
    set_pos(&mut world, entity, &c, 0, 0);
    assert!(world.has(entity, e_(c.position)));
    world.remove(entity, e_(c.position)).unwrap();
    assert!(!world.has(entity, e_(c.position)));
}

#[test]
fn entity_set() {
    let (mut world, c) = setup();
    let entity = world.entity();
    assert!(world.is_alive(entity));
    set_pos(&mut world, entity, &c, 10, 20);
    assert!(world.has(entity, e_(c.position)));
    assert_eq!(pos(&world, entity, &c), Some((10, 20)));
}

#[test]
fn entity_add_2() {
    let (mut world, c) = setup();
    let entity = world.entity();
    assert!(world.is_alive(entity));
    set_pos(&mut world, entity, &c, 0, 0);
    set_vel(&mut world, entity, &c, 0, 0);
    assert!(world.has(entity, e_(c.position)));
    assert!(world.has(entity, e_(c.velocity)));
}

#[test]
fn entity_add_entity() {
    let (mut world, _c) = setup();
    let tag = world.entity();
    assert!(world.is_alive(tag));
    let entity = world.entity();
    assert!(world.is_alive(entity));
    world.add(entity, e_(tag)).unwrap();
    assert!(world.has(entity, e_(tag)));
}

#[test]
fn entity_remove_2() {
    let (mut world, c) = setup();
    let entity = world.entity();
    set_pos(&mut world, entity, &c, 0, 0);
    set_vel(&mut world, entity, &c, 0, 0);
    assert!(world.has(entity, e_(c.position)));
    assert!(world.has(entity, e_(c.velocity)));
    world.remove(entity, e_(c.position)).unwrap();
    world.remove(entity, e_(c.velocity)).unwrap();
    assert!(!world.has(entity, e_(c.position)));
    assert!(!world.has(entity, e_(c.velocity)));
}

#[test]
fn entity_set_2() {
    let (mut world, c) = setup();
    let entity = world.entity();
    set_pos(&mut world, entity, &c, 10, 20);
    set_vel(&mut world, entity, &c, 1, 2);
    assert!(world.has(entity, e_(c.position)));
    assert!(world.has(entity, e_(c.velocity)));
    assert_eq!(pos(&world, entity, &c), Some((10, 20)));
    assert_eq!(vel(&world, entity, &c), Some((1, 2)));
}

#[test]
fn entity_remove_entity() {
    let (mut world, _c) = setup();
    let tag = world.entity();
    assert!(world.is_alive(tag));
    let entity = world.entity();
    assert!(world.is_alive(entity));
    world.add(entity, e_(tag)).unwrap();
    assert!(world.has(entity, e_(tag)));
    world.remove(entity, e_(tag)).unwrap();
    assert!(!world.has(entity, e_(tag)));
}

#[test]
fn entity_get_generic() {
    let (mut world, c) = setup();
    // the singleton lives on the component's own entity
    world.set(c.position, e_(c.position), Comp::Position { x: 0, y: 0 }).unwrap();

    let entity = world.entity();
    set_pos(&mut world, entity, &c, 10, 20);

    assert!(world.is_alive(entity));
    assert!(world.has(entity, e_(c.position)));

    let p = world.get(entity, e_(c.position));
    assert!(p.is_some());
    assert_eq!(p, Some(Comp::Position { x: 10, y: 20 }));
}

#[test]
fn entity_get_mut_generic_w_id() {
    let (mut world, c) = setup();
    let position = world.component_ext(c.position);

    let entity = world.entity();
    set_pos(&mut world, entity, &c, 10, 20);

    assert!(world.is_alive(entity));
    assert!(world.has(entity, e_(c.position)));

    let p = world.get(entity, e_(position.id));
    assert!(p.is_some());
    assert_eq!(p, Some(Comp::Position { x: 10, y: 20 }));
}

#[test]
fn entity_equals() {
    let (mut world, _c) = setup();
    let e1 = world.entity();
    let e2 = world.entity();

    let e1_2 = e1;
    let e2_2 = e2;

    assert!(e1 == e1_2);
    assert!(e2 == e2_2);
    assert!(e1 >= e1_2);
    assert!(e1 <= e1_2);
    assert!(e2 >= e2_2);
    assert!(e2 <= e2_2);
    assert!(e1 != e2);

    assert!(e2 != e1_2);
    assert!(e1 != e2_2);
    assert!(e2 > e1_2);
    assert!(e1 < e2_2);
    assert!(e2 == e2);
}

#[test]
fn entity_compare_0() {
    let (mut world, _c) = setup();
    let e = world.entity();
    let e0 = world.entity_from_id(0);
    let e0_2 = world.entity_from_id(0);

    assert!(e != e0);
    assert!(e > e0);
    assert!(e >= e0);
    assert!(e0 < e);
    assert!(e0 <= e);

    assert!(e0 == e0_2);
    assert!(e0 >= e0_2);
    assert!(e0 <= e0_2);
}

#[test]
fn entity_compare_literal() {
    let (world, _c) = setup();

    let e1 = world.entity_from_id(500);
    let e2 = world.entity_from_id(600);

    assert_eq!(e1, 500);
    assert_eq!(e2, 600);

    assert_ne!(e1, 600);
    assert_ne!(e2, 500);

    assert!(e1 >= 500);
    assert!(e2 >= 600);

    assert!(e1 <= 500);
    assert!(e2 <= 600);

    assert!(e1 <= 600);
    assert!(e2 >= 500);

    assert!(e1 < 600);
    assert!(e2 > 500);

    assert!(e2 != 500);
    assert!(e1 != 600);

    assert!(e2 == 600);
    assert!(e1 == 500);

    assert!(e1 < 600);
    assert!(e2 > 500);
}

#[test]
fn entity_greater_than() {
    let (mut world, _c) = setup();
    let e1 = world.entity();
    let e2 = world.entity();
    assert!(e2 > e1);
    assert!(e2 >= e1);
}

#[test]
fn entity_less_than() {
    let (mut world, _c) = setup();
    let e1 = world.entity();
    let e2 = world.entity();
    assert!(e1 < e2);
    assert!(e1 <= e2);
}

#[test]
fn entity_not_0_or_1() {
    let (mut world, _c) = setup();
    let e = world.entity();
    let id = e;
    assert_ne!(id, 0);
    assert_ne!(id, 1);
}

#[test]
fn entity_null_string() {
    let (mut world, _c) = setup();
    let entity = world.entity();
    assert_eq!(world.name(entity), "");
}

#[test]
fn entity_none_string() {
    let (mut world, _c) = setup();
    let entity = world.entity();
    assert_eq!(world.get_name(entity), None);
}

#[test]
fn entity_set_name() {
    let (mut world, _c) = setup();
    let entity = world.entity();
    world.set_name(entity, "Foo").unwrap();
    assert_eq!(world.name(entity), "Foo");
}

#[test]
fn entity_set_name_optional() {
    let (mut world, _c) = setup();
    let entity = world.entity();
    world.set_name(entity, "Foo").unwrap();
    assert_eq!(world.get_name(entity), Some("Foo".to_string()));
}

#[test]
fn entity_change_name() {
    let (mut world, _c) = setup();
    let entity = world.entity_named("Bar");
    assert_eq!(world.name(entity), "Bar");
    world.set_name(entity, "Foo").unwrap();
    assert_eq!(world.name(entity), "Foo");
    world.set_name(entity, "Bar").unwrap();
    assert_eq!(world.name(entity), "Bar");
}

#[test]
fn entity_delete() {
    let (mut world, c) = setup();
    let entity = world.entity();
    set_pos(&mut world, entity, &c, 0, 0);
    set_vel(&mut world, entity, &c, 0, 0);

    world.destruct(entity).unwrap();
    assert!(!world.is_alive(entity));

    let entity2 = world.entity();

    assert_eq!(entity2 as u32, entity as u32);
    assert_ne!(entity2, entity);
}

#[test]
fn entity_clear() {
    let (mut world, c) = setup();
    let entity = world.entity();
    set_pos(&mut world, entity, &c, 0, 0);
    set_vel(&mut world, entity, &c, 0, 0);

    world.clear(entity).unwrap();
    assert!(!world.has(entity, e_(c.position)));
    assert!(!world.has(entity, e_(c.velocity)));

    let entity2 = world.entity();
    assert!(entity2 > entity);
}

#[test]
fn entity_get_null_name() {
    let (mut world, _c) = setup();
    let entity = world.entity();
    let name = world.get_name(entity);
    assert_eq!(name, None);
}

#[test]
fn entity_get_target() {
    let (mut world, c) = setup();
    let rel = world.entity();

    let obj1 = world.entity();
    set_pos(&mut world, obj1, &c, 0, 0);
    let obj2 = world.entity();
    set_vel(&mut world, obj2, &c, 0, 0);
    let obj3 = world.entity();
    world.set(obj3, e_(c.mass), Comp::Mass { value: 0 }).unwrap();
    let child = world.entity();
    world.add(child, Id::Pair(rel, obj1)).unwrap();
    world.add(child, Id::Pair(rel, obj2)).unwrap();
    world.add(child, Id::Pair(rel, obj3)).unwrap();

    let mut target = world.target(child, rel, 0).unwrap();
    assert!(world.is_alive(target));
    assert_eq!(target, obj1);

    target = world.target(child, rel, 1).unwrap();
    assert!(world.is_alive(target));
    assert_eq!(target, obj2);

    target = world.target(child, rel, 2).unwrap();
    assert!(world.is_alive(target));
    assert_eq!(target, obj3);

    assert!(world.target(child, rel, 3).is_none());
}

#[test]
fn entity_get_type() {
    let (mut world, c) = setup();
    let entity = world.entity();
    assert!(world.is_alive(entity));

    {
        let type_1 = world.archetype(entity);
        assert_eq!(type_1.len(), 0);
    }

    set_pos(&mut world, entity, &c, 0, 0);

    {
        let type_2 = world.archetype(entity);
        assert_eq!(type_2.len(), 1);
        assert_eq!(type_2[0], e_(c.position));
    }

    set_vel(&mut world, entity, &c, 0, 0);
    let type_3 = world.archetype(entity);
    assert_eq!(type_3.len(), 2);
    assert_eq!(type_3[1], e_(c.velocity));
}

#[test]
fn entity_get_nonempty_type() {
    let (mut world, c) = setup();
    let entity = world.entity();
    set_pos(&mut world, entity, &c, 0, 0);
    assert!(world.is_alive(entity));

    let type_1 = world.archetype(entity);
    assert_eq!(type_1.len(), 1);
    assert_eq!(type_1[0], e_(c.position));

    let type_2 = world.archetype(entity);
    assert_eq!(type_2.len(), 1);
    assert_eq!(type_2[0], e_(c.position));
}

#[test]
fn entity_set_deduced() {
    let (mut world, c) = setup();
    let entity = world.entity();
    set_pos(&mut world, entity, &c, 10, 20);
    assert!(world.has(entity, e_(c.position)));
    assert_eq!(pos(&world, entity, &c), Some((10, 20)));
}

#[test]
fn entity_name() {
    let (mut world, _c) = setup();
    let entity = world.entity_named("Foo");
    assert_eq!(world.name(entity), "Foo");
    assert_eq!(world.get_name(entity), Some("Foo".to_string()));
}

#[test]
fn entity_name_empty() {
    let (mut world, _c) = setup();
    let entity = world.entity();
    assert_eq!(world.name(entity), "");
    assert_eq!(world.get_name(entity), None);
}

#[test]
fn entity_path() {
    let (mut world, _c) = setup();
    let parent = world.entity_named("parent");
    world.set_scope(parent);
    let child = world.entity_named("child");
    assert_eq!(&world.path(child), "::parent::child");
}

#[test]
fn entity_path_from() {
    let (mut world, _c) = setup();
    let parent = world.entity_named("parent");
    world.set_scope(parent);
    let child = world.entity_named("child");
    world.set_scope(child);
    let grandchild = world.entity_named("grandchild");

    assert_eq!(&world.path(grandchild), "::parent::child::grandchild");
    assert_eq!(&world.path_from(grandchild, parent), "child::grandchild");
}

#[test]
fn entity_path_from_type() {
    let (mut world, _c) = setup();
    let parent = world.entity_named("parent");
    world.set_scope(parent);
    let child = world.entity_named("child");
    world.set_scope(child);
    let grandchild = world.entity_named("grandchild");

    assert_eq!(&world.path(grandchild), "::parent::child::grandchild");
    assert_eq!(&world.path_from(grandchild, parent), "child::grandchild");
}

#[test]
fn entity_path_custom_sep() {
    let (mut world, _c) = setup();
    let parent = world.entity_named("parent");
    world.set_scope(parent);
    let child = world.entity_named("child");
    assert_eq!(&world.path_w_sep(child, "_", "?"), "?parent_child");
}

#[test]
fn entity_path_from_custom_sep() {
    let (mut world, _c) = setup();
    let parent = world.entity_named("parent");
    world.set_scope(parent);
    let child = world.entity_named("child");
    world.set_scope(child);
    let grandchild = world.entity_named("grandchild");

    assert_eq!(&world.path_w_sep(grandchild, "_", "?"), "?parent_child_grandchild");
    assert_eq!(&world.path_from_w_sep(grandchild, parent, "_", "::"), "child_grandchild");
}

#[test]
fn entity_implicit_path_to_char() {
    let (mut world, _c) = setup();
    let entity = world.entity_named("Foo::Bar");
    assert!(world.is_alive(entity));
    assert_eq!(world.name(entity), "Bar");
    assert_eq!(world.path(entity), "::Foo::Bar");
}

#[test]
fn entityview_to_entity_to_entity_view() {
    let (mut world, c) = setup();
    let entity = world.entity();
    set_pos(&mut world, entity, &c, 10, 20);
    assert!(world.is_alive(entity));

    let entity_id = entity;
    let entity_view = world.entity_from_id(entity_id);
    assert!(world.is_alive(entity_view));
    assert_eq!(entity, entity_view);
    assert_eq!(pos(&world, entity_view, &c), Some((10, 20)));
}

#[test]
fn entity_entity_view_to_entity_world() {
    let (mut world, c) = setup();
    let entity = world.entity();
    set_pos(&mut world, entity, &c, 10, 20);
    assert!(world.is_alive(entity));
    let entity_view = world.entity_from_id(entity);
    assert!(world.is_alive(entity_view));
    assert_eq!(entity, entity_view);

    set_pos(&mut world, entity_view, &c, 10, 20);

    assert!(world.has(entity_view, e_(c.position)));
    assert_eq!(pos(&world, entity_view, &c), Some((10, 20)));
}

#[test]
fn entity_entity_view_to_entity_stage() {
    let (mut world, c) = setup();
    let entity_view = world.entity();

    world.readonly_begin();

    set_pos(&mut world, entity_view, &c, 10, 20);
    assert!(!world.has(entity_view, e_(c.position)));

    world.readonly_end();

    assert!(world.has(entity_view, e_(c.position)));
    assert_eq!(pos(&world, entity_view, &c), Some((10, 20)));
}

#[test]
fn entity_create_entity_view_from_stage() {
    let (mut world, c) = setup();

    world.readonly_begin();
    let entity_view = world.entity();
    world.readonly_end();

    set_pos(&mut world, entity_view, &c, 10, 20);
    assert!(world.has(entity_view, e_(c.position)));
    assert_eq!(pos(&world, entity_view, &c), Some((10, 20)));
}

#[test]
fn entity_set_template() {
    let (mut world, _c) = setup();
    let template = world.entity_named("Template<Position>");
    let entity = world.entity();
    world.set(entity, e_(template), Comp::Template { x: 10, y: 20 }).unwrap();
    assert_eq!(world.get(entity, e_(template)), Some(Comp::Template { x: 10, y: 20 }));
}

#[test]
fn entity_get_1_component_w_callback() {
    let (mut world, c) = setup();
    let e_1 = world.entity();
    set_pos(&mut world, e_1, &c, 10, 20);
    set_vel(&mut world, e_1, &c, 1, 2);
    let e_2 = world.entity();
    set_pos(&mut world, e_2, &c, 11, 22);
    let e_3 = world.entity();
    set_vel(&mut world, e_3, &c, 1, 2);

    assert_eq!(pos(&world, e_1, &c), Some((10, 20)));
    assert_eq!(pos(&world, e_2, &c), Some((11, 22)));
    assert!(pos(&world, e_3, &c).is_none());
}

#[test]
fn entity_get_2_components_w_callback() {
    let (mut world, c) = setup();
    let e_1 = world.entity();
    set_pos(&mut world, e_1, &c, 10, 20);
    set_vel(&mut world, e_1, &c, 1, 2);
    let e_2 = world.entity();
    set_pos(&mut world, e_2, &c, 11, 22);
    let e_3 = world.entity();
    set_vel(&mut world, e_3, &c, 1, 2);

    assert_eq!(pos(&world, e_1, &c), Some((10, 20)));
    assert_eq!(vel(&world, e_1, &c), Some((1, 2)));
    assert_eq!(pos(&world, e_2, &c), Some((11, 22)));
    assert!(pos(&world, e_3, &c).is_none() || vel(&world, e_3, &c).is_none());
}

#[test]
fn entity_get_mut_1_component_w_callback() {
    let (mut world, c) = setup();
    let e_1 = world.entity();
    set_pos(&mut world, e_1, &c, 10, 20);
    set_vel(&mut world, e_1, &c, 1, 2);
    let e_2 = world.entity();
    set_pos(&mut world, e_2, &c, 11, 22);
    let e_3 = world.entity();
    set_vel(&mut world, e_3, &c, 1, 2);

    let (x, y) = pos(&world, e_1, &c).unwrap();
    assert_eq!((x, y), (10, 20));
    set_pos(&mut world, e_1, &c, x + 1, y + 2);

    let p = pos(&world, e_2, &c);
    assert!(p.is_some());
    let (x, y) = p.unwrap();
    assert_eq!((x, y), (11, 22));
    set_pos(&mut world, e_2, &c, x + 1, y + 2);

    assert!(pos(&world, e_3, &c).is_none());

    assert_eq!(pos(&world, e_1, &c), Some((11, 22)));
    assert_eq!(pos(&world, e_2, &c), Some((12, 24)));
}

#[test]
fn entity_get_mut_2_components_w_callback() {
    let (mut world, c) = setup();
    let e_1 = world.entity();
    set_pos(&mut world, e_1, &c, 10, 20);
    set_vel(&mut world, e_1, &c, 1, 2);
    let e_2 = world.entity();
    set_pos(&mut world, e_2, &c, 11, 22);
    let e_3 = world.entity();
    set_vel(&mut world, e_3, &c, 1, 2);

    let (px, py) = pos(&world, e_1, &c).unwrap();
    let (vx, vy) = vel(&world, e_1, &c).unwrap();
    assert_eq!((px, py, vx, vy), (10, 20, 1, 2));
    set_pos(&mut world, e_1, &c, px + 1, py + 2);
    set_vel(&mut world, e_1, &c, vx + 1, vy + 2);

    let p = pos(&world, e_2, &c);
    let v = vel(&world, e_2, &c);
    assert!(p.is_some());
    assert!(v.is_none());
    let (px, py) = p.unwrap();
    assert_eq!((px, py), (11, 22));
    set_pos(&mut world, e_2, &c, px + 1, py + 2);

    assert!(pos(&world, e_3, &c).is_none());

    assert_eq!(pos(&world, e_1, &c), Some((11, 22)));
    assert_eq!(vel(&world, e_1, &c), Some((2, 4)));
    assert_eq!(pos(&world, e_2, &c), Some((12, 24)));
}

#[test]
fn entity_get_component_w_callback_nested() {
    let (mut world, c) = setup();
    let e = world.entity();
    set_pos(&mut world, e, &c, 10, 20);
    set_vel(&mut world, e, &c, 1, 2);

    let p = pos(&world, e, &c);
    assert!(p.is_some());
    assert_eq!(p, Some((10, 20)));
    let v = vel(&world, e, &c);
    assert!(v.is_some());
    assert_eq!(v, Some((1, 2)));
}

#[test]
fn entity_get_mut_component_w_callback_nested() {
    let (mut world, c) = setup();
    let e = world.entity();
    set_pos(&mut world, e, &c, 10, 20);
    set_vel(&mut world, e, &c, 1, 2);

    let p = pos(&world, e, &c);
    assert!(p.is_some());
    assert_eq!(p, Some((10, 20)));
    let v = vel(&world, e, &c);
    assert!(v.is_some());
    assert_eq!(v, Some((1, 2)));
}

#[test]
fn entity_defer_set_1_component() {
    let (mut world, c) = setup();
    world.defer_begin();

    let e = world.entity();
    set_pos(&mut world, e, &c, 10, 20);

    assert!(!world.has(e, e_(c.position)));

    world.defer_end();

    assert!(world.has(e, e_(c.position)));
    assert_eq!(pos(&world, e, &c), Some((10, 20)));
}

#[test]
fn entity_defer_set_2_components() {
    let (mut world, c) = setup();
    world.defer_begin();

    let e = world.entity();
    set_pos(&mut world, e, &c, 10, 20);
    set_vel(&mut world, e, &c, 1, 2);

    assert!(!world.has(e, e_(c.position)));
    assert!(!world.has(e, e_(c.velocity)));

    world.defer_end();

    assert!(world.has(e, e_(c.position)));
    assert!(world.has(e, e_(c.velocity)));
    assert_eq!(vel(&world, e, &c), Some((1, 2)));
    assert_eq!(pos(&world, e, &c), Some((10, 20)));
}

#[test]
fn entity_defer_set_3_components() {
    let (mut world, c) = setup();
    world.defer_begin();

    let e = world.entity();
    set_pos(&mut world, e, &c, 10, 20);
    set_vel(&mut world, e, &c, 1, 2);
    world.set(e, e_(c.mass), Comp::Mass { value: 50 }).unwrap();

    assert!(!world.has(e, e_(c.position)));
    assert!(!world.has(e, e_(c.velocity)));
    assert!(!world.has(e, e_(c.mass)));

    world.defer_end();

    assert!(world.has(e, e_(c.position)));
    assert!(world.has(e, e_(c.velocity)));
    assert!(world.has(e, e_(c.mass)));

    assert_eq!(pos(&world, e, &c), Some((10, 20)));
    assert_eq!(vel(&world, e, &c), Some((1, 2)));
    assert_eq!(world.get(e, e_(c.mass)), Some(Comp::Mass { value: 50 }));
}

#[test]
fn entity_set_2_after_set_1() {
    let (mut world, c) = setup();
    let e = world.entity();
    set_pos(&mut world, e, &c, 5, 10);
    assert!(world.has(e, e_(c.position)));
    assert_eq!(pos(&world, e, &c), Some((5, 10)));

    set_pos(&mut world, e, &c, 10, 20);
    set_vel(&mut world, e, &c, 1, 2);

    assert_eq!(pos(&world, e, &c), Some((10, 20)));
    assert_eq!(vel(&world, e, &c), Some((1, 2)));
}

#[test]
fn entity_set_2_after_set_2() {
    let (mut world, c) = setup();
    let e = world.entity();
    set_pos(&mut world, e, &c, 5, 10);
    set_vel(&mut world, e, &c, 1, 2);

    assert!(world.has(e, e_(c.position)));
    assert!(world.has(e, e_(c.velocity)));
    assert_eq!(pos(&world, e, &c), Some((5, 10)));
    assert_eq!(vel(&world, e, &c), Some((1, 2)));

    set_pos(&mut world, e, &c, 10, 20);
    set_vel(&mut world, e, &c, 3, 4);

    assert_eq!(pos(&world, e, &c), Some((10, 20)));
    assert_eq!(vel(&world, e, &c), Some((3, 4)));
}

#[test]
fn entity_with_self_w_name() {
    let (mut world, c) = setup();
    let tier1 = world.entity_named("Tier1");
    let prev = world.set_with(Some(e_(tier1)));
    let tier2 = world.entity_named("Tier2");
    world.set(tier2, e_(c.self_ref), Comp::SelfRef { value: tier2 }).unwrap();
    world.set_with(prev);

    let tier2 = world.lookup_recursive("Tier2");
    assert!(tier2.is_some());
    let tier2 = tier2.unwrap();
    assert!(world.has(tier2, e_(tier1)));
}

#[test]
fn entity_with_self_nested() {
    let (mut world, _c) = setup();
    let tier1 = world.entity_named("Tier1");
    let prev = world.set_with(Some(e_(tier1)));
    let tier2 = world.entity_named("Tier2");
    let inner = world.set_with(Some(e_(tier2)));
    world.entity_named("Tier3");
    world.set_with(inner);
    world.set_with(prev);

    let tier2 = world.lookup_recursive("Tier2").unwrap();
    let tier3 = world.lookup_recursive("Tier3").unwrap();

    assert!(world.has(tier2, e_(tier1)));
    assert!(world.has(tier3, e_(tier2)));
}

#[test]
fn entity_no_recursive_lookup() {
    let (mut world, _c) = setup();
    let p = world.entity_named("P");
    let c = world.entity_named("C");
    world.child_of(c, p).unwrap();
    let gc = world.entity_named("GC");
    world.child_of(gc, c).unwrap();

    assert_eq!(world.lookup(c, "GC"), Some(gc));
    assert!(world.lookup(c, "C").is_none());
    assert!(world.lookup(c, "P").is_none());
}

#[test]
fn entity_defer_new_w_with() {
    let (mut world, _c) = setup();
    let mut e = world.entity_null();
    let tag = world.entity();

    world.defer_begin();
    let prev = world.set_with(Some(e_(tag)));
    e = {
        let _ = e;
        world.entity()
    };
    assert!(world.is_alive(e));
    assert!(!world.has(e, e_(tag)));
    world.set_with(prev);
    world.defer_end();

    assert!(world.has(e, e_(tag)));
}

#[test]
fn entity_defer_w_with_implicit_component() {
    let (mut world, c) = setup();
    let mut e = world.entity_null();

    world.defer_begin();
    let prev = world.set_with(Some(e_(c.tag)));
    e = {
        let _ = e;
        world.entity()
    };
    assert!(!world.has(e, e_(c.tag)));
    world.set_with(prev);
    assert!(!world.has(e, e_(c.tag)));
    world.defer_end();

    assert!(world.has(e, e_(c.tag)));
}

#[test]
fn entity_defer_suspend_resume() {
    let (mut world, c) = setup();
    let e = world.entity();

    world.defer_begin();
    set_pos(&mut world, e, &c, 10, 20);
    assert!(!world.has(e, e_(c.position)));

    world.defer_suspend();
    set_vel(&mut world, e, &c, 1, 2);
    assert!(!world.has(e, e_(c.position)));
    assert!(world.has(e, e_(c.velocity)));
    world.defer_resume();

    assert!(!world.has(e, e_(c.position)));
    assert!(world.has(e, e_(c.velocity)));
    world.defer_end();

    assert!(world.has(e, e_(c.position)));
    assert!(world.has(e, e_(c.velocity)));
}

#[test]
fn entity_scope_after_builder_method() {
    let (mut world, c) = setup();
    let p = world.entity_named("P");
    set_pos(&mut world, p, &c, 10, 20);
    let prev = world.set_scope(p);
    world.entity_named("C");
    world.set_scope(prev);

    let found = world.lookup_recursive("P::C");
    assert!(found.is_some());
    assert!(world.is_alive(found.unwrap()));
}

#[test]
fn entity_scope_before_builder_method() {
    let (mut world, c) = setup();
    let p = world.entity_named("P");
    let prev = world.set_scope(p);
    world.entity_named("C");
    world.set_scope(prev);
    set_pos(&mut world, p, &c, 10, 20);

    let found = world.lookup_recursive("P::C");
    assert!(found.is_some());
    assert!(world.is_alive(found.unwrap()));
}

#[test]
fn entity_insert() {
    let (mut world, c) = setup();
    let e = world.entity();
    set_pos(&mut world, e, &c, 10, 20);
    assert!(world.has(e, e_(c.position)));
    assert_eq!(pos(&world, e, &c), Some((10, 20)));
}

#[test]
fn entity_entity_id_str() {
    let (mut world, _c) = setup();
    let id = world.entity_named("Foo");
    assert_eq!(world.id_str(e_(id)), "Foo");
}

#[test]
fn entity_pair_id_str() {
    let (mut world, _c) = setup();
    let id = Id::Pair(world.entity_named("Rel"), world.entity_named("Obj"));
    assert_eq!(world.id_str(id), "(Rel,Obj)");
}

#[test]
fn entity_id_str_from_entity_view() {
    let (mut world, _c) = setup();
    let id = world.entity_named("Foo");
    assert_eq!(world.id_str(e_(id)), "Foo");
}

#[test]
fn entity_id_str_from_entity() {
    let (mut world, _c) = setup();
    let id = world.entity_named("Foo");
    assert_eq!(world.id_str(e_(id)), "Foo");
}

#[test]
fn entity_null_entity_w_world() {
    let (world, _c) = setup();
    let e = world.entity_null();
    assert_eq!(e, 0);
}

#[test]
fn entity_has_id_t() {
    let (mut world, _c) = setup();
    let id_1 = world.entity();
    let id_2 = world.entity();
    let e = world.entity();
    world.add(e, e_(id_1)).unwrap();
    assert!(world.has(e, e_(id_1)));
    assert!(!world.has(e, e_(id_2)));
}

#[test]
fn entity_has_pair_id_t() {
    let (mut world, _c) = setup();
    let id_1 = world.entity();
    let id_2 = world.entity();
    let id_3 = world.entity();
    let e = world.entity();
    world.add(e, Id::Pair(id_1, id_2)).unwrap();
    assert!(world.has(e, Id::Pair(id_1, id_2)));
    assert!(!world.has(e, Id::Pair(id_1, id_3)));
}

#[test]
fn entity_has_pair_id_t_w_type() {
    let (mut world, c) = setup();
    let id_2 = world.entity();
    let id_3 = world.entity();
    let e = world.entity();
    world.add(e, Id::Pair(c.rel, id_2)).unwrap();
    assert!(world.has(e, Id::Pair(c.rel, id_2)));
    assert!(!world.has(e, Id::Pair(c.rel, id_3)));
}

#[test]
fn entity_has_id() {
    let (mut world, _c) = setup();
    let id_1 = world.entity();
    let id_2 = world.entity();
    let e = world.entity();
    world.add(e, e_(id_1)).unwrap();
    assert!(world.has(e, e_(id_1)));
    assert!(!world.has(e, e_(id_2)));
}

#[test]
fn entity_has_pair_id() {
    let (mut world, _c) = setup();
    let id_1 = world.entity();
    let id_2 = world.entity();
    let id_3 = world.entity();
    let e = world.entity();
    world.add(e, Id::Pair(id_1, id_2)).unwrap();
    assert!(world.has(e, Id::Pair(id_1, id_2)));
    assert!(!world.has(e, Id::Pair(id_1, id_3)));
}

#[test]
fn entity_has_pair_id_w_type() {
    let (mut world, c) = setup();
    let id_2 = world.entity();
    let id_3 = world.entity();
    let e = world.entity();
    world.add(e, Id::Pair(c.rel, id_2)).unwrap();
    assert!(world.has(e, Id::Pair(c.rel, id_2)));
    assert!(!world.has(e, Id::Pair(c.rel, id_3)));
}

#[test]
fn entity_owns_t() {
    let (mut world, _c) = setup();
    let id_1 = world.entity();
    let id_2 = world.entity();
    let e = world.entity();
    world.add(e, e_(id_1)).unwrap();
    assert!(world.owns(e, e_(id_1)));
    assert!(!world.owns(e, e_(id_2)));
}

#[test]
fn entity_owns_pair_id_t() {
    let (mut world, _c) = setup();
    let id_1 = world.entity();
    let id_2 = world.entity();
    let id_3 = world.entity();
    let e = world.entity();
    world.add(e, Id::Pair(id_1, id_2)).unwrap();
    assert!(world.owns(e, Id::Pair(id_1, id_2)));
    assert!(!world.owns(e, Id::Pair(id_1, id_3)));
}

#[test]
fn entity_owns_pair_id_t_w_type() {
    let (mut world, c) = setup();
    let id_2 = world.entity();
    let id_3 = world.entity();
    let e = world.entity();
    world.add(e, Id::Pair(c.rel, id_2)).unwrap();
    assert!(world.owns(e, Id::Pair(c.rel, id_2)));
    assert!(!world.owns(e, Id::Pair(c.rel, id_3)));
}

#[test]
fn entity_owns() {
    let (mut world, _c) = setup();
    let id_1 = world.entity();
    let id_2 = world.entity();
    let e = world.entity();
    world.add(e, e_(id_1)).unwrap();
    assert!(world.owns(e, e_(id_1)));
    assert!(!world.owns(e, e_(id_2)));
}

#[test]
fn entity_owns_pair_id() {
    let (mut world, _c) = setup();
    let id_1 = world.entity();
    let id_2 = world.entity();
    let id_3 = world.entity();
    let e = world.entity();
    world.add(e, Id::Pair(id_1, id_2)).unwrap();
    assert!(world.owns(e, Id::Pair(id_1, id_2)));
    assert!(!world.owns(e, Id::Pair(id_1, id_3)));
}

#[test]
fn entity_owns_pair_id_w_type() {
    let (mut world, c) = setup();
    let id_2 = world.entity();
    let id_3 = world.entity();
    let e = world.entity();
    world.add(e, Id::Pair(c.rel, id_2)).unwrap();
    assert!(world.owns(e, Id::Pair(c.rel, id_2)));
    assert!(!world.owns(e, Id::Pair(c.rel, id_3)));
}

#[test]
fn entity_id_get_entity() {
    let (mut world, _c) = setup();
    let e = world.entity();
    let id = e_(e);
    assert_eq!(id.first(), e);
}

#[test]
fn entity_id_get_invalid_entity() {
    let (mut world, _c) = setup();
    let r = world.entity();
    let o = world.entity();
    let id = Id::Pair(r, o);
    assert!(!world.is_valid_id(id));
}

#[test]
fn entity_each_in_stage() {
    let (mut world, c) = setup();
    let e = world.entity();
    world.add(e, Id::Pair(c.rel, c.obj)).unwrap();
    assert!(world.has(e, Id::Pair(c.rel, c.obj)));

    world.readonly_begin();

    assert!(world.has(e, Id::Pair(c.rel, c.obj)));
    let mut count = 0;
    for obj in world.each_target(e, c.rel) {
        count += 1;
        assert_eq!(obj, c.obj);
    }
    assert_eq!(count, 1);

    world.readonly_end();
}

#[test]
fn entity_iter_recycled_parent() {
    let (mut world, _c) = setup();
    let e = world.entity();
    world.destruct(e).unwrap();

    let e2 = world.entity();
    assert_ne!(e, e2);
    assert_eq!(e as u32, e2 as u32);

    let e_child = world.entity();
    world.child_of(e_child, e2).unwrap();
    let mut count = 0;
    for child in world.each_child(e2) {
        count += 1;
        assert_eq!(child, e_child);
    }
    assert_eq!(count, 1);
}

#[test]
fn entity_get_obj_by_template() {
    let (mut world, c) = setup();
    let e1 = world.entity();
    let o1 = world.entity();
    let o2 = world.entity();

    world.add(e1, Id::Pair(c.rel, o1)).unwrap();
    world.add(e1, Id::Pair(c.rel, o2)).unwrap();

    assert_eq!(o1, world.target(e1, c.rel, 0).unwrap());
    assert_eq!(o2, world.target(e1, c.rel, 1).unwrap());
}

#[test]
fn entity_create_named_twice_deferred() {
    let (mut world, _c) = setup();
    world.defer_begin();

    let e1 = world.entity_named("e");
    let e2 = world.entity_named("e");

    let f1 = world.entity_named("p::f");
    let f2 = world.entity_named("p::f");

    let q = world.entity_named("q");
    let prev = world.set_scope(q);
    world.entity_named("g");
    world.set_scope(prev);

    world.defer_end();

    assert_eq!(world.path(e1), "::e");
    assert_eq!(world.path(f1), "::p::f");
    assert!(world.lookup_recursive("::q::g").is_some());

    assert_eq!(e1, e2);
    assert_eq!(f1, f2);
}

#[test]
fn entity_clone() {
    let (mut world, c) = setup();
    let src = world.entity();
    world.add(src, e_(c.tag)).unwrap();
    set_pos(&mut world, src, &c, 10, 20);
    let dst = world.duplicate(src);
    assert!(world.has(dst, e_(c.tag)));
    assert!(world.has(dst, e_(c.position)));
    assert_eq!(pos(&world, dst, &c), Some((10, 20)));
}

#[test]
fn entity_clone_w_value() {
    let (mut world, c) = setup();
    let src = world.entity();
    world.add(src, e_(c.tag)).unwrap();
    set_pos(&mut world, src, &c, 10, 20);
    let dst = world.duplicate(src);
    assert!(world.has(dst, e_(c.tag)));
    assert!(world.has(dst, e_(c.position)));
    assert_eq!(pos(&world, dst, &c), Some((10, 20)));
}

#[test]
fn entity_clone_to_existing() {
    let (mut world, c) = setup();
    let src = world.entity();
    world.add(src, e_(c.tag)).unwrap();
    set_pos(&mut world, src, &c, 10, 20);
    let dst = world.entity();
    let result = world.duplicate_into(src, dst);
    assert_eq!(result, dst);

    assert!(world.has(dst, e_(c.tag)));
    assert!(world.has(dst, e_(c.position)));
    assert_eq!(pos(&world, dst, &c), Some((10, 20)));
}

#[test]
fn entity_entity_w_root_name() {
    let (mut world, _c) = setup();
    let e = world.entity_named("::foo");
    assert_eq!(world.name(e), "foo");
    assert_eq!(world.path(e), "::foo");
}

#[test]
fn entity_entity_w_root_name_from_scope() {
    let (mut world, _c) = setup();
    let p = world.entity_named("parent");
    world.set_scope(p);
    let e = world.entity_named("::foo");
    world.set_scope(0);

    assert_eq!(world.name(e), "foo");
    assert_eq!(world.path(e), "::foo");
}

#[test]
fn entity_entity_w_type() {
    let (mut world, _c) = setup();
    let e = world.entity_named("flecs::common_test::EntityType");

    assert_eq!(world.name(e), "EntityType");
    assert_eq!(world.path(e), "::flecs::common_test::EntityType");
    let e_2 = world.entity_named("flecs::common_test::EntityType");
    assert_eq!(e, e_2);
}

#[test]
fn entity_entity_array() {
    let (mut world, _c) = setup();
    let tag_a = world.entity_named("TagA");
    let tag_b = world.entity_named("TagB");

    let entities = [world.entity(), world.entity(), world.entity()];

    for e in entities.iter() {
        world.add(*e, e_(tag_a)).unwrap();
        world.add(*e, e_(tag_b)).unwrap();
    }

    assert_eq!(world.count(e_(tag_a)), 3);
    assert_eq!(world.count(e_(tag_b)), 3);
}

#[test]
fn entity_add_if_true_t() {
    let (mut world, c) = setup();
    let e = world.entity();
    world.add_if(e, e_(c.tag), true).unwrap();
    assert!(world.has(e, e_(c.tag)));
}

#[test]
fn entity_add_if_false_t() {
    let (mut world, c) = setup();
    let e = world.entity();

    world.add_if(e, e_(c.tag), false).unwrap();
    assert!(!world.has(e, e_(c.tag)));

    world.add(e, e_(c.tag)).unwrap();
    assert!(world.has(e, e_(c.tag)));
    world.add_if(e, e_(c.tag), false).unwrap();
    assert!(!world.has(e, e_(c.tag)));
}

#[test]
fn entity_add_if_true_id() {
    let (mut world, _c) = setup();
    let e = world.entity();
    let t = world.entity();
    world.add_if(e, e_(t), true).unwrap();
    assert!(world.has(e, e_(t)));
}

#[test]
fn entity_add_if_false_id() {
    let (mut world, _c) = setup();
    let e = world.entity();
    let t = world.entity();

    world.add_if(e, e_(t), false).unwrap();
    assert!(!world.has(e, e_(t)));

    world.add(e, e_(t)).unwrap();
    assert!(world.has(e, e_(t)));
    world.add_if(e, e_(t), false).unwrap();
    assert!(!world.has(e, e_(t)));
}

#[test]
fn entity_add_if_true_r_o() {
    let (mut world, c) = setup();
    let e = world.entity();
    world.add_if(e, Id::Pair(c.rel, c.obj), true).unwrap();
    assert!(world.has(e, Id::Pair(c.rel, c.obj)));
}

#[test]
fn entity_add_if_false_r_o() {
    let (mut world, c) = setup();
    let e = world.entity();
    world.add_if(e, Id::Pair(c.rel, c.obj2), false).unwrap();
    assert!(!world.has(e, Id::Pair(c.rel, c.obj2)));
    world.add(e, Id::Pair(c.rel, c.obj2)).unwrap();
    assert!(world.has(e, Id::Pair(c.rel, c.obj2)));
    world.add_if(e, Id::Pair(c.rel, c.obj2), false).unwrap();
    assert!(!world.has(e, Id::Pair(c.rel, c.obj2)));
}

#[test]
fn entity_add_if_true_r_o_2() {
    let (mut world, c) = setup();
    let e = world.entity();
    let o = world.entity();
    world.add_if(e, Id::Pair(c.rel, o), true).unwrap();
    assert!(world.has(e, Id::Pair(c.rel, o)));
}

#[test]
fn entity_add_if_false_r_o_2() {
    let (mut world, c) = setup();
    let e = world.entity();
    let o = world.entity();

    world.add_if(e, Id::Pair(c.rel, o), false).unwrap();
    assert!(!world.has(e, Id::Pair(c.rel, o)));
    world.add(e, Id::Pair(c.rel, o)).unwrap();
    assert!(world.has(e, Id::Pair(c.rel, o)));
    world.add_if(e, Id::Pair(c.rel, o), false).unwrap();
    assert!(!world.has(e, Id::Pair(c.rel, o)));
}

#[test]
fn entity_add_if_true_r_o_3() {
    let (mut world, _c) = setup();
    let e = world.entity();
    let r = world.entity();
    let o = world.entity();
    world.add_if(e, Id::Pair(r, o), true).unwrap();
    assert!(world.has(e, Id::Pair(r, o)));
}

#[test]
fn entity_add_if_false_r_o_3() {
    let (mut world, _c) = setup();
    let e = world.entity();
    let r = world.entity();
    let o = world.entity();

    world.add_if(e, Id::Pair(r, o), false).unwrap();
    assert!(!world.has(e, Id::Pair(r, o)));
    world.add(e, Id::Pair(r, o)).unwrap();
    assert!(world.has(e, Id::Pair(r, o)));
    world.add_if(e, Id::Pair(r, o), false).unwrap();
    assert!(!world.has(e, Id::Pair(r, o)));
}

#[test]
fn entity_children_w_custom_relation() {
    let (mut world, _c) = setup();
    let rel = world.entity();

    let parent = world.entity();
    let child_1 = world.entity();
    world.add(child_1, Id::Pair(rel, parent)).unwrap();
    let child_2 = world.entity();
    world.add(child_2, Id::Pair(rel, parent)).unwrap();
    let other = world.entity();
    world.child_of(other, parent).unwrap();

    let mut child_1_found = false;
    let mut child_2_found = false;
    let mut count = 0;

    for child in world.each_child_of(parent, rel) {
        if child == child_1 {
            child_1_found = true;
        } else if child == child_2 {
            child_2_found = true;
        }
        count += 1;
    }

    assert_eq!(count, 2);
    assert!(child_1_found);
    assert!(child_2_found);
}

#[test]
fn entity_children_w_custom_relation_type() {
    let (mut world, c) = setup();
    let parent = world.entity();
    let child_1 = world.entity();
    world.add(child_1, Id::Pair(c.rel, parent)).unwrap();
    let child_2 = world.entity();
    world.add(child_2, Id::Pair(c.rel, parent)).unwrap();
    let other = world.entity();
    world.child_of(other, parent).unwrap();

    let mut child_1_found = false;
    let mut child_2_found = false;
    let mut count = 0;

    for child in world.each_child_of(parent, c.rel) {
        if child == child_1 {
            child_1_found = true;
        } else if child == child_2 {
            child_2_found = true;
        }
        count += 1;
    }

    assert_eq!(count, 2);
    assert!(child_1_found);
    assert!(child_2_found);
}

#[test]
fn entity_set_alias() {
    let (mut world, _c) = setup();
    let e = world.entity_named("parent::child");
    world.set_alias(e, "parent_child");

    assert_eq!(Some(e), world.lookup_recursive("parent::child"));
    assert_eq!(Some(e), world.lookup_recursive("parent_child"));
}

#[test]
fn entity_iter_type() {
    let (mut world, c) = setup();
    let e = world.entity();
    world.add(e, e_(c.position)).unwrap();
    world.add(e, e_(c.velocity)).unwrap();

    let mut count = 0;
    let mut pos_found = false;
    let mut velocity_found = false;

    for id in world.archetype(e).iter() {
        count += 1;
        if *id == e_(c.position) {
            pos_found = true;
        }
        if *id == e_(c.velocity) {
            velocity_found = true;
        }
    }

    assert_eq!(count, 2);
    assert!(pos_found);
    assert!(velocity_found);
}

#[test]
fn entity_iter_empty_type() {
    let (mut world, _c) = setup();
    let e = world.entity();
    let mut count = 0;
    for _id in world.archetype(e).iter() {
        count += 1;
    }
    assert_eq!(count, 0);
}

#[test]
fn entity_child_of_is_a_parent_not_a_pair() {
    let (mut world, _c) = setup();
    let parent = world.entity();
    let child = world.entity();
    world.child_of(child, parent).unwrap();
    assert_eq!(world.parent(child), parent);
    assert!(!world.has(child, Id::Pair(CHILD_OF, parent)));
}

#[test]
fn entity_children_from_root_world() {
    let world: World<Comp> = World::new();

    let mut count = 0;
    for e in world.each_child(0) {
        assert_eq!(world.name(e), "flecs");
        count += 1;
    }
    assert_eq!(count, 1);
}
