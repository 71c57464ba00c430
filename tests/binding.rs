use flecs_ecs::batch::{Column, ComponentFieldPointers, ComponentsFieldData, FieldsTuple, IterRecord};
use flecs_ecs::builder::{BuildError, CacheKind, InOut, Oper, QueryBuilder, SrcKind};
use flecs_ecs::defer::DeferState;
use flecs_ecs::field::{AccessMode, Cell, FieldSpec};
use flecs_ecs::group::{GroupEvent, GroupRegistry, group_by_default, group_order, group_visit_order, set_group};
use flecs_ecs::ids::{Id, ON_ADD};
use flecs_ecs::meta::{MetaDesc, PrimitiveKind, UntypedComponent};
use flecs_ecs::naming::split_segments;
use flecs_ecs::doc::DocKind;
use flecs_ecs::observer::{ObserverBuilder, ObserverDesc};
use flecs_ecs::query::{rows_in_key_order, rows_of_batch, track_batches};
use flecs_ecs::world::World;

fn field(id: u64, mode: AccessMode) -> FieldSpec {
    FieldSpec::new(Id::Entity(id), mode)
}

fn batch(columns: Vec<Column<i64>>, sources: Vec<u64>, ref_fields: u32, row_fields: u32, count: usize) -> IterRecord<i64> {
    IterRecord {
        count,
        entities: (0..count as u64).map(|k| 100 + k).collect(),
        columns,
        sources,
        ref_fields,
        up_fields: 0,
        row_fields,
        group_id: 0,
    }
}

#[test]
fn field_count_counts_declared_and_added_terms() {
    let fields = FieldsTuple::new(vec![
        field(20, AccessMode::ReadOwned),
        field(21, AccessMode::WriteOwned),
        field(22, AccessMode::ReadOptional),
    ]);
    let q = QueryBuilder::new(&fields)
        .with(Id::Entity(23))
        .without(Id::Pair(24, 25))
        .build()
        .unwrap();
    assert_eq!(q.field_count(), 5);
    assert_eq!(q.term(3).unwrap().oper, Oper::And);
    assert_eq!(q.term(4).unwrap().oper, Oper::Not);
    assert_eq!(q.term(4).unwrap().second, 25);
    assert!(q.term(5).is_none());
}

#[test]
fn field_count_of_thirty_two_fields() {
    let mut v = Vec::new();
    for k in 0..32u64 {
        v.push(field(100 + k, AccessMode::ReadOwned));
    }
    let fields = FieldsTuple::new(v);
    assert_eq!(fields.count(), 32);
    let q = QueryBuilder::new(&fields).build().unwrap();
    assert_eq!(q.field_count(), 32);
}

#[test]
fn declared_fields_become_terms() {
    let fields = FieldsTuple::new(vec![
        field(20, AccessMode::ReadOwned),
        field(21, AccessMode::WriteOptional),
    ]);
    let b = QueryBuilder::new(&fields);
    assert_eq!(b.terms[0].oper, Oper::And);
    assert_eq!(b.terms[0].inout, InOut::In);
    assert_eq!(b.terms[1].oper, Oper::Optional);
    assert_eq!(b.terms[1].inout, InOut::InOutBoth);
    assert_eq!(b.typed_count, 2);
}

#[test]
fn term_modifiers_apply_to_the_current_term() {
    let fields = FieldsTuple::new(vec![field(20, AccessMode::ReadOwned), field(21, AccessMode::ReadOwned)]);
    let q = QueryBuilder::new(&fields)
        .term_at(0)
        .singleton()
        .term_at(1)
        .or()
        .with(Id::Entity(30))
        .up(5)
        .optional()
        .with(Id::Entity(31))
        .second(9)
        .set_inout(InOut::Filter)
        .with(Id::Entity(32))
        .cascade(1, true)
        .set_cache_kind(CacheKind::Auto)
        .group_by(7)
        .desc()
        .build()
        .unwrap();
    assert_eq!(q.term(0).unwrap().src, SrcKind::Singleton);
    assert_eq!(q.term(1).unwrap().oper, Oper::Or);
    assert_eq!(q.term(2).unwrap().src, SrcKind::Up(5));
    assert_eq!(q.term(2).unwrap().oper, Oper::Optional);
    assert_eq!(q.term(3).unwrap().second, 9);
    assert_eq!(q.term(3).unwrap().inout, InOut::Filter);
    assert!(q.term(4).unwrap().cascade);
    assert!(q.term(4).unwrap().desc);
    assert_eq!(q.cache_kind, CacheKind::Auto);
    assert_eq!(q.group_by, Some(7));
    assert!(q.order_desc);
}

#[test]
fn variables_are_found_by_name() {
    let fields = FieldsTuple::new(vec![field(20, AccessMode::ReadOwned)]);
    let q = QueryBuilder::new(&fields)
        .set_var("x")
        .with(Id::Entity(21))
        .set_var("y")
        .with(Id::Entity(22))
        .set_var("x")
        .build()
        .unwrap();
    assert_eq!(q.find_var("x"), Some(0));
    assert_eq!(q.find_var("y"), Some(1));
    assert_eq!(q.find_var("z"), None);
    assert_eq!(q.term(2).unwrap().src, SrcKind::Var(0));
}

#[test]
fn build_fails_on_uninitialized_term() {
    let fields = FieldsTuple::new(vec![field(20, AccessMode::ReadOwned)]);
    let r = QueryBuilder::new(&fields).term_at(3).with(Id::Entity(21)).build();
    assert_eq!(r.err(), Some(BuildError::UninitializedTerm(1)));
}

#[test]
fn build_fails_on_pair_field_without_data() {
    let fields = FieldsTuple::new(vec![
        field(20, AccessMode::ReadOwned),
        FieldSpec::tag(Id::Pair(30, 31), AccessMode::ReadOwned),
    ]);
    assert!(fields.contains_any_tag_term());
    let r = QueryBuilder::new(&fields).build();
    assert_eq!(r.err(), Some(BuildError::InvalidOperation(1)));
}

#[test]
fn tag_field_that_is_not_a_pair_builds() {
    let fields = FieldsTuple::new(vec![FieldSpec::tag(Id::Entity(30), AccessMode::ReadOwned)]);
    assert!(QueryBuilder::new(&fields).build().is_ok());
}

#[test]
fn plain_batch_reads_each_row_at_its_offset() {
    let fields = FieldsTuple::new(vec![field(20, AccessMode::ReadOwned), field(21, AccessMode::WriteOwned)]);
    let it = batch(
        vec![Column::Array(vec![1, 2, 3]), Column::Array(vec![10, 20, 30])],
        vec![0, 0],
        0,
        0,
        3,
    );
    let rows = rows_of_batch(&fields, &it);
    assert_eq!(rows.len(), 3);
    assert_eq!(rows[1].entity, 101);
    assert_eq!(rows[1].values, vec![Some(2), Some(20)]);
    assert_eq!(rows[2].values, vec![Some(3), Some(30)]);
}

#[test]
fn plain_batch_write_then_read_same_row() {
    let fields = FieldsTuple::new(vec![field(20, AccessMode::WriteOwned)]);
    let mut it = batch(vec![Column::Array(vec![1, 2, 3])], vec![0], 0, 0, 3);
    if let Column::Array(v) = &mut it.columns[0] {
        v[1] = 42;
    }
    let mut data = ComponentsFieldData::new(&fields, &it);
    let cells = data.get_tuple(&fields, &it, 1);
    assert_eq!(cells[0], Cell::At { column: 0, offset: 1 });
    assert_eq!(it.get(cells[0]), Some(&42));
}

#[test]
fn broadcast_field_yields_the_same_value_on_every_row() {
    let fields = FieldsTuple::new(vec![field(20, AccessMode::ReadOwned), field(21, AccessMode::ReadOwned)]);
    let it = batch(
        vec![Column::Array(vec![1, 2, 3]), Column::Array(vec![77])],
        vec![0, 555],
        0b10,
        0,
        3,
    );
    let mut data = ComponentsFieldData::new(&fields, &it);
    assert!(data.is_any_array.a_ref);
    assert!(!data.is_any_array.a_row);
    assert_eq!(data.is_ref_array_components, vec![false, true]);
    let rows = rows_of_batch(&fields, &it);
    for (k, row) in rows.iter().enumerate() {
        assert_eq!(row.values[0], Some(k as i64 + 1));
        assert_eq!(row.values[1], Some(77));
    }
    assert_eq!(data.get_tuple(&fields, &it, 2)[1], Cell::At { column: 1, offset: 0 });
}

#[test]
fn row_fetched_field_is_read_per_row() {
    let fields = FieldsTuple::new(vec![field(20, AccessMode::ReadOwned), field(21, AccessMode::ReadOwned)]);
    let it = batch(
        vec![Column::Array(vec![1, 2]), Column::Array(vec![5, 6])],
        vec![0, 0],
        0b10,
        0b10,
        2,
    );
    let mut data = ComponentsFieldData::new(&fields, &it);
    assert!(data.is_any_array.a_row);
    assert_eq!(data.is_row_array_components, vec![false, true]);
    assert_eq!(data.index_array_components, vec![0, 1]);
    let cells = data.get_tuple(&fields, &it, 1);
    assert_eq!(cells, vec![Cell::At { column: 0, offset: 1 }, Cell::At { column: 1, offset: 1 }]);
    let rows = rows_of_batch(&fields, &it);
    assert_eq!(rows[0].values, vec![Some(1), Some(5)]);
    assert_eq!(rows[1].values, vec![Some(2), Some(6)]);
}

#[test]
fn optional_field_without_column_is_absent() {
    let fields = FieldsTuple::new(vec![field(20, AccessMode::ReadOwned), field(21, AccessMode::ReadOptional)]);
    let it = batch(vec![Column::Array(vec![1, 2]), Column::Null], vec![0, 0], 0, 0, 2);
    let rows = rows_of_batch(&fields, &it);
    assert_eq!(rows[0].values, vec![Some(1), None]);
    assert_eq!(rows[1].values, vec![Some(2), None]);
}

#[test]
fn optional_fields_report_absence_per_entity() {
    let mut world: World<i64> = World::new();
    let x = world.entity_named("X");
    let y = world.entity_named("Y");
    let with_y = world.entity();
    world.set(with_y, Id::Entity(x), 1).unwrap();
    world.set(with_y, Id::Entity(y), 2).unwrap();
    let without_y = world.entity();
    world.set(without_y, Id::Entity(x), 3).unwrap();

    let fields = FieldsTuple::new(vec![field(x, AccessMode::ReadOwned), field(y, AccessMode::ReadOptional)]);
    let q = QueryBuilder::new(&fields).build().unwrap();
    let rows = world.each(&fields, &q);
    assert_eq!(rows.len(), 2);
    for row in rows.iter() {
        if row.entity == with_y {
            assert!(row.values[1].is_some());
            assert_eq!(row.values[1], Some(2));
        } else {
            assert_eq!(row.entity, without_y);
            assert!(row.values[1].is_none());
        }
    }
}

#[test]
fn singleton_term_is_broadcast_over_matches() {
    let mut world: World<i64> = World::new();
    let pos = world.entity_named("Position");
    let gravity = world.entity_named("Gravity");
    world.set(gravity, Id::Entity(gravity), 98).unwrap();
    for k in 0..3 {
        let e = world.entity();
        world.set(e, Id::Entity(pos), k).unwrap();
    }
    let fields = FieldsTuple::new(vec![field(pos, AccessMode::ReadOwned), field(gravity, AccessMode::ReadOwned)]);
    let q = QueryBuilder::new(&fields).term_at(1).singleton().build().unwrap();
    let rows = world.each(&fields, &q);
    assert_eq!(rows.len(), 3);
    for row in rows.iter() {
        assert_eq!(row.values[1], Some(98));
    }
}

#[test]
fn without_term_excludes_matches() {
    let mut world: World<i64> = World::new();
    let pos = world.entity_named("Position");
    let frozen = world.entity_named("Frozen");
    let a = world.entity();
    world.set(a, Id::Entity(pos), 1).unwrap();
    let b = world.entity();
    world.set(b, Id::Entity(pos), 2).unwrap();
    world.add(b, Id::Entity(frozen)).unwrap();
    let fields = FieldsTuple::new(vec![field(pos, AccessMode::ReadOwned)]);
    let q = QueryBuilder::new(&fields).without(Id::Entity(frozen)).build().unwrap();
    let rows = world.each(&fields, &q);
    assert_eq!(rows.len(), 1);
    assert_eq!(rows[0].entity, a);
}

#[test]
fn group_order_is_stable_and_exhaustive() {
    let keys = vec![3, 1, 3, 2, 1];
    assert_eq!(group_order(&keys), vec![1, 4, 3, 0, 2]);
    assert_eq!(group_visit_order(&keys, false), vec![1, 4, 3, 0, 2]);
    assert_eq!(group_visit_order(&keys, true), vec![2, 0, 3, 4, 1]);
    assert_eq!(group_order(&vec![]), Vec::<usize>::new());
}

#[test]
fn set_group_keeps_one_group_in_order() {
    let keys = vec![3, 1, 3, 2, 1];
    let order = group_order(&keys);
    assert_eq!(set_group(&keys, &order, 3), vec![0, 2]);
    assert_eq!(set_group(&keys, &order, 9), Vec::<usize>::new());
}

#[test]
fn default_group_key_is_the_pair_target() {
    let archetype = vec![Id::Entity(5), Id::Pair(8, 40), Id::Pair(7, 33), Id::Pair(7, 34)];
    assert_eq!(group_by_default(&archetype, 7), 33);
    assert_eq!(group_by_default(&archetype, 9), 0);
}

#[test]
fn grouped_query_visits_targets_in_ascending_id_order() {
    let mut world: World<i64> = World::new();
    let rel = world.entity_named("Rel");
    let pos = world.entity_named("Position");
    // targets are created so that their ids run against insertion order
    let tgt_c = world.entity();
    let tgt_b = world.entity();
    let tgt_a = world.entity();
    let ea = world.entity();
    world.set(ea, Id::Entity(pos), 1).unwrap();
    world.add(ea, Id::Pair(rel, tgt_a)).unwrap();
    let eb = world.entity();
    world.set(eb, Id::Entity(pos), 2).unwrap();
    world.add(eb, Id::Pair(rel, tgt_b)).unwrap();
    let ec = world.entity();
    world.set(ec, Id::Entity(pos), 3).unwrap();
    world.add(ec, Id::Pair(rel, tgt_c)).unwrap();

    let fields = FieldsTuple::new(vec![field(pos, AccessMode::ReadOwned)]);
    let q = QueryBuilder::new(&fields).group_by(rel).build().unwrap();
    let order: Vec<u64> = world.each(&fields, &q).iter().map(|r| r.entity).collect();
    assert_eq!(order, vec![ec, eb, ea]);

    let batches = world.batches(&fields, &q);
    let keys: Vec<u64> = batches.iter().map(|b| b.group_id).collect();
    assert_eq!(keys, vec![tgt_a, tgt_b, tgt_c]);

    let q = QueryBuilder::new(&fields).group_by(rel).desc().build().unwrap();
    let order: Vec<u64> = world.each(&fields, &q).iter().map(|r| r.entity).collect();
    assert_eq!(order, vec![ea, eb, ec]);
}

#[test]
fn group_lifecycle_events_fire_once_per_group() {
    let mut g = GroupRegistry::new();
    assert_eq!(g.batch_added(5), GroupEvent::Created(5));
    assert_eq!(g.batch_added(5), GroupEvent::Unchanged);
    assert_eq!(g.batch_added(2), GroupEvent::Created(2));
    assert_eq!(g.batch_removed(5), GroupEvent::Unchanged);
    assert_eq!(g.batch_removed(5), GroupEvent::Deleted(5));
    assert_eq!(g.batch_removed(5), GroupEvent::Unchanged);
    assert_eq!(g.batch_added(5), GroupEvent::Created(5));
}

#[test]
fn defer_state_nesting() {
    let mut d = DeferState::new();
    assert!(!d.is_deferred());
    assert!(d.begin());
    assert!(!d.begin());
    assert!(d.is_deferred());
    d.suspend();
    assert!(!d.is_deferred());
    d.resume();
    assert!(!d.end());
    assert!(d.is_deferred());
    assert!(d.end());
    assert!(!d.is_deferred());
}

#[test]
fn nested_defer_flushes_at_outermost_end() {
    let mut world: World<i64> = World::new();
    let c = world.entity_named("C");
    let e = world.entity();
    world.defer_begin();
    world.defer_begin();
    world.set(e, Id::Entity(c), 4).unwrap();
    world.defer_end();
    assert!(!world.has(e, Id::Entity(c)));
    world.defer_end();
    assert_eq!(world.get(e, Id::Entity(c)), Some(4));
}

#[test]
fn deferred_commands_replay_in_order() {
    let mut world: World<i64> = World::new();
    let c = world.entity_named("C");
    let e = world.entity();
    world.defer_begin();
    world.set(e, Id::Entity(c), 1).unwrap();
    world.remove(e, Id::Entity(c)).unwrap();
    world.set(e, Id::Entity(c), 2).unwrap();
    let errors = world.defer_end();
    assert!(errors.is_empty());
    assert_eq!(world.get(e, Id::Entity(c)), Some(2));
}

#[test]
fn replay_on_deleted_entity_reports_not_alive() {
    let mut world: World<i64> = World::new();
    let c = world.entity_named("C");
    let e = world.entity();
    world.defer_begin();
    world.destruct(e).unwrap();
    world.set(e, Id::Entity(c), 1).unwrap();
    let errors = world.defer_end();
    assert_eq!(errors, vec![flecs_ecs::world::WorldError::NotAlive(e)]);
    assert!(!world.is_alive(e));
    assert_eq!(world.set(e, Id::Entity(c), 1), Err(flecs_ecs::world::WorldError::NotAlive(e)));
}

#[test]
fn split_path_segments() {
    let cs: Vec<char> = "::a::bc::d".chars().collect();
    let segs = split_segments(&cs, 0);
    let strs: Vec<String> = segs.iter().map(|s| s.iter().collect()).collect();
    assert_eq!(strs, vec!["", "a", "bc", "d"]);
    let cs: Vec<char> = "a:b".chars().collect();
    assert_eq!(split_segments(&cs, 0).len(), 1);
}

#[test]
fn observer_on_add_does_not_fetch_default_terms() {
    let mut world: World<i64> = World::new();
    let pos = world.entity_named("Position");
    let tag = world.entity_named("Tag");
    let fields = FieldsTuple::new(vec![field(pos, AccessMode::ReadOwned)]);
    let mut b = ObserverBuilder::new(&mut world, ON_ADD, &fields);
    b.query = b.query.with(Id::Entity(tag));
    let o = b.yield_existing().build().unwrap();
    assert!(o.yield_existing);
    assert_eq!(o.events, vec![ON_ADD]);
    assert_eq!(o.query.terms[0].inout, InOut::In);
    assert_eq!(o.query.terms[1].inout, InOut::InOutNone);
}

#[test]
fn observer_for_other_events_keeps_terms() {
    let mut world: World<i64> = World::new();
    let pos = world.entity_named("Position");
    let tag = world.entity_named("Tag");
    let fields = FieldsTuple::new(vec![field(pos, AccessMode::ReadOwned)]);
    let mut b = ObserverBuilder::new_named(&mut world, flecs_ecs::ids::ON_SET, "obs", &fields);
    b.query = b.query.with(Id::Entity(tag));
    let b = b.add_event(ON_ADD).observer_flags(4);
    assert_eq!(b.count_generic_terms(), 1);
    let o = b.build().unwrap();
    assert_eq!(o.flags, 4);
    assert_eq!(o.events, vec![flecs_ecs::ids::ON_SET, ON_ADD]);
    assert_eq!(o.query.terms[1].inout, InOut::Default);
    assert_eq!(world.name(o.entity), "obs");
}

#[test]
fn vector_type_is_named_after_its_element() {
    let mut world: World<i64> = World::new();
    let elem = world.entity_named("Position");
    let v = world.vector(elem);
    assert_eq!(world.path(v), "::flecs::meta::vector::Position");
    assert!(world.has(v, Id::Pair(flecs_ecs::ids::VECTOR, elem)));
    let comp = world.component_named_ext(elem, "Ignored");
    assert_eq!(world.name(comp.id), "Position");
    let o = comp.opaque_collection_vector(&mut world, elem);
    assert_eq!(o.as_type, v);
    assert_eq!(comp.opaque(7).as_type, 7);
    assert_eq!(comp.opaque_dyn_id(3, 4).entity, 3);
}

#[test]
fn members_are_children_of_their_component() {
    let mut world: World<i64> = World::new();
    let comp = world.entity_named("Point");
    let int_type = world.entity_named("i32");
    let meters = world.entity_named("meters");
    let c = UntypedComponent::new(comp)
        .member(&mut world, int_type, "x", 1, 0)
        .member_unit_type(&mut world, int_type, meters, "y");
    assert_eq!(c.members.len(), 2);
    assert_eq!(world.path(c.members[0].entity), "::Point::x");
    assert_eq!(c.members[1].unit, meters);
    assert!(world.has(c.members[1].entity, Id::Pair(flecs_ecs::ids::UNIT, meters)));
    let q = world.entity_named("Length");
    world.quantity(meters, q);
    assert!(world.has(meters, Id::Pair(flecs_ecs::ids::QUANTITY, q)));
}

#[test]
fn doc_strings_are_set_and_read() {
    let mut world: World<i64> = World::new();
    let e = world.entity();
    assert_eq!(world.doc_name(e), None);
    world.set_doc_name(e, "A tag").unwrap();
    world.set_doc_brief(e, "A vast expanse of nothingness.").unwrap();
    world.set_doc_detail(e, "detail").unwrap();
    world.set_doc_link(e, "https://example.com").unwrap();
    world.set_doc_color(e, "#ff0000").unwrap();
    world.set_doc_uuid(e, "81f4e7ea-01d4-4a4b-a0e4-1d9b4e3f9f3f").unwrap();
    world.set_doc_name(e, "Renamed").unwrap();
    assert_eq!(world.doc_name(e), Some("Renamed".to_string()));
    assert_eq!(world.doc_brief(e), Some("A vast expanse of nothingness.".to_string()));
    assert_eq!(world.doc_detail(e), Some("detail".to_string()));
    assert_eq!(world.doc_link(e), Some("https://example.com".to_string()));
    assert_eq!(world.doc_color(e), Some("#ff0000".to_string()));
    assert_eq!(world.doc_uuid(e), Some("81f4e7ea-01d4-4a4b-a0e4-1d9b4e3f9f3f".to_string()));
    world.destruct(e).unwrap();
    assert!(world.set_doc_name(e, "x").is_err());
}

#[test]
fn meta_descriptions_are_recorded() {
    let mut world: World<i64> = World::new();
    let p = world.primitive(PrimitiveKind::I32);
    assert!(world.is_alive(p));
    assert!(matches!(world.meta.last().unwrap().desc, MetaDesc::Primitive(PrimitiveKind::I32)));
    let a = world.array(p, 3);
    assert_eq!(world.meta.last().unwrap().entity, a);
    assert!(matches!(world.meta.last().unwrap().desc, MetaDesc::Array { elem, count: 3 } if elem == p));

    let meters = world.entity_named("meters");
    world.unit(meters, Some("m"), 0, 0, 0, 1, 0);
    match &world.meta.last().unwrap().desc {
        MetaDesc::Unit { symbol, factor, .. } => {
            assert_eq!(symbol.clone().unwrap().iter().collect::<String>(), "m");
            assert_eq!(*factor, 1);
        }
        _ => panic!("expected a unit"),
    }
    let kilo = world.entity_named("kilo");
    world.unit_prefix(kilo, "k", 10, 3);
    assert!(matches!(world.meta.last().unwrap().desc, MetaDesc::UnitPrefix { factor: 10, power: 3, .. }));
    let length = world.entity_named("Length");
    world.quantity_self(length);
    assert!(world.has(length, Id::Entity(flecs_ecs::ids::QUANTITY)));

    let color = world.entity_named("Color");
    let c = UntypedComponent::new(color).constant(&mut world, "Red", 1).bit(&mut world, "Bright", 4);
    assert_eq!(c.id, color);
    assert!(world.has(color, Id::Entity(flecs_ecs::ids::ENUM)));
    assert!(world.has(color, Id::Entity(flecs_ecs::ids::BITMASK)));
    assert_eq!(world.path(world.meta.last().unwrap().entity), "::Color::Bright");
    let red = world.lookup(color, "Red").unwrap();
    assert!(world.is_alive(red));
}

#[test]
fn add_event_writes_the_next_slot() {
    let mut world: World<i64> = World::new();
    let fields = FieldsTuple::new(vec![]);
    let desc = ObserverDesc { events: vec![flecs_ecs::ids::ON_SET, 77], entity: 0, yield_existing: false, flags: 0 };
    let b = ObserverBuilder::new_from_desc(&mut world, desc, &fields);
    assert!(world.is_alive(b.desc.entity));
    let b = b.add_event(ON_ADD);
    assert_eq!(b.desc.events, vec![ON_ADD, 77]);
    assert_eq!(b.event_count, 1);
}

#[test]
fn observer_build_reports_uninitialized_term() {
    let mut world: World<i64> = World::new();
    let fields = FieldsTuple::new(vec![field(20, AccessMode::ReadOwned)]);
    let mut b = ObserverBuilder::new(&mut world, ON_ADD, &fields);
    b.query = b.query.term_at(2);
    assert_eq!(b.build().err(), Some(BuildError::UninitializedTerm(1)));
}

#[test]
fn doc_set_inside_defer_is_queued() {
    let mut world: World<i64> = World::new();
    let e = world.entity();
    world.defer_begin();
    world.set_doc_name(e, "a").unwrap();
    assert_eq!(world.doc_name(e), None);
    world.defer_suspend();
    world.set_doc_brief(e, "b").unwrap();
    assert_eq!(world.doc_brief(e), Some("b".to_string()));
    assert_eq!(world.doc_name(e), None);
    world.defer_resume();
    world.set_doc_detail(e, "c").unwrap();
    assert_eq!(world.doc_detail(e), None);
    assert_eq!(world.doc_name(e), None);
    world.defer_end();
    assert_eq!(world.doc_name(e), Some("a".to_string()));
    assert_eq!(world.doc_detail(e), Some("c".to_string()));
    assert_eq!(world.doc(e, DocKind::Brief), Some("b".to_string()));
}

#[test]
fn query_with_only_added_terms() {
    let mut world: World<i64> = World::new();
    let mut tags = Vec::new();
    for k in 0..10 {
        tags.push(world.entity_named(&format!("Tag{}", k)));
    }
    let e = world.entity();
    for t in tags.iter() {
        world.add(e, Id::Entity(*t)).unwrap();
    }
    let other = world.entity();
    world.add(other, Id::Entity(tags[0])).unwrap();
    let fields = FieldsTuple::new(vec![]);
    let mut b = QueryBuilder::new(&fields);
    for t in tags.iter() {
        b = b.with(Id::Entity(*t));
    }
    let q = b.set_cache_kind(CacheKind::Auto).build().unwrap();
    assert_eq!(q.field_count(), 10);
    let batches = world.batches(&fields, &q);
    assert_eq!(batches.len(), 1);
    assert_eq!(batches[0].count, 1);
    assert_eq!(batches[0].entities[0], e);
}

#[test]
fn each_group_keeps_one_group() {
    let mut world: World<i64> = World::new();
    let rel = world.entity_named("Rel");
    let pos = world.entity_named("Position");
    let t1 = world.entity();
    let t2 = world.entity();
    let a = world.entity();
    world.set(a, Id::Entity(pos), 1).unwrap();
    world.add(a, Id::Pair(rel, t2)).unwrap();
    let b = world.entity();
    world.set(b, Id::Entity(pos), 2).unwrap();
    world.add(b, Id::Pair(rel, t1)).unwrap();
    let c = world.entity();
    world.set(c, Id::Entity(pos), 3).unwrap();
    world.add(c, Id::Pair(rel, t2)).unwrap();
    let fields = FieldsTuple::new(vec![field(pos, AccessMode::ReadOwned)]);
    let q = QueryBuilder::new(&fields).group_by(rel).build().unwrap();
    let rows = world.each(&fields, &q);
    let groups: Vec<u64> = rows.iter().map(|r| r.group).collect();
    assert_eq!(groups, vec![t1, t2, t2]);
    let only: Vec<u64> = world.each_group(&fields, &q, t2).iter().map(|r| r.entity).collect();
    assert_eq!(only.len(), 2);
    assert!(only.contains(&a) && only.contains(&c));
    assert!(world.each_group(&fields, &q, 999).is_empty());
}

#[test]
fn tracked_groups_are_created_once() {
    let mut world: World<i64> = World::new();
    let rel = world.entity_named("Rel");
    let pos = world.entity_named("Position");
    let t1 = world.entity();
    let t2 = world.entity();
    let a = world.entity();
    world.set(a, Id::Entity(pos), 1).unwrap();
    world.add(a, Id::Pair(rel, t1)).unwrap();
    let b = world.entity();
    world.set(b, Id::Entity(pos), 2).unwrap();
    world.add(b, Id::Pair(rel, t2)).unwrap();
    let fields = FieldsTuple::new(vec![field(pos, AccessMode::ReadOwned)]);
    let q = QueryBuilder::new(&fields).group_by(rel).build().unwrap();
    let mut reg = GroupRegistry::new();
    let events = world.track_groups(&fields, &q, &mut reg);
    assert_eq!(events, vec![GroupEvent::Created(t1), GroupEvent::Created(t2)]);
    assert_eq!(reg.count(t1), 1);
    let again = world.track_groups(&fields, &q, &mut reg);
    assert_eq!(again, vec![GroupEvent::Unchanged, GroupEvent::Unchanged]);
    assert_eq!(reg.count(t2), 2);
}

#[test]
fn rows_of_one_table_report_each_entitys_own_value() {
    let mut world: World<i64> = World::new();
    let pos = world.entity_named("Position");
    let with_value = world.entity();
    world.set(with_value, Id::Entity(pos), 5).unwrap();
    let without_value = world.entity();
    world.add(without_value, Id::Entity(pos)).unwrap();
    let fields = FieldsTuple::new(vec![field(pos, AccessMode::ReadOwned)]);
    let q = QueryBuilder::new(&fields).build().unwrap();
    let batches = world.batches(&fields, &q);
    assert_eq!(batches.len(), 1);
    assert_ne!(batches[0].row_fields, 0);
    let rows = world.each(&fields, &q);
    assert_eq!(rows.len(), 2);
    for row in rows.iter() {
        if row.entity == with_value {
            assert_eq!(row.values[0], Some(5));
        } else {
            assert_eq!(row.values[0], None);
        }
    }
}

#[test]
fn caller_keys_order_batches() {
    let fields = FieldsTuple::new(vec![field(20, AccessMode::ReadOwned)]);
    let a = batch(vec![Column::Array(vec![1, 2])], vec![0], 0, 0, 2);
    let b = batch(vec![Column::Array(vec![3])], vec![0], 0, 0, 1);
    let bs = vec![a, b];
    let rows = rows_in_key_order(&fields, &bs, &vec![9, 4], false);
    let got: Vec<(u64, Option<i64>)> = rows.iter().map(|r| (r.group, r.values[0])).collect();
    assert_eq!(got, vec![(4, Some(3)), (9, Some(1)), (9, Some(2))]);
    let rows = rows_in_key_order(&fields, &bs, &vec![9, 4], true);
    assert_eq!(rows[0].group, 9);
    assert_eq!(rows[2].group, 4);
}

#[test]
fn tracked_batches_give_one_event_each() {
    let mut a = batch(vec![Column::Null], vec![0], 0, 0, 0);
    a.group_id = 7;
    let mut b = batch(vec![Column::Null], vec![0], 0, 0, 0);
    b.group_id = 7;
    let mut c = batch(vec![Column::Null], vec![0], 0, 0, 0);
    c.group_id = 3;
    let mut reg = GroupRegistry::new();
    let events = track_batches(&vec![a, b, c], &mut reg);
    assert_eq!(events, vec![GroupEvent::Created(7), GroupEvent::Unchanged, GroupEvent::Created(3)]);
    assert_eq!(reg.count(7), 2);
}
