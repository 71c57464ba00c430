use vstd::prelude::*;
use crate::ids::{BITMASK, COMPONENT, ENUM, Id, MEMBER, QUANTITY, UNIT, VECTOR};
use crate::naming::split_path;
use crate::world::World;

verus! {

/// Element count of a member (`.member` takes it as its count).
#[derive(Clone, Copy, Debug, PartialEq, Eq, Structural)]
pub struct Count(pub i32);

/// Marker for components registered as enumerations.
pub struct Enum;

/// Marker for components registered as structs.
pub struct Struct;

/// The path a vector type over an element named `name` is registered at.
pub open spec fn vector_path(name: Seq<char>) -> Seq<char> {
    seq!['f', 'l', 'e', 'c', 's', ':', ':', 'm', 'e', 't', 'a', ':', ':', 'v', 'e', 'c', 't', 'o', 'r', ':', ':']
        + name
}

/// Placeholder enumeration used where no enumeration type is given.
#[derive(Clone, Copy, Debug, PartialEq, Eq, Structural)]
pub enum NoneEnum {
    NoneValue,
}

/// A registered component.
#[derive(Clone, Copy, Debug, PartialEq, Eq, Structural)]
pub struct Component {
    pub id: u64,
}

/// One member of a struct component.
#[derive(Clone, Copy, Debug, PartialEq, Eq, Structural)]
pub struct MemberInfo {
    /// The entity describing the member.
    pub entity: u64,
    pub type_id: u64,
    pub unit: u64,
    pub count: i32,
    pub offset: i32,
    pub use_offset: bool,
}

/// A component being described member by member.
pub struct UntypedComponent {
    pub id: u64,
    pub members: Vec<MemberInfo>,
}

/// How a component is serialized through another type.
#[derive(Clone, Copy, Debug, PartialEq, Eq, Structural)]
pub struct Opaque {
    /// The component the interface is registered for.
    pub entity: u64,
    /// The type the component is serialized as.
    pub as_type: u64,
}

/// Kinds of primitive types.
#[derive(Clone, Copy, Debug, PartialEq, Eq, Structural)]
pub enum PrimitiveKind {
    Bool,
    Char,
    Byte,
    U8,
    U16,
    U32,
    U64,
    I8,
    I16,
    I32,
    I64,
    F32,
    F64,
    UPtr,
    IPtr,
    Text,
    Entity,
    IdKind,
}

/// What reflection records about an entity.
#[allow(inconsistent_fields)]
pub enum MetaDesc {
    /// A unit of measurement.
    Unit { symbol: Option<Vec<char>>, prefix: u64, base: u64, over: u64, factor: i32, power: i32 },
    /// A prefix of units (kilo, milli, ...).
    UnitPrefix { symbol: Vec<char>, factor: i32, power: i32 },
    Primitive(PrimitiveKind),
    /// A fixed-size array of `count` elements of type `elem`.
    Array { elem: u64, count: i32 },
    /// A constant of an enumeration.
    Constant { value: i64 },
    /// A constant of a bitmask.
    Bit { value: u64 },
}

/// One reflection record.
pub struct MetaEntry {
    pub entity: u64,
    pub desc: MetaDesc,
}

impl<V: Copy> World<V> {
    /// Creates a primitive type of kind `kind`.
    pub fn primitive(&mut self, kind: PrimitiveKind) -> (r: u64)
        requires
            old(self).wf(),
            old(self).has_room(1),
        ensures
            final(self).wf(),
            final(self).spec_alive(r),
            final(self).meta@.last().entity == r,
            final(self).meta@.last().desc == MetaDesc::Primitive(kind),
    {
        let e = self.entity_in(0);
        self.meta.push(MetaEntry { entity: e, desc: MetaDesc::Primitive(kind) });
        e
    }

    /// Creates an array type of `count` elements of type `elem`.
    pub fn array(&mut self, elem: u64, count: i32) -> (r: u64)
        requires
            old(self).wf(),
            old(self).has_room(1),
        ensures
            final(self).wf(),
            final(self).spec_alive(r),
            final(self).meta@.last().entity == r,
            final(self).meta@.last().desc == (MetaDesc::Array { elem, count }),
    {
        let e = self.entity_in(0);
        self.meta.push(MetaEntry { entity: e, desc: MetaDesc::Array { elem, count } });
        e
    }

    /// Makes `e` a unit: its symbol, prefix, base and the unit it is divided
    /// by, and how it converts to its base.
    pub fn unit(
        &mut self,
        e: u64,
        symbol: Option<&str>,
        prefix: u64,
        base: u64,
        over: u64,
        factor: i32,
        power: i32,
    ) -> (r: u64)
        ensures
            r == e,
            final(self).meta@.len() == old(self).meta@.len() + 1,
            final(self).meta@.drop_last() == old(self).meta@,
            final(self).meta@.last().entity == e,
            final(self).meta@.last().desc matches MetaDesc::Unit { symbol: s, prefix: p, base: b, over: o, factor: f, power: w }
                && p == prefix && b == base && o == over && f == factor && w == power
                && (match symbol {
                    Some(t) => s matches Some(v) && v@ == t@,
                    None => s is None,
                }),
    {
        let sym = match symbol {
            Some(t) => Some(crate::text::chars_of(t)),
            None => None,
        };
        self.meta.push(
            MetaEntry {
                entity: e,
                desc: MetaDesc::Unit { symbol: sym, prefix, base, over, factor, power },
            },
        );
        e
    }

    /// Makes `e` a unit prefix.
    pub fn unit_prefix(&mut self, e: u64, symbol: &str, factor: i32, power: i32) -> (r: u64)
        ensures
            r == e,
            final(self).meta@.len() == old(self).meta@.len() + 1,
            final(self).meta@.drop_last() == old(self).meta@,
            final(self).meta@.last().entity == e,
            final(self).meta@.last().desc matches MetaDesc::UnitPrefix { symbol: s, factor: f, power: w }
                && s@ == symbol@ && f == factor && w == power,
    {
        let sym = crate::text::chars_of(symbol);
        self.meta.push(MetaEntry { entity: e, desc: MetaDesc::UnitPrefix { symbol: sym, factor, power } });
        e
    }

    /// Makes `e` a quantity.
    pub fn quantity_self(&mut self, e: u64) -> (r: u64)
        requires
            old(self).wf(),
        ensures
            final(self).wf(),
            r == e,
            old(self).performed(final(self), seq![crate::defer::Command::Add(e, Id::Entity(QUANTITY))]),
    {
        let _ = self.add(e, Id::Entity(QUANTITY));
        e
    }

    /// Adds constant `name` with `value` below component `comp`, marking
    /// the component with `kind` (enumeration or bitmask).
    fn add_constant(&mut self, comp: u64, kind: u64, name: &str, desc: MetaDesc) -> (r: u64)
        requires
            old(self).wf(),
            old(self).has_room(name@.len() + 2),
        ensures
            final(self).wf(),
            final(self).spec_alive(r),
            final(self).name_of(r) == split_path(name@).last(),
            split_path(name@).len() == 1 ==> final(self).parent_of(r) == comp,
            !old(self).spec_deferred() && old(self).spec_alive(comp) ==> final(self).spec_has(
                comp,
                Id::Entity(kind),
            ),
            final(self).meta@.last().entity == r,
            final(self).meta@.last().desc == desc,
    {
        let saved = self.set_scope(comp);
        let ghost w_a = *self;
        let e = self.entity_named(name);
        proof {
            assert(old(self).spec_alive(comp) ==> w_a.spec_alive(comp));
            assert(old(self).spec_alive(comp) ==> self.spec_alive(comp));
        }
        self.set_scope(saved);
        let ghost w1 = *self;
        proof {
            assert(w1.spec_deferred() == old(self).spec_deferred());
        }
        let _ = self.add(comp, Id::Entity(kind));
        proof {
            crate::world::lemma_performed_alive(&w1, self, crate::defer::Command::Add(comp, Id::Entity(kind)));
            assert(self.name_of(e) == w1.name_of(e));
            if !w1.spec_deferred() && w1.spec_alive(comp) {
                crate::world::lemma_applied_now(&w1, self, crate::defer::Command::Add(comp, Id::Entity(kind)));
                lemma_add_has(w1.entries@, comp, Id::Entity(kind));
            }
        }
        self.meta.push(MetaEntry { entity: e, desc });
        e
    }

    /// Finds or registers the component of entity `id`.
    pub fn component_ext(&mut self, id: u64) -> (r: Component)
        requires
            old(self).wf(),
        ensures
            final(self).wf(),
            r.id == id,
            old(self).performed(final(self), seq![crate::defer::Command::Add(id, Id::Entity(COMPONENT))]),
    {
        let _ = self.add(id, Id::Entity(COMPONENT));
        Component { id }
    }

    /// Finds or registers the component of entity `id`, naming it `name`
    /// unless it already has a name.
    pub fn component_named_ext(&mut self, id: u64, name: &str) -> (r: Component)
        requires
            old(self).wf(),
        ensures
            final(self).wf(),
            r.id == id,
            old(self).spec_alive(id) && old(self).names@[crate::ids::index_of(id) as int] is None
                ==> final(self).name_of(id) == name@,
            old(self).spec_alive(id) && old(self).names@[crate::ids::index_of(id) as int] is Some
                ==> final(self).name_of(id) == old(self).name_of(id),
    {
        let ghost w0 = *self;
        let c = self.component_ext(id);
        proof {
            crate::world::lemma_performed_alive(&w0, self, crate::defer::Command::Add(id, Id::Entity(COMPONENT)));
        }
        if self.is_alive(id) && self.get_name(id).is_none() {
            let _ = self.set_name(id, name);
        }
        c
    }

    /// Registers the vector type over element `elem`: an entity named
    /// `flecs::meta::vector::<elem's name>` that holds `(Vector, elem)`.
    pub fn vector(&mut self, elem: u64) -> (r: u64)
        requires
            old(self).wf(),
            old(self).has_room(old(self).name_or_empty(elem).len() + 24),
        ensures
            final(self).wf(),
            final(self).spec_alive(r),
            final(self).name_of(r) == split_path(
                seq!['f', 'l', 'e', 'c', 's', ':', ':', 'm', 'e', 't', 'a', ':', ':', 'v', 'e', 'c', 't', 'o', 'r', ':', ':']
                    + old(self).name_or_empty(elem),
            ).last(),
            ({
                let st = old(self).path_start(0, split_path(vector_path(old(self).name_or_empty(elem))));
                &&& final(self).resolve(st.0, st.1) == Some(r)
                &&& old(self).resolve(st.0, st.1) matches Some(x) ==> r == x
            }),
            !old(self).spec_deferred() ==> final(self).spec_has(r, Id::Pair(VECTOR, elem)),
    {
        let mut path: Vec<char> = vec![
            'f',
            'l',
            'e',
            'c',
            's',
            ':',
            ':',
            'm',
            'e',
            't',
            'a',
            ':',
            ':',
            'v',
            'e',
            'c',
            't',
            'o',
            'r',
            ':',
            ':',
        ];
        let n = self.name(elem);
        let cs = crate::text::chars_of(n.as_str());
        crate::text::extend_chars(&mut path, &cs);
        let p = crate::text::string_of(&path);
        proof {
            assert(path@ == vector_path(old(self).name_or_empty(elem)));
        }
        let saved = self.set_scope(0);
        let e = self.entity_named(p.as_str());
        self.set_scope(saved);
        let ghost w1 = *self;
        let _ = self.add(e, Id::Pair(VECTOR, elem));
        proof {
            crate::world::lemma_performed_alive(&w1, self, crate::defer::Command::Add(e, Id::Pair(VECTOR, elem)));
            assert(self.name_of(e) == w1.name_of(e));
            if !w1.spec_deferred() {
                crate::world::lemma_applied_now(&w1, self, crate::defer::Command::Add(e, Id::Pair(VECTOR, elem)));
                lemma_add_has(w1.entries@, e, Id::Pair(VECTOR, elem));
            }
        }
        e
    }

    /// Links unit `e` to quantity `q`.
    pub fn quantity(&mut self, e: u64, q: u64) -> (r: u64)
        requires
            old(self).wf(),
        ensures
            final(self).wf(),
            r == e,
            old(self).performed(final(self), seq![crate::defer::Command::Add(e, Id::Pair(QUANTITY, q))]),
    {
        let _ = self.add(e, Id::Pair(QUANTITY, q));
        e
    }
}

impl Component {
    /// Adds enumeration constant `name` with `value`.
    pub fn constant<V: Copy>(&self, world: &mut World<V>, name: &str, value: i64) -> (r: Component)
        requires
            old(world).wf(),
            old(world).has_room(name@.len() + 2),
        ensures
            final(world).wf(),
            r == *self,
            final(world).meta@.last().desc == (MetaDesc::Constant { value }),
            final(world).spec_alive(final(world).meta@.last().entity),
            final(world).name_of(final(world).meta@.last().entity) == split_path(name@).last(),
            split_path(name@).len() == 1 ==> final(world).parent_of(final(world).meta@.last().entity) == self.id,
            !old(world).spec_deferred() && old(world).spec_alive(self.id) ==> final(world).spec_has(
                self.id,
                Id::Entity(ENUM),
            ),
    {
        world.add_constant(self.id, ENUM, name, MetaDesc::Constant { value });
        *self
    }

    /// Serializes the component as type `type_id`.
    pub fn opaque(&self, type_id: u64) -> (r: Opaque)
        ensures
            r == (Opaque { entity: self.id, as_type: type_id }),
    {
        Opaque { entity: self.id, as_type: type_id }
    }

    /// Serializes the component as the type with id `id`.
    pub fn opaque_id(&self, id: u64) -> (r: Opaque)
        ensures
            r == (Opaque { entity: self.id, as_type: id }),
    {
        self.opaque(id)
    }

    /// An interface registered for `id_type`, serialized as `id_field`.
    pub fn opaque_dyn_id(&self, id_type: u64, id_field: u64) -> (r: Opaque)
        ensures
            r == (Opaque { entity: id_type, as_type: id_field }),
    {
        Opaque { entity: id_type, as_type: id_field }
    }

    /// Serializes the component as a vector of `elem`.
    pub fn opaque_collection_vector<V: Copy>(&self, world: &mut World<V>, elem: u64) -> (r: Opaque)
        requires
            old(world).wf(),
            old(world).has_room(old(world).name_or_empty(elem).len() + 24),
        ensures
            final(world).wf(),
            r.entity == self.id,
            final(world).spec_alive(r.as_type),
    {
        let v = world.vector(elem);
        Opaque { entity: self.id, as_type: v }
    }

    /// Serializes the component as the collection type `id`.
    pub fn opaque_collection_dyn(&self, id: u64) -> (r: Opaque)
        ensures
            r == (Opaque { entity: self.id, as_type: id }),
    {
        Opaque { entity: self.id, as_type: id }
    }
}

impl UntypedComponent {
    pub fn new(id: u64) -> (r: UntypedComponent)
        ensures
            r.id == id,
            r.members@.len() == 0,
    {
        UntypedComponent { id, members: Vec::new() }
    }

    /// Adds a member named `name` of type `type_id` measured in `unit`: an
    /// entity below the component that records them.
    pub fn member_unit<V: Copy>(
        self,
        world: &mut World<V>,
        type_id: u64,
        unit: u64,
        name: &str,
        count: i32,
        offset: i32,
        use_offset: bool,
    ) -> (r: UntypedComponent)
        requires
            old(world).wf(),
            old(world).has_room(name@.len() + 2),
            old(world).defer.depth < u32::MAX,
        ensures
            final(world).wf(),
            r.id == self.id,
            r.members@.len() == self.members@.len() + 1,
            r.members@.drop_last() == self.members@,
            r.members@.last().type_id == type_id,
            r.members@.last().unit == unit,
            r.members@.last().count == count,
            r.members@.last().offset == offset,
            r.members@.last().use_offset == use_offset,
            final(world).spec_alive(r.members@.last().entity),
            final(world).name_of(r.members@.last().entity) == split_path(name@).last(),
            final(world).spec_has(r.members@.last().entity, Id::Pair(MEMBER, type_id)),
            final(world).spec_has(r.members@.last().entity, Id::Pair(UNIT, unit)),
            split_path(name@).len() == 1 ==> final(world).parent_of(r.members@.last().entity) == self.id,
    {
        let saved = world.set_scope(self.id);
        let e = world.entity_named(name);
        world.set_scope(saved);
        // the member's description is applied at once, even inside a deferred block
        let was_suspended = world.defer.suspended;
        world.defer_suspend();
        let ghost w1 = *world;
        let _ = world.add(e, Id::Pair(MEMBER, type_id));
        proof {
            crate::world::lemma_applied_now(&w1, world, crate::defer::Command::Add(e, Id::Pair(MEMBER, type_id)));
            crate::world::lemma_performed_alive(&w1, world, crate::defer::Command::Add(e, Id::Pair(MEMBER, type_id)));
            lemma_add_has(w1.entries@, e, Id::Pair(MEMBER, type_id));
        }
        let ghost w2 = *world;
        let _ = world.add(e, Id::Pair(UNIT, unit));
        proof {
            crate::world::lemma_applied_now(&w2, world, crate::defer::Command::Add(e, Id::Pair(UNIT, unit)));
            crate::world::lemma_performed_alive(&w2, world, crate::defer::Command::Add(e, Id::Pair(UNIT, unit)));
            lemma_add_has(w2.entries@, e, Id::Pair(UNIT, unit));
            lemma_add_keeps(w2.entries@, e, Id::Pair(UNIT, unit), e, Id::Pair(MEMBER, type_id));
            assert(world.name_of(e) == w1.name_of(e));
        }
        if !was_suspended {
            world.defer_resume();
        }
        let mut members = self.members;
        let ghost before = members@;
        members.push(MemberInfo { entity: e, type_id, unit, count, offset, use_offset });
        proof {
            assert(members@.drop_last() == before);
        }
        UntypedComponent { id: self.id, members }
    }

    /// Adds enumeration constant `name` with `value`.
    pub fn constant<V: Copy>(self, world: &mut World<V>, name: &str, value: i64) -> (r: UntypedComponent)
        requires
            old(world).wf(),
            old(world).has_room(name@.len() + 2),
        ensures
            final(world).wf(),
            r.id == self.id,
            r.members@ == self.members@,
            final(world).meta@.last().desc == (MetaDesc::Constant { value }),
            final(world).spec_alive(final(world).meta@.last().entity),
            final(world).name_of(final(world).meta@.last().entity) == split_path(name@).last(),
            split_path(name@).len() == 1 ==> final(world).parent_of(final(world).meta@.last().entity) == self.id,
            !old(world).spec_deferred() && old(world).spec_alive(self.id) ==> final(world).spec_has(
                self.id,
                Id::Entity(ENUM),
            ),
    {
        world.add_constant(self.id, ENUM, name, MetaDesc::Constant { value });
        self
    }

    /// Adds bitmask constant `name` with `value`.
    pub fn bit<V: Copy>(self, world: &mut World<V>, name: &str, value: u64) -> (r: UntypedComponent)
        requires
            old(world).wf(),
            old(world).has_room(name@.len() + 2),
        ensures
            final(world).wf(),
            r.id == self.id,
            r.members@ == self.members@,
            final(world).meta@.last().desc == (MetaDesc::Bit { value }),
            final(world).spec_alive(final(world).meta@.last().entity),
            final(world).name_of(final(world).meta@.last().entity) == split_path(name@).last(),
            split_path(name@).len() == 1 ==> final(world).parent_of(final(world).meta@.last().entity) == self.id,
            !old(world).spec_deferred() && old(world).spec_alive(self.id) ==> final(world).spec_has(
                self.id,
                Id::Entity(BITMASK),
            ),
    {
        world.add_constant(self.id, BITMASK, name, MetaDesc::Bit { value });
        self
    }

    /// Registers the component as an array of `count` elements of `elem`.
    pub fn array<V: Copy>(self, world: &mut World<V>, elem: u64, count: i32) -> (r: UntypedComponent)
        ensures
            r.id == self.id,
            r.members@ == self.members@,
            final(world).meta@ == old(world).meta@.push(MetaEntry { entity: self.id, desc: MetaDesc::Array { elem, count } }),
    {
        world.meta.push(MetaEntry { entity: self.id, desc: MetaDesc::Array { elem, count } });
        self
    }

    /// Adds a member without a unit.
    pub fn member<V: Copy>(self, world: &mut World<V>, type_id: u64, name: &str, count: i32, offset: i32) -> (r: UntypedComponent)
        requires
            old(world).wf(),
            old(world).has_room(name@.len() + 2),
            old(world).defer.depth < u32::MAX,
        ensures
            final(world).wf(),
            r.id == self.id,
            r.members@.len() == self.members@.len() + 1,
            r.members@.drop_last() == self.members@,
            r.members@.last().type_id == type_id,
            r.members@.last().unit == 0,
            r.members@.last().count == count,
            r.members@.last().offset == offset,
            final(world).spec_alive(r.members@.last().entity),
            final(world).name_of(r.members@.last().entity) == split_path(name@).last(),
            split_path(name@).len() == 1 ==> final(world).parent_of(r.members@.last().entity) == self.id,
    {
        self.member_unit(world, type_id, 0, name, count, offset, true)
    }

    /// Adds a member whose type and unit are given by their entities.
    pub fn member_unit_type<V: Copy>(
        self,
        world: &mut World<V>,
        type_id: u64,
        unit: u64,
        name: &str,
    ) -> (r: UntypedComponent)
        requires
            old(world).wf(),
            old(world).has_room(name@.len() + 2),
            old(world).defer.depth < u32::MAX,
        ensures
            final(world).wf(),
            r.id == self.id,
            r.members@.len() == self.members@.len() + 1,
            r.members@.last().type_id == type_id,
            r.members@.last().unit == unit,
            r.members@.last().count == 1,
            final(world).spec_alive(r.members@.last().entity),
    {
        self.member_unit(world, type_id, unit, name, 1, 0, false)
    }
}

/// After an id is added, the entity holds it.
pub proof fn lemma_add_has<V>(es: Seq<crate::store::Entry<V>>, e: u64, id: Id)
    ensures
        crate::store::has_entry(crate::store::add_entry(es, e, id), e, id),
{
    if !crate::store::has_entry(es, e, id) {
        let r = crate::store::add_entry(es, e, id);
        assert(crate::store::entry_is(r[es.len() as int], e, id));
    }
}

/// Adding an id keeps the ids an entity already holds.
pub proof fn lemma_add_keeps<V>(es: Seq<crate::store::Entry<V>>, e: u64, id: Id, e2: u64, id2: Id)
    requires
        crate::store::has_entry(es, e2, id2),
    ensures
        crate::store::has_entry(crate::store::add_entry(es, e, id), e2, id2),
{
    let k = choose|k: int| 0 <= k < es.len() && crate::store::entry_is(#[trigger] es[k], e2, id2);
    let r = crate::store::add_entry(es, e, id);
    assert(r[k] == es[k]);
}

} // verus!
