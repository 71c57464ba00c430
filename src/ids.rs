use vstd::prelude::*;

verus! {

/// Number of entity slots addressable by the low half of an entity id.
pub const INDEX_SPAN: u64 = 4294967296;

/// Builtin relationship marking hierarchy: `(ChildOf, parent)`.
pub const CHILD_OF: u64 = 1;

/// Builtin relationship marking inheritance: `(IsA, base)`.
pub const IS_A: u64 = 2;

/// Builtin tag carried by entities that describe a component.
pub const COMPONENT: u64 = 3;

/// Builtin relationship linking a unit to its quantity.
pub const QUANTITY: u64 = 4;

/// Builtin tag of entities that describe a struct member.
pub const MEMBER: u64 = 5;

/// Builtin relationship linking a vector type to its element type.
pub const VECTOR: u64 = 6;

/// Builtin event: an id was added.
pub const ON_ADD: u64 = 7;

/// Builtin event: a value was set.
pub const ON_SET: u64 = 8;

/// Builtin relationship linking a member to its unit.
pub const UNIT: u64 = 9;

/// Builtin tag of enumeration components.
pub const ENUM: u64 = 10;

/// Builtin tag of bitmask components.
pub const BITMASK: u64 = 11;

/// Builtin module that holds the other builtins.
pub const FLECS: u64 = 12;

/// Number of entity slots the world reserves for builtins (slot 0 is the null entity).
pub const BUILTIN_COUNT: u64 = 13;

/// A component id: a single entity, or a `(relationship, target)` pair.
#[derive(Clone, Copy, Debug, PartialEq, Eq, Structural)]
pub enum Id {
    Entity(u64),
    Pair(u64, u64),
}

impl Id {
    pub open spec fn is_pair(self) -> bool {
        self is Pair
    }

    /// The first element: the entity itself, or the relationship of a pair.
    pub open spec fn spec_first(self) -> u64 {
        match self {
            Id::Entity(e) => e,
            Id::Pair(r, _) => r,
        }
    }

    /// The second element of a pair, 0 for a plain entity.
    pub open spec fn spec_second(self) -> u64 {
        match self {
            Id::Entity(_) => 0,
            Id::Pair(_, t) => t,
        }
    }

    pub fn first(&self) -> (r: u64)
        ensures
            r == self.spec_first(),
    {
        match self {
            Id::Entity(e) => *e,
            Id::Pair(r, _) => *r,
        }
    }

    pub fn second(&self) -> (r: u64)
        ensures
            r == self.spec_second(),
    {
        match self {
            Id::Entity(_) => 0,
            Id::Pair(_, t) => *t,
        }
    }

    pub fn is_pair_id(&self) -> (r: bool)
        ensures
            r == self.is_pair(),
    {
        match self {
            Id::Entity(_) => false,
            Id::Pair(_, _) => true,
        }
    }
}

/// Slot of an entity id (its low half).
pub open spec fn index_of(e: u64) -> u64 {
    e % INDEX_SPAN
}

/// Generation of an entity id (its high half).
pub open spec fn generation_of(e: u64) -> u64 {
    e / INDEX_SPAN
}

pub open spec fn make_id(index: u64, generation: u64) -> int {
    generation * INDEX_SPAN + index
}

pub fn entity_index(e: u64) -> (r: u64)
    ensures
        r == index_of(e),
        r < INDEX_SPAN,
{
    e % INDEX_SPAN
}

pub fn entity_generation(e: u64) -> (r: u64)
    ensures
        r == generation_of(e),
        r < INDEX_SPAN,
{
    e / INDEX_SPAN
}

/// An id is determined by its slot and generation.
pub proof fn lemma_id_parts(a: u64, b: u64)
    requires
        index_of(a) == index_of(b),
        generation_of(a) == generation_of(b),
    ensures
        a == b,
{
    vstd::arithmetic::div_mod::lemma_fundamental_div_mod(a as int, INDEX_SPAN as int);
    vstd::arithmetic::div_mod::lemma_fundamental_div_mod(b as int, INDEX_SPAN as int);
}

/// Builds the id of slot `index` at `generation`.
pub fn compose_id(index: u64, generation: u64) -> (r: u64)
    requires
        index < INDEX_SPAN,
        generation < INDEX_SPAN,
    ensures
        r == make_id(index, generation),
        index_of(r) == index,
        generation_of(r) == generation,
{
    let ghost g = generation as int;
    let ghost i = index as int;
    let ghost span = INDEX_SPAN as int;
    assert(g * span + i < span * span && (g * span + i) % span == i && (g * span + i) / span == g)
        by (nonlinear_arith)
        requires
            0 <= i < span,
            0 <= g < span,
            span == 4294967296,
    ;
    let r = generation * INDEX_SPAN + index;
    r
}

} // verus!
