use vstd::prelude::*;
use crate::batch::FieldsTuple;
use crate::builder::{BuildError, InOut, Query, QueryBuilder, Term, built_from, is_uninitialized};
use crate::ids::ON_ADD;
use crate::world::World;

verus! {

/// What an observer is created from.
pub struct ObserverDesc {
    /// The events it reacts to.
    pub events: Vec<u64>,
    /// The entity that represents it.
    pub entity: u64,
    /// Run it for everything already matching when it is created.
    pub yield_existing: bool,
    pub flags: u32,
}

/// Configures an observer: its events and the query it reacts on.
pub struct ObserverBuilder {
    pub desc: ObserverDesc,
    pub query: QueryBuilder,
    pub event_count: usize,
}

/// A finished observer.
pub struct Observer {
    pub entity: u64,
    pub events: Vec<u64>,
    pub query: Query,
    pub yield_existing: bool,
    pub flags: u32,
}

/// A term of an `OnAdd` observer does not fetch data unless it asks to:
/// the data is not initialized yet when the event fires.
pub open spec fn quiet(t: Term) -> Term {
    if t.inout == InOut::Default {
        Term { inout: InOut::InOutNone, ..t }
    } else {
        t
    }
}

/// `r` is `terms` with every term before `stop`, the first uninitialized
/// one, made quiet.
pub open spec fn quieted_at(terms: Seq<Term>, r: Seq<Term>, stop: int) -> bool {
    &&& r.len() == terms.len()
    &&& 0 <= stop <= terms.len()
    &&& forall|j: int| 0 <= j < stop ==> !is_uninitialized(#[trigger] terms[j])
    &&& stop < terms.len() ==> is_uninitialized(terms[stop])
    &&& forall|j: int|
        0 <= j < terms.len() ==> #[trigger] r[j] == (if j < stop {
            quiet(terms[j])
        } else {
            terms[j]
        })
}

/// `r` is `terms` with every term before the first uninitialized one made quiet.
pub open spec fn quieted(terms: Seq<Term>, r: Seq<Term>) -> bool {
    exists|stop: int| quieted_at(terms, r, stop)
}

impl ObserverBuilder {
    /// An observer for `event` over the declared fields, represented by a new entity.
    pub fn new<V: Copy>(world: &mut World<V>, event: u64, fields: &FieldsTuple) -> (r: ObserverBuilder)
        requires
            old(world).wf(),
            old(world).has_room(1),
            fields.wf(),
        ensures
            final(world).wf(),
            r.desc.events@ == seq![event],
            r.event_count == 1,
            final(world).spec_alive(r.desc.entity),
            !old(world).spec_alive(r.desc.entity),
            !r.desc.yield_existing,
            r.desc.flags == 0,
            built_from(r.query, fields),
    {
        let entity = world.entity();
        ObserverBuilder {
            desc: ObserverDesc { events: vec![event], entity, yield_existing: false, flags: 0 },
            query: QueryBuilder::new(fields),
            event_count: 1,
        }
    }

    /// An observer for `event` represented by the entity at `name`.
    pub fn new_named<V: Copy>(world: &mut World<V>, event: u64, name: &str, fields: &FieldsTuple) -> (r:
        ObserverBuilder)
        requires
            old(world).wf(),
            old(world).has_room(name@.len() + 2),
            fields.wf(),
        ensures
            final(world).wf(),
            r.desc.events@ == seq![event],
            r.event_count == 1,
            final(world).spec_alive(r.desc.entity),
            final(world).name_of(r.desc.entity) == crate::naming::split_path(name@).last(),
            ({
                let st = old(world).path_start(old(world).scope, crate::naming::split_path(name@));
                &&& final(world).resolve(st.0, st.1) == Some(r.desc.entity)
                &&& old(world).resolve(st.0, st.1) matches Some(x) ==> r.desc.entity == x
            }),
            final(world).alias_of(name@) is None ==> final(world).spec_lookup(old(world).scope, name@)
                == Some(r.desc.entity),
            crate::naming::split_path(name@).len() == 1 ==> final(world).parent_of(r.desc.entity)
                == old(world).scope,
            !r.desc.yield_existing,
            r.desc.flags == 0,
            built_from(r.query, fields),
    {
        let entity = world.entity_named(name);
        ObserverBuilder {
            desc: ObserverDesc { events: vec![event], entity, yield_existing: false, flags: 0 },
            query: QueryBuilder::new(fields),
            event_count: 1,
        }
    }

    /// An observer with no event yet.
    pub fn new_untyped<V: Copy>(world: &mut World<V>, fields: &FieldsTuple) -> (r: ObserverBuilder)
        requires
            old(world).wf(),
            old(world).has_room(1),
            fields.wf(),
        ensures
            final(world).wf(),
            r.desc.events@.len() == 0,
            r.event_count == 0,
            final(world).spec_alive(r.desc.entity),
            !old(world).spec_alive(r.desc.entity),
            !r.desc.yield_existing,
            r.desc.flags == 0,
            built_from(r.query, fields),
    {
        let entity = world.entity();
        ObserverBuilder {
            desc: ObserverDesc { events: Vec::new(), entity, yield_existing: false, flags: 0 },
            query: QueryBuilder::new(fields),
            event_count: 0,
        }
    }

    /// An observer from an existing description; an entity is created for it
    /// when the description names none.
    pub fn new_from_desc<V: Copy>(world: &mut World<V>, desc: ObserverDesc, fields: &FieldsTuple) -> (r:
        ObserverBuilder)
        requires
            old(world).wf(),
            old(world).has_room(1),
            fields.wf(),
        ensures
            final(world).wf(),
            r.desc.events@ == desc.events@,
            r.event_count == 0,
            desc.entity != 0 ==> r.desc.entity == desc.entity,
            desc.entity == 0 ==> final(world).spec_alive(r.desc.entity) && !old(world).spec_alive(
                r.desc.entity,
            ),
            r.desc.yield_existing == desc.yield_existing,
            r.desc.flags == desc.flags,
            built_from(r.query, fields),
    {
        let mut d = desc;
        if d.entity == 0 {
            d.entity = world.entity();
        }
        ObserverBuilder { desc: d, query: QueryBuilder::new(fields), event_count: 0 }
    }

    /// Adds query flags.
    pub fn observer_flags(self, flags: u32) -> (r: ObserverBuilder)
        ensures
            r.desc.flags == self.desc.flags | flags,
            r.desc.events@ == self.desc.events@,
            r.desc.entity == self.desc.entity,
            r.desc.yield_existing == self.desc.yield_existing,
            r.event_count == self.event_count,
            r.query == self.query,
    {
        let mut b = self;
        b.desc.flags = b.desc.flags | flags;
        b
    }

    /// Adds an event the observer reacts to, in slot `event_count`.
    pub fn add_event(self, event: u64) -> (r: ObserverBuilder)
        requires
            self.event_count <= self.desc.events@.len(),
            self.event_count < usize::MAX,
        ensures
            self.event_count < self.desc.events@.len() ==> r.desc.events@ == self.desc.events@.update(
                self.event_count as int,
                event,
            ),
            self.event_count == self.desc.events@.len() ==> r.desc.events@ == self.desc.events@.push(event),
            r.event_count == self.event_count + 1,
            r.desc.entity == self.desc.entity,
            r.desc.yield_existing == self.desc.yield_existing,
            r.desc.flags == self.desc.flags,
            r.query == self.query,
    {
        let mut b = self;
        let k = b.event_count;
        if k < b.desc.events.len() {
            b.desc.events.set(k, event);
        } else {
            b.desc.events.push(event);
        }
        b.event_count = k + 1;
        b
    }

    /// Runs the observer for everything already matching when it is created.
    pub fn yield_existing(self) -> (r: ObserverBuilder)
        ensures
            r.desc.yield_existing,
            r.desc.events@ == self.desc.events@,
            r.desc.entity == self.desc.entity,
            r.desc.flags == self.desc.flags,
            r.event_count == self.event_count,
            r.query == self.query,
    {
        let mut b = self;
        b.desc.yield_existing = true;
        b
    }

    /// Number of terms that come from declared fields.
    pub fn count_generic_terms(&self) -> (r: usize)
        ensures
            r == self.query.typed_count,
    {
        self.query.typed_count
    }

    /// Builds the observer; for an `OnAdd` observer the leading terms are
    /// made not to fetch data unless they ask for access explicitly.
    pub fn build(self) -> (r: Result<Observer, BuildError>)
        ensures
            match r {
                Ok(o) => {
                    &&& o.entity == self.desc.entity
                    &&& o.events@ == self.desc.events@
                    &&& o.yield_existing == self.desc.yield_existing
                    &&& o.flags == self.desc.flags
                    &&& o.query.typed_count == self.query.typed_count
                    &&& o.query.vars@ == self.query.vars@
                    &&& o.query.cache_kind == self.query.cache_kind
                    &&& o.query.group_by == self.query.group_by
                    &&& o.query.order_desc == self.query.order_desc
                    &&& (self.desc.events@.len() > 0 && self.desc.events@[0] == ON_ADD) ==> quieted(
                        self.query.terms@,
                        o.query.terms@,
                    )
                    &&& !(self.desc.events@.len() > 0 && self.desc.events@[0] == ON_ADD) ==> o.query.terms@
                        == self.query.terms@
                },
                Err(_) => true,
            },
            self.query.invalid_field is Some ==> r == Err::<Observer, BuildError>(
                BuildError::InvalidOperation(self.query.invalid_field->0),
            ),
            self.query.invalid_field is None ==> match r {
                Ok(_) => forall|i: int|
                    0 <= i < self.query.terms@.len() ==> !is_uninitialized(#[trigger] self.query.terms@[i]),
                Err(e) => e matches BuildError::UninitializedTerm(k) && k < self.query.terms@.len()
                    && is_uninitialized(self.query.terms@[k as int]) && forall|j: int|
                    0 <= j < k ==> !is_uninitialized(#[trigger] self.query.terms@[j]),
            },
    {
        let mut b = self;
        let on_add = b.desc.events.len() > 0 && b.desc.events[0] == ON_ADD;
        if on_add {
            let ghost terms0 = b.query.terms@;
            let mut i: usize = 0;
            let mut stop = false;
            while i < b.query.terms.len() && !stop
                invariant
                    i <= b.query.terms@.len(),
                    b.query.terms@.len() == terms0.len(),
                    forall|j: int| 0 <= j < i ==> !is_uninitialized(#[trigger] terms0[j]),
                    stop ==> i < terms0.len() && is_uninitialized(terms0[i as int]),
                    forall|j: int| 0 <= j < i ==> #[trigger] b.query.terms@[j] == quiet(terms0[j]),
                    forall|j: int| i <= j < terms0.len() ==> #[trigger] b.query.terms@[j] == terms0[j],
                    b.query.invalid_field == self.query.invalid_field,
                    b.desc.events@ == self.desc.events@,
                    b.desc.entity == self.desc.entity,
                    b.desc.yield_existing == self.desc.yield_existing,
                    b.desc.flags == self.desc.flags,
                    terms0 == self.query.terms@,
                    b.query.typed_count == self.query.typed_count,
                    b.query.vars@ == self.query.vars@,
                    b.query.cache_kind == self.query.cache_kind,
                    b.query.group_by == self.query.group_by,
                    b.query.order_desc == self.query.order_desc,
                decreases terms0.len() - i + (if stop { 0int } else { 1int }),
            {
                let t = b.query.terms[i];
                if t.first == 0 && t.second == 0 && t.src == crate::builder::SrcKind::This {
                    stop = true;
                } else {
                    if t.inout == InOut::Default {
                        b.query.terms.set(i, Term { inout: InOut::InOutNone, ..t });
                    }
                    i += 1;
                }
            }
            proof {
                let stop_at = i as int;
                assert forall|j: int| 0 <= j < terms0.len() implies #[trigger] b.query.terms@[j] == (if j < stop_at {
                    quiet(terms0[j])
                } else {
                    terms0[j]
                }) by {}
                assert(stop_at < terms0.len() ==> is_uninitialized(terms0[stop_at]));
                assert(quieted_at(terms0, b.query.terms@, stop_at));
                assert(quieted(terms0, b.query.terms@));
            }
        }
        proof {
            assert forall|j: int|
                #![trigger b.query.terms@[j]]
                #![trigger self.query.terms@[j]]
                0 <= j < self.query.terms@.len() implies is_uninitialized(b.query.terms@[j])
                == is_uninitialized(self.query.terms@[j]) by {
                if on_add {
                    let stop = choose|stop: int| quieted_at(self.query.terms@, b.query.terms@, stop);
                    assert(quieted_at(self.query.terms@, b.query.terms@, stop));
                }
            }
        }
        let events = b.desc.events;
        let entity = b.desc.entity;
        let yield_existing = b.desc.yield_existing;
        let flags = b.desc.flags;
        match b.query.build() {
            Ok(q) => Ok(Observer { entity, events, query: q, yield_existing, flags }),
            Err(e) => Err(e),
        }
    }
}

} // verus!
