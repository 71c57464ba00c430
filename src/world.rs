use vstd::prelude::*;
use crate::defer::{Command, DeferState};
use crate::ids::{BUILTIN_COUNT, CHILD_OF, COMPONENT, INDEX_SPAN, IS_A, MEMBER, ON_ADD, ON_SET, QUANTITY, UNIT, VECTOR, ENUM, BITMASK, FLECS, Id, entity_generation, entity_index, index_of};
use crate::store::{Entry, Stored, apply_all, apply_cmd, replay_errors, clear_entity, find_entry, has_entry, is_live, unique_entries, value_of};

verus! {

/// Why a structural operation could not be applied.
#[derive(Clone, Copy, Debug, PartialEq, Eq, Structural)]
pub enum WorldError {
    /// The target entity is not alive.
    NotAlive(u64),
}

/// A name that resolves to an entity regardless of scope.
pub struct Alias {
    pub name: Vec<char>,
    pub entity: u64,
}

/// An in-memory entity store: slots with generations, the ids each entity
/// holds, names, and one stage of deferred mutation.
pub struct World<V> {
    pub gens: Vec<u64>,
    pub alive: Vec<bool>,
    pub names: Vec<Option<Vec<char>>>,
    /// Parent of each slot's entity (0 for the root).
    pub parents: Vec<u64>,
    pub aliases: Vec<Alias>,
    pub entries: Vec<Entry<V>>,
    /// Parent given to new entities (0 for the root).
    pub scope: u64,
    /// Id added to new entities.
    pub with_id: Option<Id>,
    pub defer: DeferState,
    pub queue: Vec<Command<V>>,
    /// Inside a read-only phase.
    pub readonly: bool,
    /// Documentation strings of entities.
    pub docs: Vec<crate::doc::DocEntry>,
    /// Reflection descriptions of entities.
    pub meta: Vec<crate::meta::MetaEntry>,
}

/// `errors` reports, in order, a missing entity for each id of `ids`.
pub open spec fn errors_are(errors: Seq<WorldError>, ids: Seq<u64>) -> bool {
    &&& errors.len() == ids.len()
    &&& forall|k: int| 0 <= k < errors.len() ==> #[trigger] errors[k] == WorldError::NotAlive(ids[k])
}

/// The entries, liveness flags and queue after commands `cs` went through a
/// stage: appended to the queue while deferred, applied in order otherwise.
pub open spec fn perform<V>(
    st: Stored<V>,
    queue: Seq<Command<V>>,
    gens: Seq<u64>,
    deferred: bool,
    cs: Seq<Command<V>>,
) -> (Stored<V>, Seq<Command<V>>) {
    if deferred {
        (st, queue + cs)
    } else {
        (apply_all(st, gens, cs), queue)
    }
}

impl<V: Copy> World<V> {
    pub open spec fn wf(&self) -> bool {
        &&& self.gens@.len() == self.alive@.len()
        &&& self.names@.len() == self.alive@.len()
        &&& self.parents@.len() == self.alive@.len()
        &&& forall|k: int| 0 <= k < self.entries@.len() ==> is_live(self.gens@, self.alive@, #[trigger] self.entries@[k].entity)
        &&& BUILTIN_COUNT <= self.alive@.len() < INDEX_SPAN
        &&& forall|s: int| 0 <= s < self.gens@.len() ==> #[trigger] self.gens@[s] < INDEX_SPAN
        &&& unique_entries(self.entries@)
        &&& self.defer.depth == 0 ==> self.queue@.len() == 0
    }

    /// `wf` but for the queue, which may still hold commands when the
    /// outermost block has just closed.
    pub open spec fn wf_store(&self) -> bool {
        &&& self.gens@.len() == self.alive@.len()
        &&& self.names@.len() == self.alive@.len()
        &&& self.parents@.len() == self.alive@.len()
        &&& forall|k: int| 0 <= k < self.entries@.len() ==> is_live(self.gens@, self.alive@, #[trigger] self.entries@[k].entity)
        &&& BUILTIN_COUNT <= self.alive@.len() < INDEX_SPAN
        &&& forall|s: int| 0 <= s < self.gens@.len() ==> #[trigger] self.gens@[s] < INDEX_SPAN
        &&& unique_entries(self.entries@)
    }

    pub open spec fn spec_alive(&self, e: u64) -> bool {
        is_live(self.gens@, self.alive@, e)
    }

    pub open spec fn spec_has(&self, e: u64, id: Id) -> bool {
        self.spec_alive(e) && has_entry(self.entries@, e, id)
    }

    pub open spec fn spec_get(&self, e: u64, id: Id) -> Option<V> {
        if self.spec_alive(e) {
            value_of(self.entries@, e, id)
        } else {
            None
        }
    }

    pub open spec fn spec_deferred(&self) -> bool {
        self.defer.spec_is_deferred()
    }

    /// `new` is `self` after the commands `cs` went through the stage:
    /// queued while deferred, applied otherwise; nothing else changed.
    pub open spec fn performed(&self, new: &Self, cs: Seq<Command<V>>) -> bool {
        let p = perform(
            (self.entries@, self.alive@, self.docs@),
            self.queue@,
            self.gens@,
            self.spec_deferred(),
            cs,
        );
        &&& (new.entries@, new.alive@, new.docs@) == p.0
        &&& new.queue@ == p.1
        &&& new.gens@ == self.gens@
        &&& new.names@ == self.names@
        &&& new.parents@ == self.parents@
        &&& new.aliases@ == self.aliases@
        &&& new.scope == self.scope
        &&& new.with_id == self.with_id
        &&& new.defer == self.defer
        &&& new.readonly == self.readonly
    }

    /// `new` is `self` after a deferred block was opened.
    pub open spec fn begun(&self, new: &Self) -> bool {
        &&& new.defer.depth == self.defer.depth + 1
        &&& new.defer.suspended == self.defer.suspended
        &&& new.entries@ == self.entries@
        &&& new.alive@ == self.alive@
        &&& new.gens@ == self.gens@
        &&& new.queue@ == self.queue@
        &&& new.names@ == self.names@
        &&& new.docs@ == self.docs@
        &&& new.parents@ == self.parents@
    }

    /// `new` is `self` after buffering was suspended.
    pub open spec fn suspended_to(&self, new: &Self) -> bool {
        &&& new.defer.depth == self.defer.depth
        &&& new.defer.suspended
        &&& new.entries@ == self.entries@
        &&& new.alive@ == self.alive@
        &&& new.gens@ == self.gens@
        &&& new.queue@ == self.queue@
        &&& new.names@ == self.names@
        &&& new.docs@ == self.docs@
        &&& new.parents@ == self.parents@
    }

    /// `new` is `self` after buffering resumed.
    pub open spec fn resumed_to(&self, new: &Self) -> bool {
        &&& new.defer.depth == self.defer.depth
        &&& !new.defer.suspended
        &&& new.entries@ == self.entries@
        &&& new.alive@ == self.alive@
        &&& new.gens@ == self.gens@
        &&& new.queue@ == self.queue@
        &&& new.names@ == self.names@
        &&& new.docs@ == self.docs@
        &&& new.parents@ == self.parents@
    }

    /// `new` is `self` after a deferred block was closed: the outermost one
    /// replays the queue in order, an inner one changes nothing else.
    pub open spec fn ended(&self, new: &Self) -> bool {
        &&& new.defer.depth == self.defer.depth - 1
        &&& new.gens@ == self.gens@
        &&& new.names@ == self.names@
        &&& new.parents@ == self.parents@
        &&& self.defer.depth == 1 ==> {
            &&& (new.entries@, new.alive@, new.docs@) == apply_all(
                (self.entries@, self.alive@, self.docs@),
                self.gens@,
                self.queue@,
            )
            &&& new.queue@.len() == 0
            &&& !new.defer.suspended
        }
        &&& self.defer.depth > 1 ==> {
            &&& new.entries@ == self.entries@
            &&& new.alive@ == self.alive@
            &&& new.docs@ == self.docs@
            &&& new.queue@ == self.queue@
            &&& new.defer.suspended == self.defer.suspended
        }
    }

    /// A world holding only the builtin entities.
    pub fn new() -> (r: World<V>)
        ensures
            r.wf(),
            r.entries@.len() == 0,
            r.queue@.len() == 0,
            r.scope == 0,
            r.with_id is None,
            r.defer.depth == 0,
            !r.defer.suspended,
            forall|s: int| 0 < s < BUILTIN_COUNT ==> #[trigger] r.alive@[s],
            r.alive@.len() == BUILTIN_COUNT,
    {
        let mut gens: Vec<u64> = Vec::new();
        let mut alive: Vec<bool> = Vec::new();
        let mut names: Vec<Option<Vec<char>>> = Vec::new();
        let mut parents: Vec<u64> = Vec::new();
        let mut s: u64 = 0;
        while s < BUILTIN_COUNT
            invariant
                s <= BUILTIN_COUNT,
                gens@.len() == s,
                alive@.len() == s,
                names@.len() == s,
                parents@.len() == s,
                forall|j: int| 0 <= j < s ==> #[trigger] gens@[j] == 0,
                forall|j: int| 0 < j < s ==> #[trigger] alive@[j],
            decreases BUILTIN_COUNT - s,
        {
            gens.push(0);
            alive.push(s != 0);
            names.push(builtin_name(s));
            parents.push(if s == 0 || s == FLECS {
                0
            } else {
                FLECS
            });
            s += 1;
        }
        World {
            gens,
            alive,
            names,
            parents,
            aliases: Vec::new(),
            entries: Vec::new(),
            scope: 0,
            with_id: None,
            defer: DeferState::new(),
            queue: Vec::new(),
            readonly: false,
            docs: Vec::new(),
            meta: Vec::new(),
        }
    }

    /// Whether `e` is a live entity.
    pub fn is_alive(&self, e: u64) -> (r: bool)
        requires
            self.wf(),
        ensures
            r == self.spec_alive(e),
    {
        let s = entity_index(e);
        s > 0 && s < self.alive.len() as u64 && self.alive[s as usize] && self.gens[s as usize]
            == entity_generation(e)
    }

    /// Whether `e` is alive and holds `id`.
    pub fn has(&self, e: u64, id: Id) -> (r: bool)
        requires
            self.wf(),
        ensures
            r == self.spec_has(e, id),
    {
        self.is_alive(e) && find_entry(&self.entries, e, id).is_some()
    }

    /// Whether `e` holds `id` itself (not through inheritance).
    pub fn owns(&self, e: u64, id: Id) -> (r: bool)
        requires
            self.wf(),
        ensures
            r == self.spec_has(e, id),
    {
        self.has(e, id)
    }

    /// The value `e` holds for `id`.
    pub fn get(&self, e: u64, id: Id) -> (r: Option<V>)
        requires
            self.wf(),
        ensures
            r == self.spec_get(e, id),
    {
        if !self.is_alive(e) {
            return None;
        }
        match find_entry(&self.entries, e, id) {
            Some(k) => self.entries[k].value,
            None => None,
        }
    }

    /// Applies one command now; fails when its entity is not alive.
    pub fn apply(&mut self, c: Command<V>) -> (r: Result<(), WorldError>)
        requires
            old(self).wf(),
        ensures
            final(self).wf(),
            (final(self).entries@, final(self).alive@, final(self).docs@) == apply_cmd(
                (old(self).entries@, old(self).alive@, old(self).docs@),
                old(self).gens@,
                c,
            ),
            final(self).queue@ == old(self).queue@,
            final(self).gens@ == old(self).gens@,
            final(self).names@ == old(self).names@,
            final(self).parents@ == old(self).parents@,
            final(self).aliases@ == old(self).aliases@,
            final(self).scope == old(self).scope,
            final(self).with_id == old(self).with_id,
            final(self).defer == old(self).defer,
            final(self).readonly == old(self).readonly,
            r == (if old(self).spec_alive(c.spec_entity()) {
                Ok::<(), WorldError>(())
            } else {
                Err(WorldError::NotAlive(c.spec_entity()))
            }),
    {
        let e = match c {
            Command::Add(e, _) => e,
            Command::Remove(e, _) => e,
            Command::Assign(e, _, _) => e,
            Command::Clear(e) => e,
            Command::Delete(e) => e,
            Command::Document(e, _, _) => e,
        };
        if !self.is_alive(e) {
            return Err(WorldError::NotAlive(e));
        }
        match c {
            Command::Add(e, id) => {
                if find_entry(&self.entries, e, id).is_none() {
                    let ghost prev = self.entries@;
                    self.entries.push(Entry { entity: e, id, value: None });
                    proof {
                        lemma_push_unique(prev, Entry { entity: e, id, value: None });
                        assert forall|k: int| 0 <= k < self.entries@.len() implies is_live(self.gens@, self.alive@, #[trigger] self.entries@[k].entity) by {
                            if k < prev.len() { assert(self.entries@[k] == prev[k]); }
                        }
                    }
                }
            },
            Command::Remove(e, id) => {
                match find_entry(&self.entries, e, id) {
                    Some(k) => {
                        let ghost prev = self.entries@;
                        self.entries.remove(k);
                        proof {
                            lemma_remove_unique(prev, k as int);
                            assert forall|j: int| 0 <= j < self.entries@.len() implies is_live(self.gens@, self.alive@, #[trigger] self.entries@[j].entity) by {
                                if j < k { assert(self.entries@[j] == prev[j]); } else { assert(self.entries@[j] == prev[j + 1]); }
                            }
                        }
                    },
                    None => {},
                }
            },
            Command::Assign(e, id, v) => {
                match find_entry(&self.entries, e, id) {
                    Some(k) => {
                        let ghost prev = self.entries@;
                        self.entries.set(k, Entry { entity: e, id, value: Some(v) });
                        proof {
                            assert forall|j: int| 0 <= j < self.entries@.len() implies is_live(self.gens@, self.alive@, #[trigger] self.entries@[j].entity) by {
                                assert(self.entries@[j].entity == prev[j].entity);
                            }
                            assert forall|a: int, b: int|
                                0 <= a < self.entries@.len() && 0 <= b < self.entries@.len() && a
                                    != b implies !crate::store::entry_is(
                                #[trigger] self.entries@[a],
                                self.entries@[b].entity,
                                self.entries@[b].id,
                            ) || !crate::store::entry_is(
                                #[trigger] self.entries@[b],
                                self.entries@[a].entity,
                                self.entries@[a].id,
                            ) by {
                                assert(self.entries@[a].entity == prev[a].entity && self.entries@[a].id
                                    == prev[a].id);
                                assert(self.entries@[b].entity == prev[b].entity && self.entries@[b].id
                                    == prev[b].id);
                            }
                        }
                    },
                    None => {
                        let ghost prev = self.entries@;
                        self.entries.push(Entry { entity: e, id, value: Some(v) });
                        proof {
                            lemma_push_unique(prev, Entry { entity: e, id, value: Some(v) });
                            assert forall|k: int| 0 <= k < self.entries@.len() implies is_live(self.gens@, self.alive@, #[trigger] self.entries@[k].entity) by {
                                if k < prev.len() { assert(self.entries@[k] == prev[k]); }
                            }
                        }
                    },
                }
            },
            Command::Clear(e) => {
                let mut es: Vec<Entry<V>> = Vec::new();
                core::mem::swap(&mut self.entries, &mut es);
                let ghost src = es@;
                self.entries = clear_entity(es, e);
                proof {
                    assert forall|k: int| 0 <= k < self.entries@.len() implies is_live(self.gens@, self.alive@, #[trigger] self.entries@[k].entity) by {
                        let j = choose|j: int| 0 <= j < src.len() && self.entries@[k].entity == src[j].entity;
                        assert(is_live(self.gens@, self.alive@, src[j].entity));
                    }
                }
            },
            Command::Delete(e) => {
                let mut es: Vec<Entry<V>> = Vec::new();
                core::mem::swap(&mut self.entries, &mut es);
                let ghost src = es@;
                let ghost alive0 = self.alive@;
                self.entries = clear_entity(es, e);
                let s = entity_index(e) as usize;
                self.alive.set(s, false);
                proof {
                    assert(self.docs@ == old(self).docs@);
                    assert forall|k: int| 0 <= k < self.entries@.len() implies is_live(self.gens@, self.alive@, #[trigger] self.entries@[k].entity) by {
                        let x = self.entries@[k].entity;
                        let j = choose|j: int| 0 <= j < src.len() && x == src[j].entity;
                        assert(is_live(self.gens@, alive0, src[j].entity));
                        if index_of(x) == index_of(e) {
                            crate::ids::lemma_id_parts(x, e);
                        }
                    }
                }
            },
            Command::Document(e, kind, text) => {
                self.write_doc(e, kind, text);
            },
        }
        Ok(())
    }

    /// Sends a command through the stage: queued while deferred, applied otherwise.
    pub fn submit(&mut self, c: Command<V>) -> (r: Result<(), WorldError>)
        requires
            old(self).wf(),
        ensures
            final(self).wf(),
            old(self).performed(final(self), seq![c]),
            old(self).spec_deferred() ==> r is Ok,
            !old(self).spec_deferred() ==> r == (if old(self).spec_alive(c.spec_entity()) {
                Ok::<(), WorldError>(())
            } else {
                Err(WorldError::NotAlive(c.spec_entity()))
            }),
    {
        if self.defer.is_deferred() {
            self.queue.push(c);
            proof {
                assert(old(self).queue@ + seq![c] =~= self.queue@);
            }
            Ok(())
        } else {
            let r = self.apply(c);
            proof {
                let st = (old(self).entries@, old(self).alive@, old(self).docs@);
                assert(seq![c].drop_last() =~= Seq::<Command<V>>::empty());
                assert(apply_all(st, old(self).gens@, Seq::<Command<V>>::empty()) == st);
                assert(seq![c].last() == c);
                assert(apply_all(st, old(self).gens@, seq![c]) == apply_cmd(st, old(self).gens@, c));
            }
            r
        }
    }

    /// Adds `id` to `e`.
    pub fn add(&mut self, e: u64, id: Id) -> (r: Result<(), WorldError>)
        requires
            old(self).wf(),
        ensures
            final(self).wf(),
            old(self).performed(final(self), seq![Command::Add(e, id)]),
            r is Ok <==> (old(self).spec_deferred() || old(self).spec_alive(e)),
    {
        self.submit(Command::Add(e, id))
    }

    /// Removes `id` from `e`.
    pub fn remove(&mut self, e: u64, id: Id) -> (r: Result<(), WorldError>)
        requires
            old(self).wf(),
        ensures
            final(self).wf(),
            old(self).performed(final(self), seq![Command::Remove(e, id)]),
            r is Ok <==> (old(self).spec_deferred() || old(self).spec_alive(e)),
    {
        self.submit(Command::Remove(e, id))
    }

    /// Sets the value of `id` on `e`, adding the id if needed.
    pub fn set(&mut self, e: u64, id: Id, v: V) -> (r: Result<(), WorldError>)
        requires
            old(self).wf(),
        ensures
            final(self).wf(),
            old(self).performed(final(self), seq![Command::Assign(e, id, v)]),
            r is Ok <==> (old(self).spec_deferred() || old(self).spec_alive(e)),
    {
        self.submit(Command::Assign(e, id, v))
    }

    /// Adds `id` when `cond` holds, removes it otherwise.
    pub fn add_if(&mut self, e: u64, id: Id, cond: bool) -> (r: Result<(), WorldError>)
        requires
            old(self).wf(),
        ensures
            final(self).wf(),
            cond ==> old(self).performed(final(self), seq![Command::Add(e, id)]),
            !cond ==> old(self).performed(final(self), seq![Command::Remove(e, id)]),
            r is Ok <==> (old(self).spec_deferred() || old(self).spec_alive(e)),
    {
        if cond {
            self.add(e, id)
        } else {
            self.remove(e, id)
        }
    }

    /// Removes every id from `e`.
    pub fn clear(&mut self, e: u64) -> (r: Result<(), WorldError>)
        requires
            old(self).wf(),
        ensures
            final(self).wf(),
            old(self).performed(final(self), seq![Command::Clear(e)]),
            r is Ok <==> (old(self).spec_deferred() || old(self).spec_alive(e)),
    {
        self.submit(Command::Clear(e))
    }

    /// Deletes `e`; its slot is reused by a later entity with a new generation.
    pub fn destruct(&mut self, e: u64) -> (r: Result<(), WorldError>)
        requires
            old(self).wf(),
        ensures
            final(self).wf(),
            old(self).performed(final(self), seq![Command::Delete(e)]),
            r is Ok <==> (old(self).spec_deferred() || old(self).spec_alive(e)),
    {
        self.submit(Command::Delete(e))
    }

    /// Opens a deferred block.
    pub fn defer_begin(&mut self) -> (r: bool)
        requires
            old(self).wf(),
            old(self).defer.depth < u32::MAX,
        ensures
            final(self).wf(),
            old(self).begun(final(self)),
            r == (old(self).defer.depth == 0),
    {
        self.defer.begin()
    }

    /// Closes a deferred block; closing the outermost one replays the queue
    /// in the order the commands were issued. Returns the commands' errors.
    pub fn defer_end(&mut self) -> (r: Vec<WorldError>)
        requires
            old(self).wf(),
            old(self).defer.depth > 0,
        ensures
            final(self).wf(),
            final(self).defer.depth == old(self).defer.depth - 1,
            final(self).gens@ == old(self).gens@,
            final(self).names@ == old(self).names@,
            old(self).defer.depth > 1 ==> final(self).entries@ == old(self).entries@
                && final(self).alive@ == old(self).alive@ && final(self).queue@ == old(self).queue@
                && final(self).defer.suspended == old(self).defer.suspended && r@.len() == 0,
            old(self).defer.depth == 1 ==> (final(self).entries@, final(self).alive@, final(self).docs@) == apply_all(
                (old(self).entries@, old(self).alive@, old(self).docs@),
                old(self).gens@,
                old(self).queue@,
            ) && final(self).queue@.len() == 0 && !final(self).defer.suspended,
            final(self).readonly == old(self).readonly,
            final(self).scope == old(self).scope,
            final(self).with_id == old(self).with_id,
            final(self).aliases@ == old(self).aliases@,
            final(self).parents@ == old(self).parents@,
            old(self).ended(final(self)),
            old(self).defer.depth == 1 ==> errors_are(
                r@,
                replay_errors((old(self).entries@, old(self).alive@, old(self).docs@), old(self).gens@, old(self).queue@),
            ),
    {
        if self.defer.end() {
            self.flush()
        } else {
            Vec::new()
        }
    }

    /// Replays the queue in order; returns the error of each command whose
    /// entity is not alive at its turn.
    fn flush(&mut self) -> (r: Vec<WorldError>)
        requires
            old(self).wf_store(),
        ensures
            final(self).wf(),
            (final(self).entries@, final(self).alive@, final(self).docs@) == apply_all(
                (old(self).entries@, old(self).alive@, old(self).docs@),
                old(self).gens@,
                old(self).queue@,
            ),
            errors_are(
                r@,
                replay_errors((old(self).entries@, old(self).alive@, old(self).docs@), old(self).gens@, old(self).queue@),
            ),
            final(self).queue@.len() == 0,
            final(self).gens@ == old(self).gens@,
            final(self).names@ == old(self).names@,
            final(self).defer == old(self).defer,
            final(self).readonly == old(self).readonly,
            final(self).scope == old(self).scope,
            final(self).with_id == old(self).with_id,
            final(self).aliases@ == old(self).aliases@,
            final(self).parents@ == old(self).parents@,
    {
        let ghost st0 = (old(self).entries@, old(self).alive@, old(self).docs@);
        let mut cmds: Vec<Command<V>> = Vec::new();
        core::mem::swap(&mut self.queue, &mut cmds);
        assert(self.wf());
        let ghost all = cmds@;
        let total = cmds.len();
        let mut errors: Vec<WorldError> = Vec::new();
        let mut i: usize = 0;
        while cmds.len() > 0
            invariant
                self.wf(),
                i <= all.len(),
                all.len() == total,
                all == old(self).queue@,
                cmds@ == all.subrange(i as int, all.len() as int),
                (self.entries@, self.alive@, self.docs@) == apply_all(st0, old(self).gens@, all.subrange(0, i as int)),
                errors_are(errors@, replay_errors(st0, old(self).gens@, all.subrange(0, i as int))),
                self.queue@.len() == 0,
                self.gens@ == old(self).gens@,
                self.names@ == old(self).names@,
                self.defer == old(self).defer,
                self.readonly == old(self).readonly,
                self.scope == old(self).scope,
                self.with_id == old(self).with_id,
                self.aliases@ == old(self).aliases@,
                self.parents@ == old(self).parents@,
            decreases cmds@.len(),
        {
            let c = cmds.remove(0);
            let ghost before = (self.entries@, self.alive@, self.docs@);
            let ghost errs = errors@;
            proof {
                assert(c == all[i as int]);
                assert(all.subrange(0, i + 1).drop_last() =~= all.subrange(0, i as int));
                assert(all.subrange(0, i + 1).last() == c);
                assert(cmds@ =~= all.subrange(i + 1, all.len() as int));
            }
            match self.apply(c) {
                Ok(()) => {},
                Err(err) => {
                    errors.push(err);
                },
            }
            proof {
                assert forall|k: int| 0 <= k < errors@.len() implies #[trigger] errors@[k] == WorldError::NotAlive(
                    replay_errors(st0, old(self).gens@, all.subrange(0, i + 1))[k],
                ) by {
                    if k < errs.len() {
                        assert(errors@[k] == errs[k]);
                    }
                }
            }
            i += 1;
        }
        proof {
            assert(all.subrange(0, all.len() as int) =~= all);
        }
        errors
    }

    /// Lets mutations through immediately while the deferred block stays open.
    pub fn defer_suspend(&mut self)
        requires
            old(self).wf(),
        ensures
            final(self).wf(),
            old(self).suspended_to(final(self)),
    {
        self.defer.suspend()
    }

    /// Buffers mutations again.
    pub fn defer_resume(&mut self)
        requires
            old(self).wf(),
        ensures
            final(self).wf(),
            old(self).resumed_to(final(self)),
    {
        self.defer.resume()
    }

    /// Whether mutations are being queued.
    pub fn is_deferred(&self) -> (r: bool)
        ensures
            r == self.spec_deferred(),
    {
        self.defer.is_deferred()
    }

    /// Enters a read-only phase: structural mutations are queued until it ends.
    pub fn readonly_begin(&mut self)
        requires
            old(self).wf(),
            old(self).defer.depth < u32::MAX,
        ensures
            final(self).wf(),
            final(self).readonly,
            old(self).begun(final(self)),
    {
        self.defer_begin();
        self.readonly = true;
    }

    /// Leaves the read-only phase; what was queued becomes visible at once.
    pub fn readonly_end(&mut self) -> (r: Vec<WorldError>)
        requires
            old(self).wf(),
            old(self).defer.depth > 0,
        ensures
            final(self).wf(),
            !final(self).readonly,
            old(self).ended(final(self)),
            old(self).defer.depth == 1 ==> errors_are(
                r@,
                replay_errors((old(self).entries@, old(self).alive@, old(self).docs@), old(self).gens@, old(self).queue@),
            ),
    {
        let r = self.defer_end();
        self.readonly = false;
        r
    }
}

/// A command sent while not deferred is applied at once.
pub proof fn lemma_applied_now<V: Copy>(w0: &World<V>, w1: &World<V>, c: Command<V>)
    requires
        w0.performed(w1, seq![c]),
        !w0.spec_deferred(),
    ensures
        (w1.entries@, w1.alive@, w1.docs@) == apply_cmd((w0.entries@, w0.alive@, w0.docs@), w0.gens@, c),
{
    crate::store::lemma_apply_one((w0.entries@, w0.alive@, w0.docs@), w0.gens@, c);
}

/// Only deletion changes which entities are alive.
pub proof fn lemma_performed_alive<V: Copy>(w0: &World<V>, w1: &World<V>, c: Command<V>)
    requires
        w0.performed(w1, seq![c]),
        !(c is Delete),
    ensures
        w1.alive@ == w0.alive@,
        forall|x: u64| w1.spec_alive(x) == w0.spec_alive(x),
        forall|x: u64| #![auto] w1.names@[crate::ids::index_of(x) as int] == w0.names@[crate::ids::index_of(x) as int],
{
    crate::store::lemma_apply_one((w0.entries@, w0.alive@, w0.docs@), w0.gens@, c);
}

/// No commands leave a world as it is.
pub proof fn lemma_performed_none<V: Copy>(w: &World<V>)
    ensures
        w.performed(w, Seq::<Command<V>>::empty()),
{
    assert(w.queue@ + Seq::<Command<V>>::empty() =~= w.queue@);
}

/// Commands sent one after another through the stage compose.
pub proof fn lemma_performed_push<V: Copy>(
    w0: &World<V>,
    w1: &World<V>,
    w2: &World<V>,
    cs: Seq<Command<V>>,
    c: Command<V>,
)
    requires
        w0.performed(w1, cs),
        w1.performed(w2, seq![c]),
    ensures
        w0.performed(w2, cs.push(c)),
{
    assert(cs.push(c).drop_last() =~= cs);
    assert(w0.queue@ + cs + seq![c] =~= w0.queue@ + cs.push(c));
    crate::store::lemma_apply_one((w1.entries@, w1.alive@, w1.docs@), w1.gens@, c);
}

/// Name of a builtin slot.
fn builtin_name(s: u64) -> (r: Option<Vec<char>>)
{
    if s == CHILD_OF {
        Some(vec!['C', 'h', 'i', 'l', 'd', 'O', 'f'])
    } else if s == IS_A {
        Some(vec!['I', 's', 'A'])
    } else if s == COMPONENT {
        Some(vec!['C', 'o', 'm', 'p', 'o', 'n', 'e', 'n', 't'])
    } else if s == QUANTITY {
        Some(vec!['Q', 'u', 'a', 'n', 't', 'i', 't', 'y'])
    } else if s == MEMBER {
        Some(vec!['M', 'e', 'm', 'b', 'e', 'r'])
    } else if s == VECTOR {
        Some(vec!['V', 'e', 'c', 't', 'o', 'r'])
    } else if s == ON_ADD {
        Some(vec!['O', 'n', 'A', 'd', 'd'])
    } else if s == ON_SET {
        Some(vec!['O', 'n', 'S', 'e', 't'])
    } else if s == UNIT {
        Some(vec!['U', 'n', 'i', 't'])
    } else if s == ENUM {
        Some(vec!['E', 'n', 'u', 'm'])
    } else if s == BITMASK {
        Some(vec!['B', 'i', 't', 'm', 'a', 's', 'k'])
    } else if s == FLECS {
        Some(vec!['f', 'l', 'e', 'c', 's'])
    } else {
        None
    }
}

/// Pushing an entry for a pair that is not held keeps ids unique.
pub proof fn lemma_push_unique<V>(es: Seq<Entry<V>>, x: Entry<V>)
    requires
        unique_entries(es),
        !has_entry(es, x.entity, x.id),
    ensures
        unique_entries(es.push(x)),
{
    let n = es.push(x);
    assert forall|a: int, b: int|
        0 <= a < n.len() && 0 <= b < n.len() && a != b implies !crate::store::entry_is(
        #[trigger] n[a],
        n[b].entity,
        n[b].id,
    ) || !crate::store::entry_is(#[trigger] n[b], n[a].entity, n[a].id) by {
        if a == es.len() {
            assert(n[b] == es[b]);
            if crate::store::entry_is(n[b], x.entity, x.id) {
                assert(crate::store::entry_is(es[b], x.entity, x.id));
            }
        } else if b == es.len() {
            assert(n[a] == es[a]);
            if crate::store::entry_is(n[a], x.entity, x.id) {
                assert(crate::store::entry_is(es[a], x.entity, x.id));
            }
        } else {
            assert(n[a] == es[a] && n[b] == es[b]);
        }
    }
}

/// Removing one entry keeps ids unique.
pub proof fn lemma_remove_unique<V>(es: Seq<Entry<V>>, k: int)
    requires
        unique_entries(es),
        0 <= k < es.len(),
    ensures
        unique_entries(es.remove(k)),
{
    let n = es.remove(k);
    assert forall|a: int, b: int|
        0 <= a < n.len() && 0 <= b < n.len() && a != b implies !crate::store::entry_is(
        #[trigger] n[a],
        n[b].entity,
        n[b].id,
    ) || !crate::store::entry_is(#[trigger] n[b], n[a].entity, n[a].id) by {
        let oa = if a < k { a } else { a + 1 };
        let ob = if b < k { b } else { b + 1 };
        assert(n[a] == es[oa] && n[b] == es[ob]);
    }
}

} // verus!
