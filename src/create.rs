use vstd::prelude::*;
use crate::defer::Command;
use crate::ids::{BUILTIN_COUNT, INDEX_SPAN, Id, compose_id, entity_index, index_of};
use crate::naming::{fresh_seqs, lemma_named_child_fresh, lemma_resolve_fresh, lemma_resolve_push, resolve_in, split_path, split_segments};
use crate::store::{apply_all, is_live};
use crate::text::{chars_eq, chars_of};
use crate::world::{Alias, World};

verus! {

/// What creating an entity sends through the stage: the id new entities are given.
pub open spec fn creation_cmds<V>(e: u64, with_id: Option<Id>) -> Seq<Command<V>> {
    match with_id {
        Some(id) => seq![Command::Add(e, id)],
        None => Seq::empty(),
    }
}

impl<V: Copy> World<V> {
    /// Whether a new entity has room: slots are bounded by the id's low half.
    pub open spec fn has_room(&self, n: nat) -> bool {
        self.alive@.len() + n < INDEX_SPAN
    }

    /// `new` is `self` with slot `s` newly taken by an unnamed entity under
    /// `parent`; every other slot is as it was.
    pub open spec fn fresh_slot(&self, new: &Self, s: int, parent: u64) -> bool {
        &&& 0 < s <= self.alive@.len()
        &&& s < self.alive@.len() ==> !self.alive@[s]
        &&& s == self.alive@.len() ==> new.alive@.len() == self.alive@.len() + 1
        &&& s < self.alive@.len() ==> new.alive@.len() == self.alive@.len()
        &&& new.alive@[s]
        &&& new.parents@[s] == parent
        &&& new.names@[s] is None
        &&& forall|t: int|
            0 <= t < self.alive@.len() && t != s ==> #[trigger] new.alive@[t] == self.alive@[t]
                && new.parents@[t] == self.parents@[t] && new.names@[t] == self.names@[t] && new.gens@[t]
                == self.gens@[t]
    }

    /// Takes the lowest free slot (or a new one) for a fresh entity.
    fn take_slot(&mut self, parent: u64) -> (r: u64)
        requires
            old(self).wf(),
            old(self).has_room(1),
        ensures
            final(self).wf(),
            final(self).spec_alive(r),
            !old(self).spec_alive(r),
            index_of(r) >= BUILTIN_COUNT,
            forall|x: u64| old(self).spec_alive(x) ==> final(self).spec_alive(x),
            forall|x: u64| final(self).spec_alive(x) ==> old(self).spec_alive(x) || x == r,
            final(self).alive@.len() <= old(self).alive@.len() + 1,
            final(self).names@[index_of(r) as int] is None,
            final(self).parents@[index_of(r) as int] == parent,
            forall|x: u64| #![auto] old(self).spec_alive(x) ==> final(self).names@[index_of(x) as int]
                == old(self).names@[index_of(x) as int] && final(self).parents@[index_of(x) as int]
                == old(self).parents@[index_of(x) as int],
            final(self).entries@ == old(self).entries@,
            final(self).docs@ == old(self).docs@,
            final(self).queue@ == old(self).queue@,
            final(self).aliases@ == old(self).aliases@,
            final(self).scope == old(self).scope,
            final(self).with_id == old(self).with_id,
            final(self).defer == old(self).defer,
            final(self).readonly == old(self).readonly,
            old(self).fresh_slot(final(self), index_of(r) as int, parent),
    {
        let mut s: usize = BUILTIN_COUNT as usize;
        while s < self.alive.len() && self.alive[s]
            invariant
                self.wf(),
                BUILTIN_COUNT <= s <= self.alive@.len(),
            decreases self.alive@.len() - s,
        {
            s += 1;
        }
        let ghost old_alive = self.alive@;
        let ghost old_gens = self.gens@;
        if s < self.alive.len() {
            let g = self.gens[s];
            let ng = if g + 1 < INDEX_SPAN {
                g + 1
            } else {
                0
            };
            self.gens.set(s, ng);
            self.alive.set(s, true);
            self.names.set(s, None);
            self.parents.set(s, parent);
        } else {
            self.gens.push(0);
            self.alive.push(true);
            self.names.push(None);
            self.parents.push(parent);
        }
        let r = compose_id(s as u64, self.gens[s]);
        proof {
            assert forall|x: u64| old_alive.len() > 0 && is_live(old_gens, old_alive, x) implies index_of(
                x,
            ) != s && is_live(self.gens@, self.alive@, x) by {}
            assert forall|k: int| 0 <= k < self.entries@.len() implies is_live(
                self.gens@,
                self.alive@,
                #[trigger] self.entries@[k].entity,
            ) by {
                assert(is_live(old_gens, old_alive, self.entries@[k].entity));
            }
            assert forall|x: u64| is_live(self.gens@, self.alive@, x) implies is_live(
                old_gens,
                old_alive,
                x,
            ) || x == r by {
                if index_of(x) == s {
                    crate::ids::lemma_id_parts(x, r);
                }
            }
        }
        r
    }

    /// Creates an entity under `parent`, giving it the current `with` id.
    pub fn entity_in(&mut self, parent: u64) -> (r: u64)
        requires
            old(self).wf(),
            old(self).has_room(1),
        ensures
            final(self).wf(),
            final(self).spec_alive(r),
            !old(self).spec_alive(r),
            final(self).parent_of(r) == parent,
            final(self).name_of(r) == Seq::<char>::empty(),
            final(self).alive@.len() <= old(self).alive@.len() + 1,
            forall|x: u64| old(self).spec_alive(x) ==> final(self).spec_alive(x),
            forall|x: u64| #![auto] old(self).spec_alive(x) ==> final(self).name_of(x) == old(self).name_of(x)
                && final(self).parent_of(x) == old(self).parent_of(x),
            (final(self).entries@, final(self).queue@) == (if old(self).spec_deferred() {
                (old(self).entries@, old(self).queue@ + creation_cmds(r, old(self).with_id))
            } else {
                (
                    apply_all(
                        (old(self).entries@, final(self).alive@, old(self).docs@),
                        final(self).gens@,
                        creation_cmds(r, old(self).with_id),
                    ).0,
                    old(self).queue@,
                )
            }),
            final(self).docs@ == old(self).docs@,
            final(self).aliases@ == old(self).aliases@,
            final(self).scope == old(self).scope,
            final(self).with_id == old(self).with_id,
            final(self).defer == old(self).defer,
            old(self).fresh_slot(final(self), index_of(r) as int, parent),
    {
        let r = self.take_slot(parent);
        match self.with_id {
            Some(id) => {
                let ghost mid_entries = self.entries@;
                let ghost mid_docs = self.docs@;
                let ghost mid_alive = self.alive@;
                let _ = self.submit(Command::Add(r, id));
                proof {
                    assert(creation_cmds::<V>(r, old(self).with_id) == seq![Command::<V>::Add(r, id)]);
                    crate::store::lemma_apply_one((mid_entries, mid_alive, mid_docs), self.gens@, Command::Add(r, id));
                    assert(self.alive@ == mid_alive);
                    assert(self.docs@ == mid_docs);
                }
            },
            None => {
                proof {
                    assert(creation_cmds::<V>(r, old(self).with_id) =~= Seq::<Command<V>>::empty());
                }
            },
        }
        r
    }

    /// Creates an entity in the current scope.
    pub fn entity(&mut self) -> (r: u64)
        requires
            old(self).wf(),
            old(self).has_room(1),
        ensures
            final(self).wf(),
            final(self).spec_alive(r),
            !old(self).spec_alive(r),
            final(self).parent_of(r) == old(self).scope,
            final(self).name_of(r) == Seq::<char>::empty(),
            forall|x: u64| old(self).spec_alive(x) ==> final(self).spec_alive(x),
            (final(self).entries@, final(self).queue@) == (if old(self).spec_deferred() {
                (old(self).entries@, old(self).queue@ + creation_cmds(r, old(self).with_id))
            } else {
                (
                    apply_all(
                        (old(self).entries@, final(self).alive@, old(self).docs@),
                        final(self).gens@,
                        creation_cmds(r, old(self).with_id),
                    ).0,
                    old(self).queue@,
                )
            }),
            final(self).scope == old(self).scope,
            final(self).with_id == old(self).with_id,
            final(self).defer == old(self).defer,
    {
        let scope = self.scope;
        self.entity_in(scope)
    }

    /// A handle on the entity with id `id`.
    pub fn entity_from_id(&self, id: u64) -> (r: u64)
        ensures
            r == id,
    {
        id
    }

    /// The null entity.
    pub fn entity_null(&self) -> (r: u64)
        ensures
            r == 0,
    {
        0
    }

    /// The entity a path names from `parent`, following each segment to the
    /// child of that name.
    pub open spec fn resolve(&self, parent: u64, segs: Seq<Seq<char>>) -> Option<u64> {
        resolve_in(self.alive@, self.parents@, self.names@, self.gens@, parent, segs)
    }

    /// Where a path starts and which of its segments name entities: a
    /// leading `::` starts at the root.
    pub open spec fn path_start(&self, from: u64, segs: Seq<Seq<char>>) -> (u64, Seq<Seq<char>>) {
        if segs.len() > 1 && segs[0].len() == 0 {
            (0, segs.drop_first())
        } else {
            (from, segs)
        }
    }

    /// The entity of alias `name`, if one was set.
    pub open spec fn alias_of(&self, name: Seq<char>) -> Option<u64> {
        if exists|k: int| 0 <= k < self.aliases@.len() && self.aliases@[k].name@ == name {
            let k = choose|k: int|
                0 <= k < self.aliases@.len() && self.aliases@[k].name@ == name && forall|j: int|
                    0 <= j < k ==> self.aliases@[j].name@ != name;
            Some(self.aliases@[k].entity)
        } else {
            None
        }
    }

    /// Finds an alias.
    fn find_alias(&self, name: &Vec<char>) -> (r: Option<u64>)
        ensures
            r == self.alias_of(name@),
    {
        let mut k: usize = 0;
        while k < self.aliases.len()
            invariant
                k <= self.aliases@.len(),
                forall|j: int| 0 <= j < k ==> self.aliases@[j].name@ != name@,
            decreases self.aliases@.len() - k,
        {
            if chars_eq(&self.aliases[k].name, name) {
                proof {
                    let c = choose|c: int|
                        0 <= c < self.aliases@.len() && self.aliases@[c].name@ == name@ && forall|j: int|
                            0 <= j < c ==> self.aliases@[j].name@ != name@;
                    if c < k {
                    } else if c > k {
                        assert(self.aliases@[k as int].name@ == name@);
                    }
                }
                return Some(self.aliases[k].entity);
            }
            k += 1;
        }
        None
    }

    /// Follows path segments from `parent`.
    fn resolve_segments(&self, parent: u64, segs: &Vec<Vec<char>>, start: usize) -> (r: Option<u64>)
        requires
            self.wf(),
            start <= segs@.len(),
        ensures
            r == self.resolve(
                parent,
                segs@.map_values(|v: Vec<char>| v@).subrange(start as int, segs@.len() as int),
            ),
        decreases segs@.len() - start,
    {
        let ghost all = segs@.map_values(|v: Vec<char>| v@);
        let ghost rest = all.subrange(start as int, segs@.len() as int);
        if start == segs.len() {
            assert(rest.len() == 0);
            return Some(parent);
        }
        proof {
            assert(rest[0] == segs@[start as int]@);
            assert(rest.drop_first() =~= all.subrange(start + 1, segs@.len() as int));
        }
        match self.find_child(parent, &segs[start]) {
            Some(c) => self.resolve_segments(c, segs, start + 1),
            None => None,
        }
    }

    /// The entity `path` names from `from`: an alias of that exact name, or
    /// the entity reached segment by segment.
    pub open spec fn spec_lookup(&self, from: u64, path: Seq<char>) -> Option<u64> {
        match self.alias_of(path) {
            Some(e) => Some(e),
            None => {
                let st = self.path_start(from, split_path(path));
                self.resolve(st.0, st.1)
            },
        }
    }

    /// Looks `path` up from `from`.
    pub fn lookup_from(&self, from: u64, path: &str) -> (r: Option<u64>)
        requires
            self.wf(),
        ensures
            r == self.spec_lookup(from, path@),
    {
        let cs = chars_of(path);
        match self.find_alias(&cs) {
            Some(e) => {
                return Some(e);
            },
            None => {},
        }
        let segs = split_segments(&cs, 0);
        proof {
            assert(cs@.subrange(0, cs@.len() as int) =~= cs@);
        }
        let ghost all = segs@.map_values(|v: Vec<char>| v@);
        if segs.len() > 1 && segs[0].len() == 0 {
            proof {
                assert(all[0] == segs@[0]@);
                assert(all.drop_first() =~= all.subrange(1, all.len() as int));
            }
            self.resolve_segments(0, &segs, 1)
        } else {
            proof {
                if segs@.len() > 1 {
                    assert(all[0] == segs@[0]@);
                }
                assert(all.subrange(0, all.len() as int) =~= all);
            }
            self.resolve_segments(from, &segs, 0)
        }
    }

    /// Looks `path` up below `e` only.
    pub fn lookup(&self, e: u64, path: &str) -> (r: Option<u64>)
        requires
            self.wf(),
        ensures
            r == self.spec_lookup(e, path@),
    {
        self.lookup_from(e, path)
    }

    /// `path` looked up from scope `s`, then from each enclosing scope up to
    /// the root, at most `fuel` steps up.
    pub open spec fn lookup_up(&self, s: u64, path: Seq<char>, fuel: nat) -> Option<u64>
        decreases fuel,
    {
        match self.spec_lookup(s, path) {
            Some(e) => Some(e),
            None => if s == 0 || fuel == 0 {
                None
            } else {
                self.lookup_up(
                    if self.spec_alive(s) {
                        self.parent_of(s)
                    } else {
                        0
                    },
                    path,
                    (fuel - 1) as nat,
                )
            },
        }
    }

    /// Looks `path` up from the current scope, then from each enclosing scope
    /// up to the root.
    pub fn lookup_recursive(&self, path: &str) -> (r: Option<u64>)
        requires
            self.wf(),
        ensures
            r == self.lookup_up(self.scope, path@, self.alive@.len() as nat),
    {
        let mut s = self.scope;
        let mut fuel: usize = self.alive.len();
        loop
            invariant
                self.wf(),
                self.lookup_up(self.scope, path@, self.alive@.len() as nat) == self.lookup_up(
                    s,
                    path@,
                    fuel as nat,
                ),
            decreases fuel,
        {
            match self.lookup_from(s, path) {
                Some(e) => {
                    return Some(e);
                },
                None => {},
            }
            if s == 0 || fuel == 0 {
                return None;
            }
            s = self.parent(s);
            fuel -= 1;
        }
    }

    /// Makes `name` resolve to `e` from anywhere.
    pub fn set_alias(&mut self, e: u64, name: &str)
        requires
            old(self).wf(),
        ensures
            final(self).wf(),
            final(self).aliases@.len() == old(self).aliases@.len() + 1,
            final(self).aliases@.last().entity == e,
            final(self).aliases@.last().name@ == name@,
            forall|k: int| 0 <= k < old(self).aliases@.len() ==> #[trigger] final(self).aliases@[k]
                == old(self).aliases@[k],
            final(self).entries@ == old(self).entries@,
            final(self).alive@ == old(self).alive@,
            final(self).gens@ == old(self).gens@,
            final(self).names@ == old(self).names@,
            final(self).parents@ == old(self).parents@,
            final(self).queue@ == old(self).queue@,
            final(self).scope == old(self).scope,
            final(self).defer == old(self).defer,
    {
        let cs = chars_of(name);
        self.aliases.push(Alias { name: cs, entity: e });
    }

    /// Creates or finds the entity a `::`-separated path names from the
    /// current scope; missing segments are created, named, on the way.
    #[verifier::rlimit(100)]
    #[verifier::spinoff_prover]
    pub fn entity_named(&mut self, path: &str) -> (r: u64)
        requires
            old(self).wf(),
            old(self).has_room(path@.len() + 2),
        ensures
            final(self).wf(),
            final(self).spec_alive(r),
            final(self).name_of(r) == split_path(path@).last(),
            split_path(path@).len() == 1 ==> final(self).parent_of(r) == old(self).scope,
            forall|x: u64| old(self).spec_alive(x) ==> final(self).spec_alive(x),
            final(self).scope == old(self).scope,
            final(self).with_id == old(self).with_id,
            final(self).defer == old(self).defer,
            ({
                let st = old(self).path_start(old(self).scope, split_path(path@));
                &&& final(self).resolve(st.0, st.1) == Some(r)
                &&& old(self).resolve(st.0, st.1) matches Some(x) ==> r == x && final(self).entries@
                    == old(self).entries@ && final(self).alive@ == old(self).alive@ && final(self).gens@
                    == old(self).gens@ && final(self).names@ == old(self).names@ && final(self).parents@
                    == old(self).parents@ && final(self).queue@ == old(self).queue@
            }),
    {
        let cs = chars_of(path);
        let segs = split_segments(&cs, 0);
        let ghost all = segs@.map_values(|v: Vec<char>| v@);
        proof {
            assert(cs@.subrange(0, cs@.len() as int) =~= cs@);
            lemma_segments_bound(cs@);
        }
        let mut parent = self.scope;
        let mut i: usize = 0;
        if segs.len() > 1 && segs[0].len() == 0 {
            parent = 0;
            i = 1;
        }
        let mut cur = parent;
        let ghost first = i;
        let ghost start = parent;
        let ghost start_len = self.alive@.len();
        let mut created = false;
        let ghost mut last_parent = parent;
        proof {
            let st = old(self).path_start(old(self).scope, split_path(path@));
            assert(all.subrange(first as int, all.len() as int) == st.1) by {
                if first == 1 {
                    assert(all.drop_first() =~= all.subrange(1, all.len() as int));
                    assert(all[0] == segs@[0]@);
                } else {
                    if all.len() > 1 {
                        assert(all[0] == segs@[0]@);
                    }
                    assert(all.subrange(0, all.len() as int) =~= all);
                }
            }
            assert(st.0 == start);
        }
        while i < segs.len()
            invariant
                self.wf(),
                1 <= segs@.len() <= cs@.len() + 1,
                all == segs@.map_values(|v: Vec<char>| v@),
                all == split_path(path@),
                i <= segs@.len(),
                self.alive@.len() <= start_len + i,
                start_len + cs@.len() + 2 < INDEX_SPAN,
                cs@ == path@,
                first <= i,
                first <= 1,
                first < segs@.len(),
                i > first ==> self.spec_alive(cur) && self.name_of(cur) == all[i - 1],
                i > first ==> parent == cur,
                i > first ==> self.parent_of(cur) == last_parent,
                i == first + 1 ==> last_parent == start,
                i == first ==> parent == start,
                !created ==> self.entries@ == old(self).entries@ && self.alive@ == old(self).alive@
                    && self.gens@ == old(self).gens@ && self.names@ == old(self).names@ && self.parents@
                    == old(self).parents@ && self.queue@ == old(self).queue@,
                !created ==> old(self).resolve(start, all.subrange(first as int, all.len() as int))
                    == old(self).resolve(parent, all.subrange(i as int, all.len() as int)),
                created ==> old(self).resolve(start, all.subrange(first as int, all.len() as int)) is None,
                self.resolve(start, all.subrange(first as int, i as int)) == Some(parent),
                forall|x: u64| old(self).spec_alive(x) ==> self.spec_alive(x),
                self.scope == old(self).scope,
                self.with_id == old(self).with_id,
                self.defer == old(self).defer,
            decreases segs@.len() - i,
        {
            let ghost rest = all.subrange(i as int, all.len() as int);
            proof {
                last_parent = parent;
                assert(rest[0] == segs@[i as int]@);
                assert(rest.drop_first() =~= all.subrange(i + 1, all.len() as int));
            }
            let ghost w0 = *self;
            proof {
                assert(all.subrange(first as int, i + 1) =~= all.subrange(first as int, i as int).push(all[i as int]));
                assert(all[i as int] == segs@[i as int]@);
            }
            match self.find_child(parent, &segs[i]) {
                Some(e) => {
                    cur = e;
                    proof {
                        lemma_resolve_push(self.alive@, self.parents@, self.names@, self.gens@, start,
                            all.subrange(first as int, i as int), all[i as int]);
                    }
                },
                None => {
                    created = true;
                    let e = self.entity_in(parent);
                    let ghost w1 = *self;
                    let mut name: Vec<char> = Vec::new();
                    crate::text::extend_chars(&mut name, &segs[i]);
                    let ghost nm = name;
                    self.names.set(entity_index(e) as usize, Some(name));
                    cur = e;
                    proof {
                        let sl = index_of(e) as int;
                        assert(w0.fresh_slot(&w1, sl, parent));
                        assert(self.names@ == w1.names@.update(sl, Some(nm)));
                        assert(nm@ == all[i as int]);
                        assert(self.names@[sl] == Some(nm));
                        assert forall|t: int| 0 <= t < w0.alive@.len() && t != sl implies #[trigger] self.alive@[t]
                            == w0.alive@[t] && self.parents@[t] == w0.parents@[t] && self.names@[t] == w0.names@[t]
                            && self.gens@[t] == w0.gens@[t] by {
                            assert(w1.alive@[t] == w0.alive@[t]);
                        }
                        assert(fresh_seqs(w0.alive@, w0.parents@, w0.names@, w0.gens@, self.alive@, self.parents@,
                            self.names@, self.gens@, sl, parent, all[i as int]));
                        lemma_resolve_fresh(w0.alive@, w0.parents@, w0.names@, w0.gens@, self.alive@, self.parents@,
                            self.names@, self.gens@, sl, parent, all[i as int], start, all.subrange(first as int, i as int));
                        lemma_named_child_fresh(w0.alive@, w0.parents@, w0.names@, w0.gens@, self.alive@, self.parents@,
                            self.names@, self.gens@, sl, parent, all[i as int], parent, all[i as int]);
                        vstd::arithmetic::div_mod::lemma_fundamental_div_mod(e as int, INDEX_SPAN as int);
                        assert(e == (self.gens@[sl] * INDEX_SPAN + sl) as u64);
                        lemma_resolve_push(self.alive@, self.parents@, self.names@, self.gens@, start,
                            all.subrange(first as int, i as int), all[i as int]);
                    }
                },
            }
            parent = cur;
            i += 1;
        }
        proof {
            if !created {
                assert(all.subrange(i as int, all.len() as int).len() == 0);
            }
            assert(all.subrange(first as int, i as int) == all.subrange(first as int, all.len() as int));
        }
        cur
    }
}

/// A path has at most one segment more than it has characters.
pub proof fn lemma_segments_bound(s: Seq<char>)
    ensures
        split_path(s).len() <= s.len() + 1,
    decreases s.len(),
{
    if s.len() >= 2 {
        if s[0] == ':' && s[1] == ':' {
            lemma_segments_bound(s.subrange(2, s.len() as int));
            assert(split_path(s) == seq![Seq::<char>::empty()] + split_path(
                s.subrange(2, s.len() as int),
            ));
        } else {
            lemma_segments_bound(s.drop_first());
            crate::naming::lemma_split_nonempty(s.drop_first());
            let r = split_path(s.drop_first());
            assert(split_path(s) == r.update(0, seq![s[0]] + r[0]));
        }
    } else {
        assert(split_path(s) == seq![s]);
    }
}

} // verus!
