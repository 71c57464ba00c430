use vstd::prelude::*;
use crate::defer::Command;
use crate::ids::{Id, index_of};
use crate::store::{Entry, apply_all};
use crate::text::{extend_chars, string_of};
use crate::world::World;

verus! {

/// The commands that copy what `src` holds onto `dst`.
pub open spec fn copy_cmds<V>(es: Seq<Entry<V>>, src: u64, dst: u64) -> Seq<Command<V>>
    decreases es.len(),
{
    if es.len() == 0 {
        Seq::empty()
    } else {
        let rest = copy_cmds(es.drop_last(), src, dst);
        let x = es.last();
        if x.entity == src {
            match x.value {
                Some(v) => rest.push(Command::Assign(dst, x.id, v)),
                None => rest.push(Command::Add(dst, x.id)),
            }
        } else {
            rest
        }
    }
}

/// Copying changes no entity's liveness.
pub proof fn lemma_copy_keeps_alive<V>(
    st: crate::store::Stored<V>,
    gens: Seq<u64>,
    es: Seq<Entry<V>>,
    src: u64,
    dst: u64,
)
    ensures
        apply_all(st, gens, copy_cmds(es, src, dst)).1 == st.1,
    decreases es.len(),
{
    if es.len() > 0 {
        lemma_copy_keeps_alive(st, gens, es.drop_last(), src, dst);
        let cs = copy_cmds(es, src, dst);
        let rest = copy_cmds(es.drop_last(), src, dst);
        if es.last().entity == src {
            assert(cs.drop_last() =~= rest);
        } else {
            assert(cs == rest);
        }
    }
}

/// Targets of `(rel, _)` pairs held by `e`, in the order they were added.
pub open spec fn targets_in<V>(es: Seq<Entry<V>>, e: u64, rel: u64) -> Seq<u64>
    decreases es.len(),
{
    if es.len() == 0 {
        Seq::empty()
    } else {
        let rest = targets_in(es.drop_last(), e, rel);
        match es.last().id {
            Id::Pair(r, t) => if es.last().entity == e && r == rel {
                rest.push(t)
            } else {
                rest
            },
            Id::Entity(_) => rest,
        }
    }
}

/// Ids held by `e`, in the order they were added.
pub open spec fn ids_in<V>(es: Seq<Entry<V>>, e: u64) -> Seq<Id>
    decreases es.len(),
{
    if es.len() == 0 {
        Seq::empty()
    } else {
        let rest = ids_in(es.drop_last(), e);
        if es.last().entity == e {
            rest.push(es.last().id)
        } else {
            rest
        }
    }
}

/// Entities holding `id`, in the order the ids were added.
pub open spec fn holders_in<V>(es: Seq<Entry<V>>, id: Id) -> Seq<u64>
    decreases es.len(),
{
    if es.len() == 0 {
        Seq::empty()
    } else {
        let rest = holders_in(es.drop_last(), id);
        if es.last().id == id {
            rest.push(es.last().entity)
        } else {
            rest
        }
    }
}

impl<V: Copy> World<V> {
    /// Targets of `e`'s `(rel, _)` pairs.
    pub fn each_target(&self, e: u64, rel: u64) -> (r: Vec<u64>)
        requires
            self.wf(),
        ensures
            self.spec_alive(e) ==> r@ == targets_in(self.entries@, e, rel),
            !self.spec_alive(e) ==> r@.len() == 0,
    {
        let mut out: Vec<u64> = Vec::new();
        if !self.is_alive(e) {
            return out;
        }
        let mut i: usize = 0;
        while i < self.entries.len()
            invariant
                i <= self.entries@.len(),
                out@ == targets_in(self.entries@.subrange(0, i as int), e, rel),
            decreases self.entries@.len() - i,
        {
            proof {
                assert(self.entries@.subrange(0, i + 1).drop_last() =~= self.entries@.subrange(
                    0,
                    i as int,
                ));
            }
            let x = &self.entries[i];
            match x.id {
                Id::Pair(r, t) => {
                    if x.entity == e && r == rel {
                        out.push(t);
                    }
                },
                Id::Entity(_) => {},
            }
            i += 1;
        }
        assert(self.entries@.subrange(0, self.entries@.len() as int) =~= self.entries@);
        out
    }

    /// The `n`-th target of `e` for `rel`.
    pub fn target(&self, e: u64, rel: u64, n: usize) -> (r: Option<u64>)
        requires
            self.wf(),
        ensures
            self.spec_alive(e) && n < targets_in(self.entries@, e, rel).len() ==> r == Some(
                targets_in(self.entries@, e, rel)[n as int],
            ),
            !(self.spec_alive(e) && n < targets_in(self.entries@, e, rel).len()) ==> r is None,
    {
        let ts = self.each_target(e, rel);
        if n < ts.len() {
            Some(ts[n])
        } else {
            None
        }
    }

    /// The ids `e` holds, in the order they were added.
    pub fn archetype(&self, e: u64) -> (r: Vec<Id>)
        requires
            self.wf(),
        ensures
            self.spec_alive(e) ==> r@ == ids_in(self.entries@, e),
            !self.spec_alive(e) ==> r@.len() == 0,
    {
        let mut out: Vec<Id> = Vec::new();
        if !self.is_alive(e) {
            return out;
        }
        let mut i: usize = 0;
        while i < self.entries.len()
            invariant
                i <= self.entries@.len(),
                out@ == ids_in(self.entries@.subrange(0, i as int), e),
            decreases self.entries@.len() - i,
        {
            proof {
                assert(self.entries@.subrange(0, i + 1).drop_last() =~= self.entries@.subrange(
                    0,
                    i as int,
                ));
            }
            if self.entries[i].entity == e {
                out.push(self.entries[i].id);
            }
            i += 1;
        }
        assert(self.entries@.subrange(0, self.entries@.len() as int) =~= self.entries@);
        out
    }

    /// Entities that hold `id`.
    pub fn holders(&self, id: Id) -> (r: Vec<u64>)
        requires
            self.wf(),
        ensures
            r@ == holders_in(self.entries@, id),
    {
        let mut out: Vec<u64> = Vec::new();
        let mut i: usize = 0;
        while i < self.entries.len()
            invariant
                i <= self.entries@.len(),
                out@ == holders_in(self.entries@.subrange(0, i as int), id),
            decreases self.entries@.len() - i,
        {
            proof {
                assert(self.entries@.subrange(0, i + 1).drop_last() =~= self.entries@.subrange(
                    0,
                    i as int,
                ));
            }
            if self.entries[i].id == id {
                out.push(self.entries[i].entity);
            }
            i += 1;
        }
        assert(self.entries@.subrange(0, self.entries@.len() as int) =~= self.entries@);
        out
    }

    /// Number of entities holding `id`.
    pub fn count(&self, id: Id) -> (r: usize)
        requires
            self.wf(),
        ensures
            r == holders_in(self.entries@, id).len(),
    {
        self.holders(id).len()
    }

    /// Entities that hold `(rel, parent)`.
    pub fn each_child_of(&self, parent: u64, rel: u64) -> (r: Vec<u64>)
        requires
            self.wf(),
        ensures
            r@ == holders_in(self.entries@, Id::Pair(rel, parent)),
    {
        self.holders(Id::Pair(rel, parent))
    }

    /// Live entities whose parent is `parent`, by slot.
    pub fn each_child(&self, parent: u64) -> (r: Vec<u64>)
        requires
            self.wf(),
        ensures
            forall|k: int| 0 <= k < r@.len() ==> self.spec_alive(#[trigger] r@[k])
                && self.parent_of(r@[k]) == parent,
            forall|x: u64| #[trigger] self.spec_alive(x) && self.parent_of(x) == parent
                && index_of(x) > 0 ==> r@.contains(x),
    {
        let mut out: Vec<u64> = Vec::new();
        let mut s: usize = 1;
        while s < self.alive.len()
            invariant
                self.wf(),
                1 <= s <= self.alive@.len(),
                forall|k: int| 0 <= k < out@.len() ==> self.spec_alive(#[trigger] out@[k])
                    && self.parent_of(out@[k]) == parent,
                forall|x: u64| #[trigger] self.spec_alive(x) && self.parent_of(x) == parent
                    && index_of(x) < s ==> out@.contains(x),
            decreases self.alive@.len() - s,
        {
            if self.alive[s] && self.parents[s] == parent {
                let e = crate::ids::compose_id(s as u64, self.gens[s]);
                let ghost prev = out@;
                out.push(e);
                proof {
                    assert forall|x: u64| #[trigger] self.spec_alive(x) && self.parent_of(x) == parent
                        && index_of(x) < s + 1 implies out@.contains(x) by {
                        if index_of(x) == s {
                            crate::ids::lemma_id_parts(x, e);
                            assert(out@[prev.len() as int] == e);
                        } else {
                            assert(prev.contains(x));
                            let w = choose|w: int| 0 <= w < prev.len() && prev[w] == x;
                            assert(out@[w] == x);
                        }
                    }
                }
            }
            s += 1;
        }
        out
    }

    /// A printable form of an id: the entity's name, or `(first,second)`.
    pub open spec fn spec_id_str(&self, id: Id) -> Seq<char> {
        match id {
            Id::Entity(e) => self.name_or_empty(e),
            Id::Pair(r, t) => seq!['('] + self.name_or_empty(r) + seq![','] + self.name_or_empty(t)
                + seq![')'],
        }
    }

    pub open spec fn name_or_empty(&self, e: u64) -> Seq<char> {
        if self.spec_alive(e) {
            self.name_of(e)
        } else {
            Seq::empty()
        }
    }

    fn push_name(&self, e: u64, out: &mut Vec<char>)
        requires
            self.wf(),
        ensures
            final(out)@ == old(out)@ + self.name_or_empty(e),
    {
        let n = self.name(e);
        let cs = crate::text::chars_of(n.as_str());
        extend_chars(out, &cs);
    }

    /// Renders an id as text.
    pub fn id_str(&self, id: Id) -> (r: String)
        requires
            self.wf(),
        ensures
            r@ == self.spec_id_str(id),
    {
        let mut out: Vec<char> = Vec::new();
        match id {
            Id::Entity(e) => {
                self.push_name(e, &mut out);
                assert(out@ =~= self.spec_id_str(id));
            },
            Id::Pair(r, t) => {
                out.push('(');
                self.push_name(r, &mut out);
                out.push(',');
                self.push_name(t, &mut out);
                out.push(')');
                assert(out@ =~= self.spec_id_str(id));
            },
        }
        string_of(&out)
    }

    /// Whether an id names a live entity (a pair never does).
    pub fn is_valid_id(&self, id: Id) -> (r: bool)
        requires
            self.wf(),
        ensures
            r == (id matches Id::Entity(e) && self.spec_alive(e)),
    {
        match id {
            Id::Entity(e) => self.is_alive(e),
            Id::Pair(_, _) => false,
        }
    }

    /// Copies every id and value of `src` onto `dst` through the stage, in
    /// the order `src` holds them.
    pub fn duplicate_into(&mut self, src: u64, dst: u64) -> (r: u64)
        requires
            old(self).wf(),
        ensures
            final(self).wf(),
            r == dst,
            old(self).performed(final(self), copy_cmds(old(self).entries@, src, dst)),
    {
        let mut cmds: Vec<Command<V>> = Vec::new();
        let mut i: usize = 0;
        while i < self.entries.len()
            invariant
                i <= self.entries@.len(),
                cmds@ == copy_cmds(self.entries@.subrange(0, i as int), src, dst),
            decreases self.entries@.len() - i,
        {
            proof {
                assert(self.entries@.subrange(0, i + 1).drop_last() =~= self.entries@.subrange(
                    0,
                    i as int,
                ));
            }
            let x = &self.entries[i];
            if x.entity == src {
                match x.value {
                    Some(v) => cmds.push(Command::Assign(dst, x.id, v)),
                    None => cmds.push(Command::Add(dst, x.id)),
                }
            }
            i += 1;
        }
        proof {
            assert(self.entries@.subrange(0, self.entries@.len() as int) =~= self.entries@);
        }
        let ghost w0 = *self;
        let ghost all = cmds@;
        let total = cmds.len();
        let mut k: usize = 0;
        proof {
            crate::world::lemma_performed_none(&w0);
            assert(all.subrange(0, 0) =~= Seq::<Command<V>>::empty());
            assert(all.subrange(0, all.len() as int) =~= all);
        }
        while cmds.len() > 0
            invariant
                self.wf(),
                w0.wf(),
                k <= all.len(),
                all.len() == total,
                cmds@ == all.subrange(k as int, all.len() as int),
                w0.performed(self, all.subrange(0, k as int)),
            decreases cmds@.len(),
        {
            let ghost w1 = *self;
            let c = cmds.remove(0);
            proof {
                assert(c == all[k as int]);
                assert(cmds@ =~= all.subrange(k + 1, all.len() as int));
            }
            let _ = self.submit(c);
            proof {
                crate::world::lemma_performed_push(&w0, &w1, self, all.subrange(0, k as int), all[k as int]);
                assert(all.subrange(0, k as int).push(all[k as int]) =~= all.subrange(0, k + 1));
            }
            k += 1;
        }
        proof {
            assert(all.subrange(0, all.len() as int) =~= all);
        }
        dst
    }

    /// A copy of `src` as a new entity.
    pub fn duplicate(&mut self, src: u64) -> (r: u64)
        requires
            old(self).wf(),
            old(self).has_room(1),
        ensures
            final(self).wf(),
            final(self).spec_alive(r),
            !old(self).spec_alive(r),
    {
        let dst = self.entity();
        let ghost mid = *self;
        let r = self.duplicate_into(src, dst);
        proof {
            lemma_copy_keeps_alive((mid.entries@, mid.alive@, mid.docs@), mid.gens@, mid.entries@, src, dst);
        }
        r
    }
}

} // verus!
