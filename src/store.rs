use vstd::prelude::*;
use crate::defer::Command;
use crate::doc::{DocEntry, doc_set};
use crate::ids::{Id, index_of, generation_of};

verus! {

/// One id held by one entity, with the value set for it (none for a tag or
/// an id added without data).
pub struct Entry<V> {
    pub entity: u64,
    pub id: Id,
    pub value: Option<V>,
}

pub open spec fn entry_is<V>(x: Entry<V>, e: u64, id: Id) -> bool {
    x.entity == e && x.id == id
}

pub open spec fn has_entry<V>(es: Seq<Entry<V>>, e: u64, id: Id) -> bool {
    exists|k: int| 0 <= k < es.len() && entry_is(#[trigger] es[k], e, id)
}

/// No entity holds the same id twice.
pub open spec fn unique_entries<V>(es: Seq<Entry<V>>) -> bool {
    forall|a: int, b: int|
        0 <= a < es.len() && 0 <= b < es.len() && a != b ==> !entry_is(
            #[trigger] es[a],
            es[b].entity,
            es[b].id,
        ) || !entry_is(#[trigger] es[b], es[a].entity, es[a].id)
}

/// Position of the entry of `(e, id)`.
pub open spec fn entry_index<V>(es: Seq<Entry<V>>, e: u64, id: Id) -> int {
    choose|k: int| 0 <= k < es.len() && entry_is(#[trigger] es[k], e, id)
}

/// The value held by `e` for `id`.
pub open spec fn value_of<V>(es: Seq<Entry<V>>, e: u64, id: Id) -> Option<V> {
    if has_entry(es, e, id) {
        es[entry_index(es, e, id)].value
    } else {
        None
    }
}

pub open spec fn add_entry<V>(es: Seq<Entry<V>>, e: u64, id: Id) -> Seq<Entry<V>> {
    if has_entry(es, e, id) {
        es
    } else {
        es.push(Entry { entity: e, id, value: None })
    }
}

pub open spec fn set_entry<V>(es: Seq<Entry<V>>, e: u64, id: Id, v: V) -> Seq<Entry<V>> {
    if has_entry(es, e, id) {
        es.update(entry_index(es, e, id), Entry { entity: e, id, value: Some(v) })
    } else {
        es.push(Entry { entity: e, id, value: Some(v) })
    }
}

pub open spec fn remove_entry<V>(es: Seq<Entry<V>>, e: u64, id: Id) -> Seq<Entry<V>> {
    if has_entry(es, e, id) {
        es.remove(entry_index(es, e, id))
    } else {
        es
    }
}

pub open spec fn clear_entries<V>(es: Seq<Entry<V>>, e: u64) -> Seq<Entry<V>> {
    es.filter(|x: Entry<V>| x.entity != e)
}

/// Whether `e` names a live entity: its slot is in use at its generation.
pub open spec fn is_live(gens: Seq<u64>, alive: Seq<bool>, e: u64) -> bool {
    let s = index_of(e) as int;
    &&& 0 < s < alive.len()
    &&& s < gens.len()
    &&& alive[s]
    &&& gens[s] == generation_of(e)
}

/// What deferred commands act on: the entries, the liveness flags and the
/// documentation strings.
pub type Stored<V> = (Seq<Entry<V>>, Seq<bool>, Seq<DocEntry>);

/// Effect of one command on the stored state; a command on an entity that
/// is not alive changes nothing.
pub open spec fn apply_cmd<V>(st: Stored<V>, gens: Seq<u64>, c: Command<V>) -> Stored<V> {
    if !is_live(gens, st.1, c.spec_entity()) {
        st
    } else {
        match c {
            Command::Add(e, id) => (add_entry(st.0, e, id), st.1, st.2),
            Command::Remove(e, id) => (remove_entry(st.0, e, id), st.1, st.2),
            Command::Assign(e, id, v) => (set_entry(st.0, e, id, v), st.1, st.2),
            Command::Clear(e) => (clear_entries(st.0, e), st.1, st.2),
            Command::Delete(e) => (clear_entries(st.0, e), st.1.update(index_of(e) as int, false), st.2),
            Command::Document(e, kind, text) => (st.0, st.1, doc_set(st.2, e, kind, text)),
        }
    }
}

/// Whether command `c` fails on `st`: its entity is not alive.
pub open spec fn cmd_fails<V>(st: Stored<V>, gens: Seq<u64>, c: Command<V>) -> bool {
    !is_live(gens, st.1, c.spec_entity())
}

/// The errors of commands replayed in order: one for each command whose
/// entity is not alive at its turn.
pub open spec fn replay_errors<V>(st: Stored<V>, gens: Seq<u64>, cs: Seq<Command<V>>) -> Seq<u64>
    decreases cs.len(),
{
    if cs.len() == 0 {
        Seq::empty()
    } else {
        let before = replay_errors(st, gens, cs.drop_last());
        if cmd_fails(apply_all(st, gens, cs.drop_last()), gens, cs.last()) {
            before.push(cs.last().spec_entity())
        } else {
            before
        }
    }
}

/// Effect of commands applied in order.
pub open spec fn apply_all<V>(st: Stored<V>, gens: Seq<u64>, cs: Seq<Command<V>>) -> Stored<V>
    decreases cs.len(),
{
    if cs.len() == 0 {
        st
    } else {
        apply_cmd(apply_all(st, gens, cs.drop_last()), gens, cs.last())
    }
}

/// Applying a single command is applying that command.
pub proof fn lemma_apply_one<V>(st: Stored<V>, gens: Seq<u64>, c: Command<V>)
    ensures
        apply_all(st, gens, seq![c]) == apply_cmd(st, gens, c),
{
    assert(seq![c].drop_last() =~= Seq::<Command<V>>::empty());
    assert(apply_all(st, gens, Seq::<Command<V>>::empty()) == st);
    assert(seq![c].last() == c);
}

/// Finds the entry of `(e, id)`.
pub fn find_entry<V>(es: &Vec<Entry<V>>, e: u64, id: Id) -> (r: Option<usize>)
    requires
        unique_entries(es@),
    ensures
        r matches Some(k) ==> has_entry(es@, e, id) && k == entry_index(es@, e, id) && k
            < es@.len(),
        r is None ==> !has_entry(es@, e, id),
{
    let mut i: usize = 0;
    while i < es.len()
        invariant
            i <= es@.len(),
            unique_entries(es@),
            forall|j: int| 0 <= j < i ==> !entry_is(#[trigger] es@[j], e, id),
        decreases es@.len() - i,
    {
        if es[i].entity == e && es[i].id == id {
            proof {
                assert(entry_is(es@[i as int], e, id));
                let k = entry_index(es@, e, id);
                assert(entry_is(es@[k], e, id));
                if k != i {
                    assert(!entry_is(es@[k], es@[i as int].entity, es@[i as int].id) || !entry_is(
                        es@[i as int],
                        es@[k].entity,
                        es@[k].id,
                    ));
                }
            }
            return Some(i);
        }
        i += 1;
    }
    None
}

/// Removes every entry of `e`, keeping the others in order.
pub fn clear_entity<V>(es: Vec<Entry<V>>, e: u64) -> (r: Vec<Entry<V>>)
    requires
        unique_entries(es@),
    ensures
        r@ == clear_entries(es@, e),
        unique_entries(r@),
        forall|p: int|
            0 <= p < r@.len() ==> (#[trigger] r@[p]).entity != e && exists|j: int|
                0 <= j < es@.len() && r@[p].entity == es@[j].entity,
{
    let ghost src = es@;
    let mut out: Vec<Entry<V>> = Vec::new();
    let mut rest = es;
    // walk the entries front to back by draining a reversed copy
    let mut rev: Vec<Entry<V>> = Vec::new();
    while rest.len() > 0
        invariant
            rev@ + rest@.reverse() == src.reverse(),
        decreases rest@.len(),
    {
        let ghost before = rest@;
        let x = rest.pop().unwrap();
        proof {
            assert(before == rest@.push(x));
            assert(before.reverse() =~= seq![x] + rest@.reverse());
            assert(rev@.push(x) + rest@.reverse() =~= rev@ + before.reverse());
        }
        rev.push(x);
    }
    proof {
        assert(rest@.reverse() =~= Seq::<Entry<V>>::empty());
        assert(rev@ =~= src.reverse());
    }
    let n = rev.len();
    let mut i: usize = 0;
    while rev.len() > 0
        invariant
            n == src.len(),
            rev@.len() + i == n,
            forall|j: int| 0 <= j < rev@.len() ==> #[trigger] rev@[j] == src[n - 1 - j],
            out@ == src.subrange(0, i as int).filter(|x: Entry<V>| x.entity != e),
            unique_entries(src),
            forall|p: int|
                0 <= p < out@.len() ==> exists|j: int|
                    0 <= j < i && entry_is(#[trigger] out@[p], src[j].entity, src[j].id)
                        && entry_is(src[j], out@[p].entity, out@[p].id),
            unique_entries(out@),
            forall|p: int|
                0 <= p < out@.len() ==> (#[trigger] out@[p]).entity != e && exists|j: int|
                    0 <= j < src.len() && out@[p].entity == src[j].entity,
        decreases rev@.len(),
    {
        let x = rev.pop().unwrap();
        proof {
            assert(x == src[i as int]);
            assert(src.subrange(0, i + 1).drop_last() =~= src.subrange(0, i as int));
            reveal(Seq::filter);
        }
        if x.entity != e {
            proof {
                assert forall|p: int| 0 <= p < out@.len() implies !entry_is(out@[p], x.entity, x.id) by {
                    let j = choose|j: int|
                        0 <= j < i && entry_is(#[trigger] out@[p], src[j].entity, src[j].id)
                            && entry_is(src[j], out@[p].entity, out@[p].id);
                    assert(j != i);
                }
            }
            let ghost prev = out@;
            out.push(x);
            proof {
                assert forall|p: int| 0 <= p < out@.len() implies exists|j: int|
                    0 <= j < i + 1 && entry_is(#[trigger] out@[p], src[j].entity, src[j].id)
                        && entry_is(src[j], out@[p].entity, out@[p].id) by {
                    if p < prev.len() {
                        assert(out@[p] == prev[p]);
                    } else {
                        assert(entry_is(out@[p], src[i as int].entity, src[i as int].id));
                    }
                }
                assert forall|p: int| 0 <= p < out@.len() implies (#[trigger] out@[p]).entity != e && exists|j: int|
                    0 <= j < src.len() && out@[p].entity == src[j].entity by {
                    if p < prev.len() {
                        assert(out@[p] == prev[p]);
                    } else {
                        assert(out@[p].entity == src[i as int].entity);
                    }
                }
            }
        }
        i += 1;
    }
    proof {
        assert(src.subrange(0, n as int) =~= src);
    }
    out
}

} // verus!
