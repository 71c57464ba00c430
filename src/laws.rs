//! Properties that relate several operations, proved from their contracts.
use vstd::prelude::*;
use crate::batch::{Column, FieldAccess, IterRecord, expected_cell, field_access, resolved_ref, resolved_row, spec_ref_or_up};
use crate::builder::{Query, QueryBuilder};
use crate::defer::Command;
use crate::field::Cell;
use crate::ids::Id;
use crate::store::{Entry, entry_index, entry_is, has_entry, set_entry};
use crate::world::World;

verus! {

/// Each builder step appends exactly one term.
pub open spec fn appends_one(a: QueryBuilder, b: QueryBuilder) -> bool {
    exists|t: crate::builder::Term| b.terms@ == a.terms@.push(t)
}

/// A query built from `n` declared fields followed by `steps.len() - 1`
/// `with`/`without` calls has `n` plus that many terms.
pub proof fn law_field_count(steps: Seq<QueryBuilder>, n: nat, q: Query)
    requires
        steps.len() >= 1,
        1 <= n <= 32,
        steps[0].terms@.len() == n,
        forall|i: int| 0 <= i < steps.len() - 1 ==> appends_one(#[trigger] steps[i], steps[i + 1]),
        q.terms@ == steps.last().terms@,
    ensures
        q.terms@.len() == n + (steps.len() - 1),
    decreases steps.len(),
{
    if steps.len() > 1 {
        let prev = steps.drop_last();
        assert forall|i: int| 0 <= i < prev.len() - 1 implies appends_one(#[trigger] prev[i], prev[i + 1]) by {
            assert(prev[i] == steps[i] && prev[i + 1] == steps[i + 1]);
        }
        let q0 = Query { terms: prev.last().terms, ..q };
        law_field_count(prev, n, q0);
        assert(appends_one(steps[steps.len() - 2], steps[steps.len() - 1]));
    }
}

/// In a batch with no shared, traversed or per-row field, every field is
/// read at the row's own offset of its column.
pub proof fn law_plain_path_indexes_column<V>(it: IterRecord<V>, n: nat, i: int, row: int)
    requires
        it.wf(n),
        !spec_ref_or_up(&it),
        0 <= i < n,
        0 <= row <= usize::MAX,
    ensures
        it.columns@[i] matches Column::Array(v) ==> expected_cell(&it, i, row) == (Cell::At {
            column: i as usize,
            offset: row as usize,
        }) && (0 <= row < v@.len() ==> it.spec_get(expected_cell(&it, i, row)) == Some(
            v@[row],
        )),
{
}

/// Writing a value into an owned column and reading the same row through
/// the plain path yields that value.
pub proof fn law_plain_path_round_trip<V>(
    it: IterRecord<V>,
    n: nat,
    i: int,
    row: int,
    v: Vec<V>,
    x: V,
    w: Vec<V>,
    written: IterRecord<V>,
)
    requires
        it.wf(n),
        !spec_ref_or_up(&it),
        0 <= i < n,
        it.columns@[i] == Column::Array(v),
        0 <= row < v@.len(),
        row <= usize::MAX,
        w@ == v@.update(row, x),
        written.columns@ == it.columns@.update(i, Column::Array(w)),
        written.sources@ == it.sources@,
        written.ref_fields == it.ref_fields,
        written.up_fields == it.up_fields,
        written.row_fields == it.row_fields,
        written.entities@ == it.entities@,
        written.count == it.count,
    ensures
        written.spec_get(expected_cell(&written, i, row)) == Some(x),
{
    assert(!spec_ref_or_up(&written));
    assert(it.columns@.len() == n && n <= 32);
    assert(written.columns@.len() == n);
    assert((i as usize) as int == i);
    assert((row as usize) as int == row);
    assert(expected_cell(&written, i, row) == (Cell::At { column: i as usize, offset: row as usize }));
    assert(written.columns@[i] == Column::Array(w));
    assert(w@[row] == x);
}

/// A shared field yields the same value for every row of a batch: the
/// single value at the start of its column.
pub proof fn law_broadcast<V>(it: IterRecord<V>, i: int, r1: int, r2: int)
    requires
        field_access(&it, i) == FieldAccess::Broadcast,
    ensures
        expected_cell(&it, i, r1) == expected_cell(&it, i, r2),
        expected_cell(&it, i, r1) == expected_cell(&it, i, 0),
        it.spec_get(expected_cell(&it, i, r1)) == it.spec_get(expected_cell(&it, i, r2)),
{
}

/// An optional field whose column the host reports as null is absent on
/// every row; one with a column is present on every row it covers.
pub proof fn law_optional_absence<V>(it: IterRecord<V>, n: nat, i: int, row: int)
    requires
        it.wf(n),
        0 <= i < n,
        !resolved_row(&it, i),
        0 <= row <= usize::MAX,
    ensures
        it.columns@[i] is Null ==> it.spec_get(expected_cell(&it, i, row)) is None,
        it.columns@[i] matches Column::Array(v) ==> (!resolved_ref(&it, i) && row < v@.len()
            ==> it.spec_get(expected_cell(&it, i, row)) == Some(v@[row])),
{
}

/// After a value is set, the entity holds the id.
pub proof fn lemma_set_has<V>(es: Seq<Entry<V>>, e: u64, id: Id, v: V)
    ensures
        has_entry(set_entry(es, e, id, v), e, id),
{
    let r = set_entry(es, e, id, v);
    if has_entry(es, e, id) {
        let k = entry_index(es, e, id);
        assert(entry_is(r[k], e, id));
    } else {
        assert(entry_is(r[es.len() as int], e, id));
    }
}

/// Setting one id keeps every other id an entity holds.
pub proof fn lemma_set_keeps<V>(es: Seq<Entry<V>>, e: u64, id: Id, v: V, e2: u64, id2: Id)
    requires
        has_entry(es, e2, id2),
    ensures
        has_entry(set_entry(es, e, id, v), e2, id2),
{
    let r = set_entry(es, e, id, v);
    let k = choose|k: int| 0 <= k < es.len() && entry_is(#[trigger] es[k], e2, id2);
    if has_entry(es, e, id) {
        let j = entry_index(es, e, id);
        if j == k {
            assert(entry_is(r[k], e2, id2));
        } else {
            assert(r[k] == es[k]);
        }
    } else {
        assert(r[k] == es[k]);
    }
}

/// Setting an id the entity did not hold, without holding it before, leaves
/// it unheld only if a different id was set.
pub proof fn lemma_set_other<V>(es: Seq<Entry<V>>, e: u64, id: Id, v: V, id2: Id)
    requires
        id != id2,
        !has_entry(es, e, id2),
    ensures
        !has_entry(set_entry(es, e, id, v), e, id2),
{
    let r = set_entry(es, e, id, v);
    if has_entry(r, e, id2) {
        let k = choose|k: int| 0 <= k < r.len() && entry_is(#[trigger] r[k], e, id2);
        if has_entry(es, e, id) {
            let j = entry_index(es, e, id);
            if k != j {
                assert(r[k] == es[k]);
            }
        } else if k < es.len() {
            assert(r[k] == es[k]);
        }
    }
}

/// A set issued inside a deferred block is invisible until the block ends,
/// and visible once it has.
pub proof fn law_deferred_set_invisible<V: Copy>(
    w0: World<V>,
    w1: World<V>,
    w2: World<V>,
    w3: World<V>,
    e: u64,
    x: Id,
    v: V,
)
    requires
        w0.wf(),
        w0.defer.depth == 0,
        !w0.defer.suspended,
        w0.spec_alive(e),
        !w0.spec_has(e, x),
        w0.begun(&w1),
        w1.performed(&w2, seq![Command::Assign(e, x, v)]),
        w2.ended(&w3),
    ensures
        !w2.spec_has(e, x),
        w3.spec_has(e, x),
        w3.spec_get(e, x) == Some(v),
{
    let st = (w2.entries@, w2.alive@, w2.docs@);
    assert(w2.queue@ =~= seq![Command::Assign(e, x, v)]);
    crate::store::lemma_apply_one(st, w2.gens@, Command::Assign(e, x, v));
    lemma_set_has(w2.entries@, e, x, v);
    lemma_set_value(w2.entries@, e, x, v);
}

/// After a value is set, it is the value held.
pub proof fn lemma_set_value<V>(es: Seq<Entry<V>>, e: u64, id: Id, v: V)
    requires
        crate::store::unique_entries(es),
    ensures
        crate::store::value_of(set_entry(es, e, id, v), e, id) == Some(v),
{
    let r = set_entry(es, e, id, v);
    lemma_set_has(es, e, id, v);
    let k = entry_index(r, e, id);
    let j = if has_entry(es, e, id) {
        entry_index(es, e, id)
    } else {
        es.len() as int
    };
    assert(entry_is(r[j], e, id));
    if k != j {
        if has_entry(es, e, id) {
            assert(r[k] == es[k]);
            assert(entry_is(es[k], e, id));
            assert(entry_is(es[j], e, id));
        } else {
            assert(k < es.len());
            assert(r[k] == es[k]);
            assert(entry_is(es[k], e, id));
        }
    }
}

/// Inside a deferred block, a set issued while buffering is suspended is
/// visible at once, while the sets around it stay queued; when the block
/// ends, all of them are visible.
pub proof fn law_suspended_set_immediate<V: Copy>(
    w0: World<V>,
    w1: World<V>,
    w2: World<V>,
    w3: World<V>,
    w4: World<V>,
    w5: World<V>,
    w6: World<V>,
    e: u64,
    a: Id,
    va: V,
    b: Id,
    vb: V,
)
    requires
        w0.wf(),
        w0.defer.depth == 0,
        !w0.defer.suspended,
        w0.spec_alive(e),
        !w0.spec_has(e, a),
        w0.begun(&w1),
        w1.performed(&w2, seq![Command::Assign(e, a, va)]),
        w2.suspended_to(&w3),
        w3.performed(&w4, seq![Command::Assign(e, b, vb)]),
        w4.resumed_to(&w5),
        w5.ended(&w6),
    ensures
        !w2.spec_has(e, a),
        w4.spec_has(e, b),
        a != b ==> !w4.spec_has(e, a),
        w6.spec_has(e, a),
        w6.spec_has(e, b),
{
    let s3 = (w3.entries@, w3.alive@, w3.docs@);
    crate::store::lemma_apply_one(s3, w3.gens@, Command::Assign(e, b, vb));
    assert(w4.entries@ == set_entry(w3.entries@, e, b, vb));
    lemma_set_has(w3.entries@, e, b, vb);
    if a != b {
        lemma_set_other(w3.entries@, e, b, vb, a);
    }
    let s5 = (w5.entries@, w5.alive@, w5.docs@);
    assert(w5.queue@ =~= seq![Command::Assign(e, a, va)]);
    crate::store::lemma_apply_one(s5, w5.gens@, Command::Assign(e, a, va));
    lemma_set_has(w5.entries@, e, a, va);
    lemma_set_keeps(w5.entries@, e, a, va, e, b);
}


/// A documentation string set inside a deferred block is invisible until
/// the block ends, and readable once it has.
pub proof fn law_deferred_doc_invisible<V: Copy>(
    w0: World<V>,
    w1: World<V>,
    w2: World<V>,
    w3: World<V>,
    e: u64,
    kind: crate::doc::DocKind,
    text: Seq<char>,
)
    requires
        w0.wf(),
        w0.defer.depth == 0,
        !w0.defer.suspended,
        w0.spec_alive(e),
        w0.begun(&w1),
        exists|t: Vec<char>| t@ == text && w1.performed(&w2, seq![Command::Document(e, kind, t)]),
        w2.ended(&w3),
    ensures
        w2.doc_of(e, kind) == w0.doc_of(e, kind),
        w3.doc_of(e, kind) == Some(text),
{
    let t = choose|t: Vec<char>| t@ == text && w1.performed(&w2, seq![Command::Document(e, kind, t)]);
    assert(w2.queue@ =~= seq![Command::Document(e, kind, t)]);
    crate::store::lemma_apply_one((w2.entries@, w2.alive@, w2.docs@), w2.gens@, Command::Document(e, kind, t));
    crate::doc::lemma_doc_set(w2.docs@, e, kind, t, e, kind);
}

} // verus!
