use vstd::prelude::*;
use crate::batch::{Column, ComponentFieldPointers, ComponentsFieldData, FieldsTuple, IterRecord, MAX_FIELDS, expected_cell};
use crate::builder::{Oper, Query, SrcKind, Term};
use crate::group::{GroupEvent, GroupRegistry, group_by_default, group_visit_order};
use crate::ids::{CHILD_OF, Id};
use crate::world::World;

verus! {

/// One materialized row: its entity and, per declared field, the value it
/// yields (none for an absent optional field).
pub struct Row<V> {
    pub entity: u64,
    pub values: Vec<Option<V>>,
    /// Group key of the row's batch.
    pub group: u64,
}

/// Materializes every row of one batch: the metadata is resolved once, then
/// each row's tuple is read through it.
pub fn rows_of_batch<V: Copy>(fields: &FieldsTuple, it: &IterRecord<V>) -> (r: Vec<Row<V>>)
    requires
        fields.wf(),
        it.wf(fields.spec_count()),
    ensures
        r@.len() == it.count,
        forall|row: int|
            0 <= row < r@.len() ==> {
                &&& (#[trigger] r@[row]).entity == it.entities@[row]
                &&& r@[row].group == it.group_id
                &&& r@[row].values@.len() == fields.spec_count()
                &&& forall|i: int|
                    0 <= i < fields.spec_count() ==> #[trigger] r@[row].values@[i] == it.spec_get(
                        expected_cell(it, i, row),
                    )
            },
{
    let mut data = ComponentsFieldData::new(fields, it);
    let mut out: Vec<Row<V>> = Vec::new();
    let mut row: usize = 0;
    while row < it.count
        invariant
            fields.wf(),
            it.wf(fields.spec_count()),
            data.resolves(it, fields.spec_count()),
            row <= it.count,
            out@.len() == row,
            forall|k: int|
                0 <= k < row ==> {
                    &&& (#[trigger] out@[k]).entity == it.entities@[k]
                    &&& out@[k].group == it.group_id
                    &&& out@[k].values@.len() == fields.spec_count()
                    &&& forall|i: int|
                        0 <= i < fields.spec_count() ==> #[trigger] out@[k].values@[i]
                            == it.spec_get(expected_cell(it, i, k))
                },
        decreases it.count - row,
    {
        let cells = data.get_tuple(fields, it, row);
        let mut values: Vec<Option<V>> = Vec::new();
        let mut i: usize = 0;
        while i < cells.len()
            invariant
                i <= cells@.len(),
                cells@.len() == fields.spec_count(),
                forall|j: int| 0 <= j < cells@.len() ==> #[trigger] cells@[j] == expected_cell(it, j, row as int),
                values@.len() == i,
                forall|j: int| 0 <= j < i ==> #[trigger] values@[j] == it.spec_get(cells@[j]),
            decreases cells@.len() - i,
        {
            let v = match it.get(cells[i]) {
                Some(x) => Some(*x),
                None => None,
            };
            values.push(v);
            i += 1;
        }
        out.push(Row { entity: it.entities[row], values, group: it.group_id });
        row += 1;
    }
    out
}

/// The term that field `i` of `fields` is read through in `q`.
pub open spec fn field_term_in(q: &Query, fields: &FieldsTuple, i: int) -> Term {
    if i < q.terms@.len() {
        q.terms@[i]
    } else {
        crate::builder::term_of(fields.fields@[i].id, Oper::And, crate::builder::InOut::Default)
    }
}

/// A term whose value does not come from the matched entity itself.
pub open spec fn is_shared(t: Term) -> bool {
    !(t.src is This || t.src is Var)
}

/// No bit of an empty mask is set.
pub proof fn lemma_no_bit(j: int)
    requires
        0 <= j < 32,
    ensures
        !crate::batch::bit(0u32, j),
{
    let jj = j as u32;
    assert((0u32 >> jj) & 1u32 != 1u32) by (bit_vector);
}

/// `x` is a matched entity assigned to batch `c`.
pub open spec fn assigned_to(matched: Seq<u64>, assign: Seq<usize>, x: u64, c: int) -> bool {
    exists|i: int| 0 <= i < matched.len() && matched[i] == x && assign[i] == c
}

/// `x` is an entity of one of the batches `order[0..p]`.
pub open spec fn in_visited<V>(bs: Seq<IterRecord<V>>, order: Seq<usize>, p: int, x: u64) -> bool {
    exists|t: int, j: int|
        0 <= t < p && 0 <= j < bs[order[t] as int].entities@.len() && bs[order[t] as int].entities@[j] == x
}

/// `a` may come before `b` in ascending (or, with `desc`, descending) order.
pub open spec fn in_order(a: u64, b: u64, desc: bool) -> bool {
    if desc {
        a >= b
    } else {
        a <= b
    }
}

/// Setting bit `i` of a mask leaves every other bit as it was.
pub proof fn lemma_set_bit(m: u32, i: int, j: int)
    requires
        0 <= i < 32,
        0 <= j < 32,
    ensures
        crate::batch::bit(m | (1u32 << (i as u32)), j) == (crate::batch::bit(m, j) || i == j),
{
    let ii = i as u32;
    let jj = j as u32;
    assert(((m | (1u32 << ii)) >> jj) & 1u32 == 1u32 <==> (((m >> jj) & 1u32 == 1u32) || ii == jj)) by (bit_vector)
        requires
            ii < 32,
            jj < 32,
    ;
}

/// A mask with a bit set is not zero.
pub proof fn lemma_bit_nonzero(m: u32, j: int)
    requires
        0 <= j < 32,
        crate::batch::bit(m, j),
    ensures
        m != 0,
{
    let jj = j as u32;
    assert((m >> jj) & 1u32 == 1u32 ==> m != 0u32) by (bit_vector)
        requires
            jj < 32,
    ;
}

/// Some row of `rows` belongs to `x`.
pub open spec fn has_row_for<V>(rows: Seq<Row<V>>, x: u64) -> bool {
    exists|w: int| 0 <= w < rows.len() && rows[w].entity == x
}

/// Whether some field of a batch is shared or traversed.
pub open spec fn spec_ref_or_up_of<V>(it: &IterRecord<V>) -> bool {
    crate::batch::spec_ref_or_up(it)
}

/// `n` null columns.
fn empty_columns<V>(n: usize) -> (r: Vec<Column<V>>)
    ensures
        r@.len() == n,
{
    let mut v: Vec<Column<V>> = Vec::new();
    let mut i: usize = 0;
    while i < n
        invariant
            i <= n,
            v@.len() == i,
        decreases n - i,
    {
        v.push(Column::Null);
        i += 1;
    }
    v
}

/// `n` zeros.
fn zeros(n: usize) -> (r: Vec<u64>)
    ensures
        r@.len() == n,
        forall|i: int| 0 <= i < n ==> r@[i] == 0,
{
    let mut v: Vec<u64> = Vec::new();
    let mut i: usize = 0;
    while i < n
        invariant
            i <= n,
            v@.len() == i,
            forall|k: int| 0 <= k < i ==> v@[k] == 0,
        decreases n - i,
    {
        v.push(0);
        i += 1;
    }
    v
}

/// Whether two id lists are equal.
fn ids_eq(a: &Vec<Id>, b: &Vec<Id>) -> (r: bool)
    ensures
        r == (a@ == b@),
{
    if a.len() != b.len() {
        return false;
    }
    let mut i: usize = 0;
    while i < a.len()
        invariant
            a@.len() == b@.len(),
            i <= a@.len(),
            forall|j: int| 0 <= j < i ==> a@[j] == b@[j],
        decreases a@.len() - i,
    {
        if a[i] != b[i] {
            return false;
        }
        i += 1;
    }
    assert(a@ =~= b@);
    true
}

/// The id a term constrains.
pub open spec fn term_id(t: Term) -> Id {
    if t.second == 0 {
        Id::Entity(t.first)
    } else {
        Id::Pair(t.first, t.second)
    }
}

fn id_of_term(t: &Term) -> (r: Id)
    ensures
        r == term_id(*t),
{
    if t.second == 0 {
        Id::Entity(t.first)
    } else {
        Id::Pair(t.first, t.second)
    }
}

impl<V: Copy> World<V> {
    /// The entity one step up from `e` along `rel`: its parent for `ChildOf`,
    /// else the first target of its `(rel, _)` pairs; 0 when there is none.
    pub open spec fn step_up(&self, e: u64, rel: u64) -> u64 {
        if rel == CHILD_OF {
            if self.spec_alive(e) {
                self.parent_of(e)
            } else {
                0
            }
        } else if self.spec_alive(e) && crate::relations::targets_in(self.entries@, e, rel).len() > 0 {
            crate::relations::targets_in(self.entries@, e, rel)[0]
        } else {
            0
        }
    }

    /// The first entity above `e` along `rel` that holds `id`, looking at
    /// most `fuel` steps up; 0 when there is none.
    pub open spec fn up_source(&self, e: u64, rel: u64, id: Id, fuel: nat) -> u64
        decreases fuel,
    {
        if fuel == 0 {
            0
        } else {
            let next = self.step_up(e, rel);
            if next == 0 {
                0
            } else if self.spec_has(next, id) {
                next
            } else {
                self.up_source(next, rel, id, (fuel - 1) as nat)
            }
        }
    }

    /// The entity term `t` of `e` takes its value from, 0 when none holds it.
    pub open spec fn source_of(&self, e: u64, t: Term) -> u64 {
        let id = term_id(t);
        match t.src {
            SrcKind::This | SrcKind::Var(_) => if self.spec_has(e, id) {
                e
            } else {
                0
            },
            SrcKind::Singleton => if self.spec_has(t.first, id) {
                t.first
            } else {
                0
            },
            SrcKind::Fixed(x) => if self.spec_has(x, id) {
                x
            } else {
                0
            },
            SrcKind::Up(rel) => self.up_source(e, rel, id, self.alive@.len()),
        }
    }

    /// Whether `e` satisfies `terms[i..]`; `or_run` records that an earlier
    /// term of the current `or` chain was satisfied.
    pub open spec fn terms_match(&self, e: u64, terms: Seq<Term>, i: int, or_run: bool) -> bool
        decreases terms.len() - i,
    {
        if i >= terms.len() || i < 0 {
            true
        } else {
            let t = terms[i];
            let found = self.source_of(e, t) != 0;
            match t.oper {
                Oper::And | Oper::AndFrom => (found || or_run) && self.terms_match(e, terms, i + 1, false),
                Oper::Not | Oper::NotFrom => !found && self.terms_match(e, terms, i + 1, false),
                Oper::Optional => self.terms_match(e, terms, i + 1, false),
                Oper::Or | Oper::OrFrom => self.terms_match(e, terms, i + 1, or_run || found),
            }
        }
    }

    /// The entity a term of `e` takes its value from, 0 when none holds it.
    pub fn term_source(&self, e: u64, t: &Term) -> (r: u64)
        requires
            self.wf(),
        ensures
            r == self.source_of(e, *t),
            r != 0 ==> self.spec_has(r, term_id(*t)),
    {
        let id = id_of_term(t);
        match t.src {
            SrcKind::This | SrcKind::Var(_) => {
                if self.has(e, id) {
                    e
                } else {
                    0
                }
            },
            SrcKind::Singleton => {
                let c = t.first;
                if self.has(c, id) {
                    c
                } else {
                    0
                }
            },
            SrcKind::Fixed(x) => {
                if self.has(x, id) {
                    x
                } else {
                    0
                }
            },
            SrcKind::Up(rel) => {
                let mut cur = e;
                let mut fuel: usize = self.alive.len();
                while fuel > 0
                    invariant
                        self.wf(),
                        id == term_id(*t),
                        t.src == SrcKind::Up(rel),
                        fuel <= self.alive@.len(),
                        self.source_of(e, *t) == self.up_source(cur, rel, id, fuel as nat),
                    decreases fuel,
                {
                    let next = if rel == CHILD_OF {
                        self.parent(cur)
                    } else {
                        match self.target(cur, rel, 0) {
                            Some(p) => p,
                            None => 0,
                        }
                    };
                    if next == 0 {
                        return 0;
                    }
                    if self.has(next, id) {
                        return next;
                    }
                    cur = next;
                    fuel -= 1;
                }
                proof {
                    assert(self.up_source(cur, rel, id, 0) == 0);
                }
                0
            },
        }
    }

    /// Whether `e` satisfies the terms of `q`.
    pub fn matches(&self, e: u64, q: &Query) -> (r: bool)
        requires
            self.wf(),
        ensures
            r == (self.spec_alive(e) && self.terms_match(e, q.terms@, 0, false)),
    {
        if !self.is_alive(e) {
            return false;
        }
        let n = q.terms.len();
        let mut i: usize = 0;
        let mut or_run = false;
        while i < n
            invariant
                self.wf(),
                self.spec_alive(e),
                n == q.terms@.len(),
                i <= n,
                self.terms_match(e, q.terms@, 0, false) == self.terms_match(e, q.terms@, i as int, or_run),
            decreases n - i,
        {
            let t = &q.terms[i];
            let found = self.term_source(e, t) != 0;
            match t.oper {
                Oper::And | Oper::AndFrom => {
                    if !(found || or_run) {
                        return false;
                    }
                    or_run = false;
                },
                Oper::Not | Oper::NotFrom => {
                    if found {
                        return false;
                    }
                    or_run = false;
                },
                Oper::Optional => {
                    or_run = false;
                },
                Oper::Or | Oper::OrFrom => {
                    or_run = or_run || found;
                },
            }
            i += 1;
        }
        true
    }

    /// The batch a matched entity falls in is keyed by its ids and parent.
    fn batch_key(&self, e: u64) -> (r: (Vec<Id>, u64))
        requires
            self.wf(),
            self.spec_alive(e),
        ensures
            r.0@ == crate::relations::ids_in(self.entries@, e),
    {
        (self.archetype(e), self.parent(e))
    }

    /// Builds the batch of rows `members` for the declared fields.
    #[verifier::spinoff_prover]
    #[verifier::rlimit(50)]
    fn make_batch(&self, fields: &FieldsTuple, q: &Query, members: &Vec<u64>, group_id: u64) -> (r: IterRecord<V>)
        requires
            self.wf(),
            fields.wf(),
            members@.len() >= 1,
        ensures
            r.wf(fields.spec_count()),
            r.count == members@.len(),
            r.entities@ == members@,
            r.group_id == group_id,
            forall|i: int|
                0 <= i < fields.spec_count() ==> #[trigger] self.column_holds(r.columns@[i], r.sources@[i], crate::batch::bit(r.row_fields, i), crate::batch::bit(r.ref_fields, i), members@, field_term_in(q, fields, i)),
    {
        let n = fields.fields.len();
        let mut columns: Vec<Column<V>> = Vec::new();
        let mut sources: Vec<u64> = Vec::new();
        let mut ref_fields: u32 = 0;
        let mut up_fields: u32 = 0;
        let mut row_fields: u32 = 0;
        let first = members[0];
        proof {
            assert forall|j: int| 0 <= j < 32 implies !crate::batch::bit(0u32, j) by {
                lemma_no_bit(j);
            }
        }
        let mut i: usize = 0;
        while i < n
            invariant
                self.wf(),
                n == fields.spec_count(),
                n <= MAX_FIELDS,
                i <= n,
                columns@.len() == i,
                sources@.len() == i,
                members@.len() >= 1,
                first == members@[0],
                ref_fields == 0 && up_fields == 0 ==> forall|j: int| 0 <= j < i ==> sources@[j] == 0,
                forall|j: int|
                    i <= j < 32 ==> !crate::batch::bit(row_fields, j) && !crate::batch::bit(ref_fields, j)
                        && !#[trigger] crate::batch::bit(up_fields, j),
                forall|j: int|
                    0 <= j < 32 && #[trigger] crate::batch::bit(row_fields, j) ==> crate::batch::bit(ref_fields, j),
                forall|j: int|
                    0 <= j < i ==> #[trigger] self.column_holds(
                        columns@[j],
                        sources@[j],
                        crate::batch::bit(row_fields, j),
                        crate::batch::bit(ref_fields, j),
                        members@,
                        field_term_in(q, fields, j),
                    ),
            decreases n - i,
        {
            let t = if i < q.terms.len() {
                q.terms[i]
            } else {
                crate::builder::make_term(fields.fields[i].id, Oper::And, crate::builder::InOut::Default)
            };
            assert(t == field_term_in(q, fields, i as int));
            let id = id_of_term(&t);
            let ghost prev_columns = columns@;
            let ghost prev_sources = sources@;
            let ghost rw0 = row_fields;
            let ghost rf0 = ref_fields;
            let ghost uf0 = up_fields;
            let ghost mut set_row = false;
            let ghost mut set_ref = false;
            let ghost mut set_up = false;
            let sh = i as u32;
            let bit: u32 = 1u32 << sh;
            let shared = match t.src {
                SrcKind::This | SrcKind::Var(_) => false,
                _ => true,
            };
            if shared {
                let src = self.term_source(first, &t);
                if src == 0 {
                    columns.push(Column::Null);
                    sources.push(0);
                } else {
                    match self.get(src, id) {
                        Some(v) => {
                            let mut one: Vec<V> = Vec::new();
                            one.push(v);
                            columns.push(Column::Array(one));
                        },
                        None => columns.push(Column::Null),
                    }
                    sources.push(src);
                    match t.src {
                        SrcKind::Up(_) => {
                            let nb = up_fields | bit;
                            assert(nb != 0u32) by (bit_vector)
                                requires
                                    nb == up_fields | bit,
                                    bit == 1u32 << sh,
                                    sh < 32,
                            ;
                            up_fields = nb;
                            proof {
                                set_up = true;
                            }
                        },
                        _ => {
                            let nb = ref_fields | bit;
                            assert(nb != 0u32) by (bit_vector)
                                requires
                                    nb == ref_fields | bit,
                                    bit == 1u32 << sh,
                                    sh < 32,
                            ;
                            ref_fields = nb;
                            proof {
                                set_ref = true;
                            }
                        },
                    }
                }
            } else {
                let mut col: Vec<V> = Vec::new();
                let mut opts: Vec<Option<V>> = Vec::new();
                let mut all = true;
                let mut k: usize = 0;
                while k < members.len()
                    invariant
                        self.wf(),
                        k <= members@.len(),
                        opts@.len() == k,
                        forall|j: int| 0 <= j < k ==> self.spec_get(members@[j], id) == #[trigger] opts@[j],
                        all ==> col@.len() == k,
                        all ==> forall|j: int|
                            0 <= j < k ==> self.spec_get(members@[j], id) == Some(#[trigger] col@[j]),
                    decreases members@.len() - k,
                {
                    let v = self.get(members[k], id);
                    opts.push(v);
                    match v {
                        Some(x) => col.push(x),
                        None => {
                            all = false;
                        },
                    }
                    k += 1;
                }
                if all {
                    columns.push(Column::Array(col));
                    sources.push(0);
                } else {
                    columns.push(Column::Sparse(opts));
                    sources.push(0);
                    // rows without a value are fetched one by one
                    let nr = row_fields | bit;
                    let nf = ref_fields | bit;
                    assert(nf != 0u32) by (bit_vector)
                        requires
                            nf == ref_fields | bit,
                            bit == 1u32 << sh,
                            sh < 32,
                    ;
                    row_fields = nr;
                    ref_fields = nf;
                    proof {
                        set_row = true;
                        set_ref = true;
                    }
                }
            }
            proof {
                assert(row_fields == if set_row { rw0 | bit } else { rw0 });
                assert(ref_fields == if set_ref { rf0 | bit } else { rf0 });
                assert(up_fields == if set_up { uf0 | bit } else { uf0 });
                assert(set_row ==> set_ref);
                assert forall|j: int| 0 <= j < 32 implies (crate::batch::bit(row_fields, j) == (crate::batch::bit(rw0, j)
                    || (j == i && set_row))) && (crate::batch::bit(ref_fields, j) == (crate::batch::bit(rf0, j)
                    || (j == i && set_ref))) && (crate::batch::bit(up_fields, j) == (crate::batch::bit(uf0, j)
                    || (j == i && set_up))) by {
                    lemma_set_bit(rw0, i as int, j);
                    lemma_set_bit(rf0, i as int, j);
                    lemma_set_bit(uf0, i as int, j);
                }
                assert forall|j: int| 0 <= j < i + 1 implies #[trigger] self.column_holds(
                    columns@[j],
                    sources@[j],
                    crate::batch::bit(row_fields, j),
                    crate::batch::bit(ref_fields, j),
                    members@,
                    field_term_in(q, fields, j),
                ) by {
                    if j == i {
                        assert(crate::batch::bit(row_fields, j) == set_row);
                        assert(crate::batch::bit(ref_fields, j) == set_ref);
                        assert(field_term_in(q, fields, j) == t);
                    }
                    if j < i {
                        assert(columns@[j] == prev_columns[j] && sources@[j] == prev_sources[j]);
                        assert(self.column_holds(
                            prev_columns[j],
                            prev_sources[j],
                            crate::batch::bit(rw0, j),
                            crate::batch::bit(rf0, j),
                            members@,
                            field_term_in(q, fields, j),
                        ));
                    }
                }
            }
            i += 1;
        }
        let mut entities: Vec<u64> = Vec::new();
        let mut k: usize = 0;
        while k < members.len()
            invariant
                k <= members@.len(),
                entities@ == members@.subrange(0, k as int),
            decreases members@.len() - k,
        {
            entities.push(members[k]);
            proof {
                assert(members@.subrange(0, k + 1) =~= members@.subrange(0, k as int).push(members@[k as int]));
            }
            k += 1;
        }
        assert(members@.subrange(0, members@.len() as int) =~= members@);
        let r = IterRecord {
            count: members.len(),
            entities,
            columns,
            sources,
            ref_fields,
            up_fields,
            row_fields,
            group_id,
        };
        proof {
            let rf = ref_fields;
            let uf = up_fields;
            assert(rf | uf == 0u32 ==> rf == 0u32 && uf == 0u32) by (bit_vector);
            assert forall|j: int| 0 <= j < n && !crate::batch::spec_ref_or_up(&r) implies !crate::batch::bit(row_fields, j) by {
                if crate::batch::bit(row_fields, j) {
                    lemma_bit_nonzero(ref_fields, j);
                }
            }
        }
        r
    }

    /// Column `c` with source `s` holds what term `t` reads for `members`:
    /// nothing when no entity holds the id, the single shared value, or each
    /// member's own value in row order.
    pub open spec fn column_holds(
        &self,
        c: Column<V>,
        s: u64,
        row_bit: bool,
        ref_bit: bool,
        members: Seq<u64>,
        t: Term,
    ) -> bool {
        let id = term_id(t);
        members.len() == 0 || if is_shared(t) {
            let src = self.source_of(members[0], t);
            &&& !row_bit
            &&& c is Null || c is Array
            &&& src == 0 ==> c is Null && s == 0
            &&& src != 0 ==> s == src
            &&& src != 0 && self.spec_get(src, id) is Some ==> c is Array
            &&& c matches Column::Array(v) ==> v@.len() == 1 && self.spec_get(src, id) == Some(v@[0])
        } else {
            &&& s == 0
            &&& c is Array || c is Sparse
            &&& row_bit == (c is Sparse)
            &&& c is Sparse ==> ref_bit
            &&& c matches Column::Array(v) ==> v@.len() == members.len() && forall|k: int|
                0 <= k < members.len() ==> self.spec_get(members[k], id) == Some(#[trigger] v@[k])
            &&& c matches Column::Sparse(v) ==> v@.len() == members.len() && forall|k: int|
                0 <= k < members.len() ==> self.spec_get(members[k], id) == #[trigger] v@[k]
        }
    }

    /// The value a row yields for term `t` is what the world holds: on the
    /// row's entity, or on the singleton or fixed source; for a term found
    /// by traversal, a present value is held by some ancestor.
    pub open spec fn value_read(&self, v: Option<V>, e: u64, t: Term) -> bool {
        match t.src {
            SrcKind::This | SrcKind::Var(_) => v == self.spec_get(e, term_id(t)),
            SrcKind::Singleton => v == self.spec_get(t.first, term_id(t)),
            SrcKind::Fixed(f) => v == self.spec_get(f, term_id(t)),
            SrcKind::Up(_) => v matches Some(x) ==> exists|a: u64| a != 0 && self.spec_get(a, term_id(t)) == Some(x),
        }
    }

    /// Every value of `row` for a term of `q` is what the world holds.
    pub open spec fn row_reads(&self, row: Row<V>, q: &Query) -> bool {
        forall|i: int|
            0 <= i < row.values@.len() && i < q.terms@.len() ==> self.value_read(
                #[trigger] row.values@[i],
                row.entity,
                q.terms@[i],
            )
    }

    /// Rows read from a batch built for `q` read the world.
    pub proof fn lemma_rows_read(&self, it: &IterRecord<V>, fields: &FieldsTuple, q: &Query, rows: Seq<Row<V>>)
        requires
            fields.wf(),
            it.wf(fields.spec_count()),
            forall|i: int|
                0 <= i < fields.spec_count() ==> #[trigger] self.column_holds(it.columns@[i], it.sources@[i], crate::batch::bit(it.row_fields, i), crate::batch::bit(it.ref_fields, i), it.entities@, field_term_in(q, fields, i)),
            rows.len() == it.count,
            forall|row: int|
                0 <= row < rows.len() ==> {
                    &&& (#[trigger] rows[row]).entity == it.entities@[row]
                    &&& rows[row].values@.len() == fields.spec_count()
                    &&& forall|i: int|
                        0 <= i < fields.spec_count() ==> #[trigger] rows[row].values@[i] == it.spec_get(
                            expected_cell(it, i, row),
                        )
                },
        ensures
            forall|row: int| 0 <= row < rows.len() ==> self.row_reads(#[trigger] rows[row], q),
    {
        assert forall|row: int| 0 <= row < rows.len() implies self.row_reads(#[trigger] rows[row], q) by {
            let r = rows[row];
            assert forall|i: int| 0 <= i < r.values@.len() && i < q.terms@.len() implies self.value_read(
                #[trigger] r.values@[i],
                r.entity,
                q.terms@[i],
            ) by {
                let t = q.terms@[i];
                assert(field_term_in(q, fields, i) == t);
                assert(self.column_holds(it.columns@[i], it.sources@[i], crate::batch::bit(it.row_fields, i), crate::batch::bit(it.ref_fields, i), it.entities@, t));
                lemma_no_bit(i);
                assert(r.values@[i] == it.spec_get(expected_cell(it, i, row)));
                if is_shared(t) {
                    if it.sources@[i] != 0 {
                        assert(spec_ref_or_up_of(it));
                    }
                } else {
                    assert(it.sources@[i] == 0);
                }
            }
        }
    }

    /// The group key of `e`'s batch under `q`: the target of its first
    /// `(rel, _)` pair when `q` groups by `rel`, 0 otherwise.
    pub open spec fn group_key_of(&self, q: &Query, e: u64) -> u64 {
        match q.group_by {
            Some(rel) => crate::group::default_group_key(crate::relations::ids_in(self.entries@, e), rel),
            None => 0,
        }
    }

    /// Whether `e` is a match of `q`.
    pub open spec fn is_match(&self, e: u64, q: &Query) -> bool {
        self.spec_alive(e) && self.terms_match(e, q.terms@, 0, false)
    }

    /// Every live entity that matches `q`, by slot.
    pub fn matching(&self, q: &Query) -> (r: Vec<u64>)
        requires
            self.wf(),
        ensures
            forall|k: int| 0 <= k < r@.len() ==> self.is_match(#[trigger] r@[k], q),
            forall|x: u64| #[trigger] self.is_match(x, q) ==> r@.contains(x),
            r@.no_duplicates(),
    {
        let mut out: Vec<u64> = Vec::new();
        let mut s: usize = 1;
        while s < self.alive.len()
            invariant
                self.wf(),
                1 <= s <= self.alive@.len(),
                forall|k: int| 0 <= k < out@.len() ==> self.is_match(#[trigger] out@[k], q),
                forall|x: u64| #[trigger] self.is_match(x, q) && crate::ids::index_of(x) < s ==> out@.contains(x),
                forall|k: int| 0 <= k < out@.len() ==> crate::ids::index_of(#[trigger] out@[k]) < s,
                forall|k1: int, k2: int|
                    0 <= k1 < k2 < out@.len() ==> crate::ids::index_of(#[trigger] out@[k1]) < crate::ids::index_of(
                        #[trigger] out@[k2],
                    ),
            decreases self.alive@.len() - s,
        {
            if self.alive[s] {
                let e = crate::ids::compose_id(s as u64, self.gens[s]);
                if self.matches(e, q) {
                    let ghost prev = out@;
                    out.push(e);
                    proof {
                        assert forall|k: int| 0 <= k < out@.len() implies crate::ids::index_of(#[trigger] out@[k]) < s + 1 by {
                            if k < prev.len() {
                                assert(out@[k] == prev[k]);
                            }
                        }
                        assert forall|k1: int, k2: int| 0 <= k1 < k2 < out@.len() implies crate::ids::index_of(
                            #[trigger] out@[k1],
                        ) < crate::ids::index_of(#[trigger] out@[k2]) by {
                            assert(out@[k1] == prev[k1]);
                            if k2 < prev.len() {
                                assert(out@[k2] == prev[k2]);
                            }
                        }
                        assert forall|x: u64| #[trigger] self.is_match(x, q) && crate::ids::index_of(x) < s + 1
                            implies out@.contains(x) by {
                            if crate::ids::index_of(x) == s {
                                crate::ids::lemma_id_parts(x, e);
                                assert(out@[prev.len() as int] == e);
                            } else {
                                assert(prev.contains(x));
                                let w = choose|w: int| 0 <= w < prev.len() && prev[w] == x;
                                assert(out@[w] == x);
                            }
                        }
                    }
                } else {
                    proof {
                        assert forall|x: u64| #[trigger] self.is_match(x, q) && crate::ids::index_of(x) < s + 1
                            implies out@.contains(x) by {
                            if crate::ids::index_of(x) == s {
                                crate::ids::lemma_id_parts(x, e);
                            }
                        }
                    }
                }
            } else {
                proof {
                    assert forall|x: u64| #[trigger] self.is_match(x, q) && crate::ids::index_of(x) < s + 1
                        implies out@.contains(x) by {
                        if crate::ids::index_of(x) == s {
                        }
                    }
                }
            }
            s += 1;
        }
        proof {
            assert forall|x: u64| #[trigger] self.is_match(x, q) implies out@.contains(x) by {
                assert(crate::ids::index_of(x) < s);
            }
            assert forall|k1: int, k2: int| 0 <= k1 < out@.len() && 0 <= k2 < out@.len() && k1 != k2 implies out@[k1]
                != out@[k2] by {
                if k1 < k2 {
                    assert(crate::ids::index_of(out@[k1]) < crate::ids::index_of(out@[k2]));
                } else {
                    assert(crate::ids::index_of(out@[k2]) < crate::ids::index_of(out@[k1]));
                }
            }
        }
        out
    }

    /// The batches matching `q`: matched entities grouped by their ids and
    /// parent. Every match is in a batch, and every row of a batch is a match.
    pub fn batches(&self, fields: &FieldsTuple, q: &Query) -> (r: Vec<IterRecord<V>>)
        requires
            self.wf(),
            fields.wf(),
        ensures
            forall|b: int| 0 <= b < r@.len() ==> (#[trigger] r@[b]).wf(fields.spec_count()),
            forall|b: int, k: int|
                0 <= b < r@.len() && 0 <= k < r@[b].entities@.len() ==> self.is_match(
                    #[trigger] r@[b].entities@[k],
                    q,
                ),
            forall|x: u64| #[trigger] self.is_match(x, q) ==> exists|b: int|
                0 <= b < r@.len() && r@[b].entities@.contains(x),
            forall|b: int, i: int|
                0 <= b < r@.len() && 0 <= i < fields.spec_count() ==> #[trigger] self.column_holds(r@[b].columns@[i], r@[b].sources@[i], crate::batch::bit(r@[b].row_fields, i), crate::batch::bit(r@[b].ref_fields, i), r@[b].entities@, field_term_in(q, fields, i)),
            forall|b: int, k: int|
                0 <= b < r@.len() && 0 <= k < r@[b].entities@.len() ==> r@[b].group_id == self.group_key_of(
                    q,
                    #[trigger] r@[b].entities@[k],
                ),
            forall|b: int| 0 <= b < r@.len() ==> (#[trigger] r@[b]).entities@.no_duplicates(),
            forall|b1: int, b2: int, k1: int, k2: int|
                0 <= b1 < r@.len() && 0 <= b2 < r@.len() && b1 != b2 && 0 <= k1 < r@[b1].entities@.len() && 0
                    <= k2 < r@[b2].entities@.len() ==> #[trigger] r@[b1].entities@[k1]
                    != #[trigger] r@[b2].entities@[k2],
    {
        let matched = self.matching(q);
        let mut keys: Vec<(Vec<Id>, u64)> = Vec::new();
        let mut assign: Vec<usize> = Vec::new();
        let mut j: usize = 0;
        while j < matched.len()
            invariant
                self.wf(),
                j <= matched@.len(),
                assign@.len() == j,
                forall|i: int| 0 <= i < j ==> #[trigger] assign@[i] < keys@.len(),
                forall|k: int| 0 <= k < matched@.len() ==> self.is_match(#[trigger] matched@[k], q),
                forall|i: int|
                    0 <= i < j ==> crate::relations::ids_in(self.entries@, matched@[i]) == keys@[#[trigger] assign@[i] as int].0@,
            decreases matched@.len() - j,
        {
            let ghost keys0 = keys@;
            let ghost assign0 = assign@;
            let key = self.batch_key(matched[j]);
            let mut b: usize = 0;
            let mut found = false;
            while b < keys.len() && !found
                invariant
                    b <= keys@.len(),
                    found ==> b < keys@.len(),
                    found ==> keys@[b as int].0@ == key.0@,
                decreases keys@.len() - b + (if found { 0int } else { 1int }),
            {
                if ids_eq(&keys[b].0, &key.0) && keys[b].1 == key.1 {
                    found = true;
                    assert(keys@[b as int].0@ == key.0@);
                } else {
                    b += 1;
                }
            }
            if found {
                assign.push(b);
            } else {
                assign.push(keys.len());
                keys.push(key);
            }
            proof {
                assert forall|i: int| 0 <= i < j + 1 implies crate::relations::ids_in(self.entries@, matched@[i])
                    == keys@[#[trigger] assign@[i] as int].0@ by {
                    if i < j {
                        assert(assign@[i] == assign0[i]);
                        assert(keys@[assign0[i] as int] == keys0[assign0[i] as int]);
                    }
                }
            }
            j += 1;
        }
        let mut out: Vec<IterRecord<V>> = Vec::new();
        let mut b: usize = 0;
        while b < keys.len()
            invariant
                self.wf(),
                fields.wf(),
                b <= keys@.len(),
                assign@.len() == matched@.len(),
                forall|i: int| 0 <= i < matched@.len() ==> #[trigger] assign@[i] < keys@.len(),
                forall|k: int| 0 <= k < matched@.len() ==> self.is_match(#[trigger] matched@[k], q),
                out@.len() == b,
                forall|c: int| 0 <= c < out@.len() ==> (#[trigger] out@[c]).wf(fields.spec_count()),
                forall|c: int, k: int|
                    0 <= c < out@.len() && 0 <= k < out@[c].entities@.len() ==> self.is_match(
                        #[trigger] out@[c].entities@[k],
                        q,
                    ),
                forall|i: int|
                    0 <= i < matched@.len() && #[trigger] assign@[i] < b ==> out@[assign@[i] as int].entities@.contains(
                        matched@[i],
                    ),
                forall|c: int, i: int|
                    0 <= c < out@.len() && 0 <= i < fields.spec_count() ==> #[trigger] self.column_holds(out@[c].columns@[i], out@[c].sources@[i], crate::batch::bit(out@[c].row_fields, i), crate::batch::bit(out@[c].ref_fields, i), out@[c].entities@, field_term_in(q, fields, i)),
                forall|i: int|
                    0 <= i < matched@.len() ==> crate::relations::ids_in(self.entries@, matched@[i]) == keys@[#[trigger] assign@[i] as int].0@,
                forall|c: int, k: int|
                    0 <= c < out@.len() && 0 <= k < out@[c].entities@.len() ==> out@[c].group_id == self.group_key_of(
                        q,
                        #[trigger] out@[c].entities@[k],
                    ),
                matched@.no_duplicates(),
                forall|c: int| 0 <= c < out@.len() ==> (#[trigger] out@[c]).entities@.no_duplicates(),
                forall|c: int, k: int|
                    0 <= c < out@.len() && 0 <= k < out@[c].entities@.len() ==> assigned_to(
                        matched@,
                        assign@,
                        #[trigger] out@[c].entities@[k],
                        c,
                    ),
            decreases keys@.len() - b,
        {
            let mut members: Vec<u64> = Vec::new();
            let ghost mut idx: Seq<int> = Seq::empty();
            let mut i: usize = 0;
            while i < matched.len()
                invariant
                    matched@.no_duplicates(),
                    idx.len() == members@.len(),
                    forall|k: int| 0 <= k < idx.len() ==> 0 <= #[trigger] idx[k] < i,
                    forall|k: int| 0 <= k < idx.len() ==> members@[k] == matched@[#[trigger] idx[k]] && assign@[idx[k]] == b,
                    forall|k1: int, k2: int| 0 <= k1 < k2 < idx.len() ==> #[trigger] idx[k1] < #[trigger] idx[k2],
                    i <= matched@.len(),
                    assign@.len() == matched@.len(),
                    forall|k: int| 0 <= k < matched@.len() ==> self.is_match(#[trigger] matched@[k], q),
                    forall|k: int| 0 <= k < members@.len() ==> self.is_match(#[trigger] members@[k], q),
                    forall|k: int| 0 <= k < i && #[trigger] assign@[k] == b ==> members@.contains(matched@[k]),
                    forall|k: int|
                        0 <= k < members@.len() ==> crate::relations::ids_in(self.entries@, #[trigger] members@[k]) == keys@[b as int].0@,
                    forall|k: int|
                        0 <= k < matched@.len() ==> crate::relations::ids_in(self.entries@, matched@[k]) == keys@[#[trigger] assign@[k] as int].0@,
                decreases matched@.len() - i,
            {
                if assign[i] == b {
                    let ghost prev = members@;
                    members.push(matched[i]);
                    proof {
                        idx = idx.push(i as int);
                        assert forall|k: int| 0 <= k < i + 1 && #[trigger] assign@[k] == b implies members@.contains(
                            matched@[k],
                        ) by {
                            if k < i {
                                let w = choose|w: int| 0 <= w < prev.len() && prev[w] == matched@[k];
                                assert(members@[w] == matched@[k]);
                            } else {
                                assert(members@[prev.len() as int] == matched@[k]);
                            }
                        }
                    }
                }
                i += 1;
            }
            proof {
                assert forall|k1: int, k2: int| 0 <= k1 < members@.len() && 0 <= k2 < members@.len() && k1 != k2
                    implies members@[k1] != members@[k2] by {
                    if k1 < k2 {
                        assert(idx[k1] < idx[k2]);
                    } else {
                        assert(idx[k2] < idx[k1]);
                    }
                    assert(members@[k1] == matched@[idx[k1]] && members@[k2] == matched@[idx[k2]]);
                }
                assert forall|k: int| 0 <= k < members@.len() implies assigned_to(matched@, assign@, #[trigger] members@[k], b as int) by {
                    assert(members@[k] == matched@[idx[k]] && assign@[idx[k]] == b);
                }
            }
            let g = match q.group_by {
                Some(rel) => group_by_default(&keys[b].0, rel),
                None => 0,
            };
            if members.len() > 0 {
                let it = self.make_batch(fields, q, &members, g);
                out.push(it);
            } else {
                // a key always has its first member; keep batch indices aligned
                let it = IterRecord {
                    count: 0,
                    entities: Vec::new(),
                    columns: empty_columns(fields.fields.len()),
                    sources: zeros(fields.fields.len()),
                    ref_fields: 0,
                    up_fields: 0,
                    row_fields: 0,
                    group_id: g,
                };
                proof {
                    assert(0u32 | 0u32 == 0u32) by (bit_vector);
                    assert forall|j: int| 0 <= j < fields.spec_count() implies !crate::batch::bit(0u32, j) by {
                        let jj = j as u32;
                        assert((0u32 >> jj) & 1u32 != 1u32) by (bit_vector);
                    }
                }
                out.push(it);
            }
            b += 1;
        }
        proof {
            assert forall|b1: int, b2: int, k1: int, k2: int|
                0 <= b1 < out@.len() && 0 <= b2 < out@.len() && b1 != b2 && 0 <= k1 < out@[b1].entities@.len() && 0
                    <= k2 < out@[b2].entities@.len() implies #[trigger] out@[b1].entities@[k1]
                    != #[trigger] out@[b2].entities@[k2] by {
                if out@[b1].entities@[k1] == out@[b2].entities@[k2] {
                    let x = out@[b1].entities@[k1];
                    assert(assigned_to(matched@, assign@, x, b1));
                    assert(assigned_to(matched@, assign@, x, b2));
                    let i1 = choose|i: int| 0 <= i < matched@.len() && matched@[i] == x && assign@[i] == b1;
                    let i2 = choose|i: int| 0 <= i < matched@.len() && matched@[i] == x && assign@[i] == b2;
                    assert(i1 == i2);
                }
            }
            assert forall|x: u64| #[trigger] self.is_match(x, q) implies exists|c: int|
                0 <= c < out@.len() && out@[c].entities@.contains(x) by {
                assert(matched@.contains(x));
                let i = choose|i: int| 0 <= i < matched@.len() && matched@[i] == x;
                let c = assign@[i] as int;
                assert(out@[c].entities@.contains(matched@[i]));
            }
        }
        out
    }

    /// Every matching row, batch by batch; with grouping, batches are visited
    /// by group key, ascending unless the query asks for descending order.
    /// Each row belongs to a match of `q`, and each match has a row.
    pub fn each(&self, fields: &FieldsTuple, q: &Query) -> (r: Vec<Row<V>>)
        requires
            self.wf(),
            fields.wf(),
        ensures
            forall|k: int| 0 <= k < r@.len() ==> (#[trigger] r@[k]).values@.len() == fields.spec_count(),
            forall|k: int| 0 <= k < r@.len() ==> self.is_match((#[trigger] r@[k]).entity, q),
            forall|x: u64| #[trigger] self.is_match(x, q) ==> exists|k: int| 0 <= k < r@.len() && r@[k].entity == x,
            forall|k: int| 0 <= k < r@.len() ==> self.row_reads(#[trigger] r@[k], q),
            forall|k: int| 0 <= k < r@.len() ==> (#[trigger] r@[k]).group == self.group_key_of(q, r@[k].entity),
            forall|k1: int, k2: int|
                0 <= k1 < k2 < r@.len() ==> in_order(
                    (#[trigger] r@[k1]).group,
                    (#[trigger] r@[k2]).group,
                    q.order_desc,
                ),
            forall|k1: int, k2: int|
                0 <= k1 < r@.len() && 0 <= k2 < r@.len() && k1 != k2 ==> (#[trigger] r@[k1]).entity
                    != (#[trigger] r@[k2]).entity,
    {
        let bs = self.batches(fields, q);
        let mut keys: Vec<u64> = Vec::new();
        let mut b: usize = 0;
        while b < bs.len()
            invariant
                b <= bs@.len(),
                keys@.len() == b,
                forall|c: int| 0 <= c < b ==> #[trigger] keys@[c] == bs@[c].group_id,
            decreases bs@.len() - b,
        {
            keys.push(bs[b].group_id);
            b += 1;
        }
        let order = group_visit_order(&keys, q.order_desc);
        let mut out: Vec<Row<V>> = Vec::new();
        let mut p: usize = 0;
        while p < order.len()
            invariant
                self.wf(),
                fields.wf(),
                keys@.len() == bs@.len(),
                forall|c: int| 0 <= c < bs@.len() ==> (#[trigger] bs@[c]).wf(fields.spec_count()),
                forall|c: int, k: int|
                    0 <= c < bs@.len() && 0 <= k < bs@[c].entities@.len() ==> self.is_match(
                        #[trigger] bs@[c].entities@[k],
                        q,
                    ),
                forall|k: int| 0 <= k < out@.len() ==> (#[trigger] out@[k]).values@.len() == fields.spec_count(),
                forall|k: int| 0 <= k < out@.len() ==> self.is_match((#[trigger] out@[k]).entity, q),
                forall|k: int| 0 <= k < out@.len() ==> self.row_reads(#[trigger] out@[k], q),
                forall|c: int, i: int|
                    0 <= c < bs@.len() && 0 <= i < fields.spec_count() ==> #[trigger] self.column_holds(bs@[c].columns@[i], bs@[c].sources@[i], crate::batch::bit(bs@[c].row_fields, i), crate::batch::bit(bs@[c].ref_fields, i), bs@[c].entities@, field_term_in(q, fields, i)),
                forall|t: int| 0 <= t < order@.len() ==> #[trigger] order@[t] < bs@.len(),
                forall|c: int| 0 <= c < bs@.len() ==> #[trigger] keys@[c] == bs@[c].group_id,
                forall|c: int, k: int|
                    0 <= c < bs@.len() && 0 <= k < bs@[c].entities@.len() ==> bs@[c].group_id == self.group_key_of(
                        q,
                        #[trigger] bs@[c].entities@[k],
                    ),
                !q.order_desc ==> forall|t1: int, t2: int|
                    0 <= t1 < t2 < order@.len() ==> keys@[#[trigger] order@[t1] as int] <= keys@[#[trigger] order@[t2] as int],
                q.order_desc ==> forall|t1: int, t2: int|
                    0 <= t1 < t2 < order@.len() ==> keys@[#[trigger] order@[t1] as int] >= keys@[#[trigger] order@[t2] as int],
                forall|k: int| 0 <= k < out@.len() ==> (#[trigger] out@[k]).group == self.group_key_of(q, out@[k].entity),
                forall|k1: int, k2: int|
                    0 <= k1 < k2 < out@.len() ==> in_order(
                        (#[trigger] out@[k1]).group,
                        (#[trigger] out@[k2]).group,
                        q.order_desc,
                    ),
                p > 0 ==> forall|k: int|
                    0 <= k < out@.len() ==> in_order(
                        (#[trigger] out@[k]).group,
                        keys@[order@[p - 1] as int],
                        q.order_desc,
                    ),
                p == 0 ==> out@.len() == 0,
                order@.no_duplicates(),
                forall|c: int| 0 <= c < bs@.len() ==> (#[trigger] bs@[c]).entities@.no_duplicates(),
                forall|b1: int, b2: int, k1: int, k2: int|
                    0 <= b1 < bs@.len() && 0 <= b2 < bs@.len() && b1 != b2 && 0 <= k1 < bs@[b1].entities@.len()
                        && 0 <= k2 < bs@[b2].entities@.len() ==> #[trigger] bs@[b1].entities@[k1]
                        != #[trigger] bs@[b2].entities@[k2],
                forall|k: int| 0 <= k < out@.len() ==> in_visited(bs@, order@, p as int, (#[trigger] out@[k]).entity),
                forall|k1: int, k2: int|
                    0 <= k1 < out@.len() && 0 <= k2 < out@.len() && k1 != k2 ==> (#[trigger] out@[k1]).entity
                        != (#[trigger] out@[k2]).entity,
                forall|t: int, k: int|
                    0 <= t < p && 0 <= k < bs@[order@[t] as int].entities@.len() ==> has_row_for(
                        out@,
                        #[trigger] bs@[order@[t] as int].entities@[k],
                    ),
                p <= order@.len(),
            decreases order@.len() - p,
        {
            let bi = order[p];
            let mut rows = rows_of_batch(fields, &bs[bi]);
            let ghost rs = rows@;
            let ghost out0 = out@;
            let ghost g = keys@[bi as int];
            proof {
                if p > 0 {
                    let pp = (p - 1) as int;
                    assert(in_order(keys@[order@[pp] as int], keys@[order@[p as int] as int], q.order_desc));
                    assert forall|k: int| 0 <= k < out0.len() implies in_order((#[trigger] out0[k]).group, g, q.order_desc) by {
                        assert(in_order(out0[k].group, keys@[order@[pp] as int], q.order_desc));
                    }
                }
                assert forall|j: int| 0 <= j < rs.len() implies (#[trigger] rs[j]).group == g
                    && rs[j].group == self.group_key_of(q, rs[j].entity) by {
                    assert(rs[j].entity == bs@[bi as int].entities@[j]);
                }
            }
            proof {
                let it = bs@[bi as int];
                assert forall|i: int| 0 <= i < fields.spec_count() implies #[trigger] self.column_holds(it.columns@[i], it.sources@[i], crate::batch::bit(it.row_fields, i), crate::batch::bit(it.ref_fields, i), it.entities@, field_term_in(q, fields, i)) by {
                    assert(self.column_holds(bs@[bi as int].columns@[i], bs@[bi as int].sources@[i], crate::batch::bit(bs@[bi as int].row_fields, i), crate::batch::bit(bs@[bi as int].ref_fields, i), bs@[bi as int].entities@, field_term_in(q, fields, i)));
                }
                self.lemma_rows_read(&it, fields, q, rs);
            }
            while rows.len() > 0
                invariant
                    forall|j: int| 0 <= j < rows@.len() ==> (#[trigger] rows@[j]).values@.len() == fields.spec_count(),
                    forall|j: int| 0 <= j < rows@.len() ==> self.is_match((#[trigger] rows@[j]).entity, q),
                    forall|j: int| 0 <= j < rows@.len() ==> self.row_reads(#[trigger] rows@[j], q),
                    forall|k: int| 0 <= k < out@.len() ==> self.row_reads(#[trigger] out@[k], q),
                    forall|k: int| 0 <= k < out@.len() ==> (#[trigger] out@[k]).values@.len() == fields.spec_count(),
                    forall|k: int| 0 <= k < out@.len() ==> self.is_match((#[trigger] out@[k]).entity, q),
                    out@.len() >= out0.len(),
                    forall|w: int| 0 <= w < out0.len() ==> #[trigger] out@[w] == out0[w],
                    rs.len() == out@.len() - out0.len() + rows@.len(),
                    forall|j: int| 0 <= j < rows@.len() ==> #[trigger] rows@[j] == rs[rs.len() - rows@.len() + j],
                    forall|j: int| 0 <= j < out@.len() - out0.len() ==> #[trigger] out@[out0.len() + j] == rs[j],
                    forall|j: int| 0 <= j < rs.len() ==> (#[trigger] rs[j]).group == g,
                    forall|j: int| 0 <= j < rs.len() ==> (#[trigger] rs[j]).group == self.group_key_of(q, rs[j].entity),
                    forall|k: int| 0 <= k < out0.len() ==> (#[trigger] out0[k]).group == self.group_key_of(q, out0[k].entity),
                    p > 0 ==> forall|k: int| 0 <= k < out0.len() ==> in_order((#[trigger] out0[k]).group, g, q.order_desc),
                    p == 0 ==> out0.len() == 0,
                    forall|k1: int, k2: int|
                        0 <= k1 < k2 < out0.len() ==> in_order(
                            (#[trigger] out0[k1]).group,
                            (#[trigger] out0[k2]).group,
                            q.order_desc,
                        ),
                decreases rows@.len(),
            {
                let x = rows.remove(0);
                out.push(x);
            }
            proof {
                let it = bs@[bi as int];
                assert forall|k: int| 0 <= k < out@.len() implies in_visited(bs@, order@, p + 1, (#[trigger] out@[k]).entity) by {
                    if k < out0.len() {
                        assert(out@[k] == out0[k]);
                        assert(in_visited(bs@, order@, p as int, out0[k].entity));
                        let (t, j) = choose|t: int, j: int|
                            0 <= t < p && 0 <= j < bs@[order@[t] as int].entities@.len() && bs@[order@[t] as int].entities@[j]
                                == out0[k].entity;
                        assert(bs@[order@[t] as int].entities@[j] == out@[k].entity);
                    } else {
                        let j = k - out0.len();
                        assert(out@[out0.len() + j] == rs[j]);
                        assert(rs[j].entity == it.entities@[j]);
                        assert(bs@[order@[p as int] as int].entities@[j] == out@[k].entity);
                    }
                }
                assert forall|k1: int, k2: int| 0 <= k1 < out@.len() && 0 <= k2 < out@.len() && k1 != k2 implies (
                #[trigger] out@[k1]).entity != (#[trigger] out@[k2]).entity by {
                    if k1 < out0.len() && k2 < out0.len() {
                        assert(out@[k1] == out0[k1] && out@[k2] == out0[k2]);
                    } else if k1 >= out0.len() && k2 >= out0.len() {
                        let j1 = k1 - out0.len();
                        let j2 = k2 - out0.len();
                        assert(out@[out0.len() + j1] == rs[j1]);
                        assert(out@[out0.len() + j2] == rs[j2]);
                        assert(rs[j1].entity == it.entities@[j1] && rs[j2].entity == it.entities@[j2]);
                    } else {
                        let (ko, kn) = if k1 < out0.len() { (k1, k2) } else { (k2, k1) };
                        assert(out@[ko] == out0[ko]);
                        assert(in_visited(bs@, order@, p as int, out0[ko].entity));
                        let (t, j) = choose|t: int, j: int|
                            0 <= t < p && 0 <= j < bs@[order@[t] as int].entities@.len() && bs@[order@[t] as int].entities@[j]
                                == out0[ko].entity;
                        let jn = kn - out0.len();
                        assert(out@[out0.len() + jn] == rs[jn]);
                        assert(rs[jn].entity == it.entities@[jn]);
                        assert(order@[t] != order@[p as int]);
                        assert(bs@[order@[t] as int].entities@[j] != bs@[bi as int].entities@[jn]);
                    }
                }
                assert forall|k: int| 0 <= k < out@.len() implies (#[trigger] out@[k]).group == self.group_key_of(q, out@[k].entity) by {
                    if k < out0.len() {
                        assert(out@[k] == out0[k]);
                    } else {
                        let j = k - out0.len();
                        assert(out@[out0.len() + j] == rs[j]);
                    }
                }
                assert forall|k1: int, k2: int| 0 <= k1 < k2 < out@.len() implies in_order(
                    (#[trigger] out@[k1]).group,
                    (#[trigger] out@[k2]).group,
                    q.order_desc,
                ) by {
                    if k2 < out0.len() {
                        assert(out@[k1] == out0[k1] && out@[k2] == out0[k2]);
                    } else if k1 < out0.len() {
                        let j2 = k2 - out0.len();
                        assert(out@[out0.len() + j2] == rs[j2]);
                        assert(out@[k1] == out0[k1]);
                    } else {
                        let j1 = k1 - out0.len();
                        let j2 = k2 - out0.len();
                        assert(out@[out0.len() + j1] == rs[j1]);
                        assert(out@[out0.len() + j2] == rs[j2]);
                    }
                }
                assert forall|k: int| 0 <= k < out@.len() implies in_order((#[trigger] out@[k]).group, g, q.order_desc) by {
                    if k < out0.len() {
                        assert(out@[k] == out0[k]);
                    } else {
                        let j = k - out0.len();
                        assert(out@[out0.len() + j] == rs[j]);
                    }
                }
            }
            proof {
                let it = bs@[bi as int];
                assert forall|t: int, k: int|
                    0 <= t < p + 1 && 0 <= k < bs@[order@[t] as int].entities@.len() implies has_row_for(
                        out@,
                        #[trigger] bs@[order@[t] as int].entities@[k],
                    ) by {
                    if t < p {
                        assert(has_row_for(out0, bs@[order@[t] as int].entities@[k]));
                        let w = choose|w: int|
                            0 <= w < out0.len() && out0[w].entity == bs@[order@[t] as int].entities@[k];
                        assert(out@[w] == out0[w]);
                    } else {
                        assert(rs[k].entity == it.entities@[k]);
                        assert(out@[out0.len() + k] == rs[k]);
                    }
                }
            }
            p += 1;
        }
        proof {
            assert forall|x: u64| #[trigger] self.is_match(x, q) implies exists|k: int|
                0 <= k < out@.len() && out@[k].entity == x by {
                let c = choose|c: int| 0 <= c < bs@.len() && bs@[c].entities@.contains(x);
                assert(order@.contains(c as usize));
                let t = choose|t: int| 0 <= t < order@.len() && order@[t] == c as usize;
                let k = choose|k: int| 0 <= k < bs@[c].entities@.len() && bs@[c].entities@[k] == x;
                assert(bs@[order@[t] as int].entities@[k] == x);
                assert(has_row_for(out@, bs@[order@[t] as int].entities@[k]));
            }
        }
        out
    }

    /// The rows of one group only: every match of `q` whose group key is
    /// `group`, once each, and nothing else.
    pub fn each_group(&self, fields: &FieldsTuple, q: &Query, group: u64) -> (r: Vec<Row<V>>)
        requires
            self.wf(),
            fields.wf(),
        ensures
            forall|k: int| 0 <= k < r@.len() ==> self.is_match((#[trigger] r@[k]).entity, q),
            forall|k: int| 0 <= k < r@.len() ==> (#[trigger] r@[k]).group == group,
            forall|k: int| 0 <= k < r@.len() ==> self.group_key_of(q, (#[trigger] r@[k]).entity) == group,
            forall|k: int| 0 <= k < r@.len() ==> self.row_reads(#[trigger] r@[k], q),
            forall|x: u64|
                #[trigger] self.is_match(x, q) && self.group_key_of(q, x) == group ==> has_row_for(r@, x),
            forall|k1: int, k2: int|
                0 <= k1 < r@.len() && 0 <= k2 < r@.len() && k1 != k2 ==> (#[trigger] r@[k1]).entity
                    != (#[trigger] r@[k2]).entity,
    {
        let mut all = self.each(fields, q);
        let ghost rows = all@;
        let total = all.len();
        let mut out: Vec<Row<V>> = Vec::new();
        let ghost mut src: Seq<int> = Seq::empty();
        let mut i: usize = 0;
        while all.len() > 0
            invariant
                rows.len() == total,
                i <= total,
                all@ == rows.subrange(i as int, total as int),
                src.len() == out@.len(),
                forall|k: int| 0 <= k < src.len() ==> 0 <= #[trigger] src[k] < i && out@[k] == rows[src[k]],
                forall|k1: int, k2: int| 0 <= k1 < k2 < src.len() ==> #[trigger] src[k1] < #[trigger] src[k2],
                forall|k: int| 0 <= k < out@.len() ==> (#[trigger] out@[k]).group == group,
                forall|j: int| 0 <= j < i && (#[trigger] rows[j]).group == group ==> has_row_for(out@, rows[j].entity),
            decreases all@.len(),
        {
            let x = all.remove(0);
            proof {
                assert(x == rows[i as int]);
                assert(all@ =~= rows.subrange(i + 1, total as int));
            }
            if x.group == group {
                let ghost prev = out@;
                out.push(x);
                proof {
                    src = src.push(i as int);
                    assert forall|j: int| 0 <= j < i + 1 && (#[trigger] rows[j]).group == group implies has_row_for(
                        out@,
                        rows[j].entity,
                    ) by {
                        if j < i {
                            let w = choose|w: int| 0 <= w < prev.len() && prev[w].entity == rows[j].entity;
                            assert(out@[w] == prev[w]);
                        } else {
                            assert(out@[prev.len() as int] == rows[j]);
                        }
                    }
                }
            }
            i += 1;
        }
        proof {
            assert forall|k: int| 0 <= k < out@.len() implies self.is_match((#[trigger] out@[k]).entity, q)
                && self.group_key_of(q, out@[k].entity) == group && self.row_reads(out@[k], q) by {
                assert(out@[k] == rows[src[k]]);
            }
            assert forall|x: u64| #[trigger] self.is_match(x, q) && self.group_key_of(q, x) == group implies has_row_for(
                out@,
                x,
            ) by {
                let k = choose|k: int| 0 <= k < rows.len() && rows[k].entity == x;
                assert(rows[k].group == self.group_key_of(q, rows[k].entity));
            }
            assert forall|k1: int, k2: int| 0 <= k1 < out@.len() && 0 <= k2 < out@.len() && k1 != k2 implies (
            #[trigger] out@[k1]).entity != (#[trigger] out@[k2]).entity by {
                assert(out@[k1] == rows[src[k1]] && out@[k2] == rows[src[k2]]);
                if k1 < k2 {
                    assert(src[k1] < src[k2]);
                } else {
                    assert(src[k2] < src[k1]);
                }
            }
        }
        out
    }

    /// Registers the batches of `q` with the group lifecycle: a group is
    /// created when its first batch arrives. Returns one event per batch.
    pub fn track_groups(&self, fields: &FieldsTuple, q: &Query, reg: &mut GroupRegistry) -> (r: Vec<GroupEvent>)
        requires
            self.wf(),
            fields.wf(),
            old(reg).wf(),
        ensures
            final(reg).wf(),
            forall|g: u64| old(reg).view_map().contains_key(g) ==> #[trigger] final(reg).view_map().contains_key(g),
            forall|x: u64| #[trigger] self.is_match(x, q) ==> final(reg).view_map().contains_key(self.group_key_of(q, x)),
            events_exact(r@, old(reg).view_map(), final(reg).view_map()),
    {
        let bs = self.batches(fields, q);
        let events = track_batches(&bs, reg);
        proof {
            assert forall|x: u64| #[trigger] self.is_match(x, q) implies reg.view_map().contains_key(self.group_key_of(q, x)) by {
                let c = choose|c: int| 0 <= c < bs@.len() && bs@[c].entities@.contains(x);
                let k = choose|k: int| 0 <= k < bs@[c].entities@.len() && bs@[c].entities@[k] == x;
                assert(bs@[c].group_id == self.group_key_of(q, bs@[c].entities@[k]));
            }
        }
        events
    }
}

/// The events report exactly the groups that became live: one `Created(g)`
/// for each, none for any other group, and no deletion.
pub open spec fn events_exact(events: Seq<GroupEvent>, before: Map<u64, nat>, after: Map<u64, nat>) -> bool {
    &&& forall|k: int|
        0 <= k < events.len() ==> match #[trigger] events[k] {
            GroupEvent::Created(g) => !before.contains_key(g) && after.contains_key(g),
            GroupEvent::Unchanged => true,
            GroupEvent::Deleted(_) => false,
        }
    &&& forall|g: u64|
        !before.contains_key(g) && #[trigger] after.contains_key(g) ==> exists|k: int|
            0 <= k < events.len() && events[k] == GroupEvent::Created(g)
    &&& forall|k1: int, k2: int|
        0 <= k1 < k2 < events.len() ==> !(#[trigger] events[k1] is Created && events[k1] == #[trigger] events[k2])
}

/// Registers batches with the group lifecycle in order: one event per
/// batch, `Created` for the first batch of a group that was not live.
pub fn track_batches<V>(bs: &Vec<IterRecord<V>>, reg: &mut GroupRegistry) -> (r: Vec<GroupEvent>)
    requires
        old(reg).wf(),
    ensures
        final(reg).wf(),
        r@.len() == bs@.len(),
        forall|k: int|
            0 <= k < r@.len() ==> #[trigger] r@[k] == GroupEvent::Unchanged || r@[k] == GroupEvent::Created(
                bs@[k].group_id,
            ),
        forall|k: int| 0 <= k < bs@.len() ==> final(reg).view_map().contains_key(#[trigger] bs@[k].group_id),
        forall|g: u64| old(reg).view_map().contains_key(g) ==> #[trigger] final(reg).view_map().contains_key(g),
        events_exact(r@, old(reg).view_map(), final(reg).view_map()),
{
    let mut events: Vec<GroupEvent> = Vec::new();
    let mut b: usize = 0;
    while b < bs.len()
        invariant
            reg.wf(),
            b <= bs@.len(),
            events@.len() == b,
            forall|k: int|
                0 <= k < events@.len() ==> #[trigger] events@[k] == GroupEvent::Unchanged || events@[k]
                    == GroupEvent::Created(bs@[k].group_id),
            forall|g: u64| old(reg).view_map().contains_key(g) ==> #[trigger] reg.view_map().contains_key(g),
            forall|c: int| 0 <= c < b ==> reg.view_map().contains_key(#[trigger] bs@[c].group_id),
            events_exact(events@, old(reg).view_map(), reg.view_map()),
        decreases bs@.len() - b,
    {
        let g = bs[b].group_id;
        let ghost before = reg.view_map();
        let ghost ev0 = events@;
        if reg.count(g) < u64::MAX {
            let ev = reg.batch_added(g);
            events.push(ev);
        } else {
            events.push(GroupEvent::Unchanged);
        }
        proof {
            assert forall|x: u64| before.contains_key(x) implies #[trigger] reg.view_map().contains_key(x) by {}
            assert forall|x: u64| #[trigger] reg.view_map().contains_key(x) implies before.contains_key(x) || x == g by {}
            assert(reg.view_map().contains_key(g));
            assert forall|k: int| 0 <= k < events@.len() implies match #[trigger] events@[k] {
                GroupEvent::Created(h) => !old(reg).view_map().contains_key(h) && reg.view_map().contains_key(h),
                GroupEvent::Unchanged => true,
                GroupEvent::Deleted(_) => false,
            } by {
                if k < ev0.len() {
                    assert(events@[k] == ev0[k]);
                }
            }
            assert forall|h: u64| !old(reg).view_map().contains_key(h) && #[trigger] reg.view_map().contains_key(h)
                implies exists|k: int| 0 <= k < events@.len() && events@[k] == GroupEvent::Created(h) by {
                if before.contains_key(h) {
                    let k = choose|k: int| 0 <= k < ev0.len() && ev0[k] == GroupEvent::Created(h);
                    assert(events@[k] == ev0[k]);
                } else {
                    assert(h == g);
                    assert(events@[ev0.len() as int] == GroupEvent::Created(g));
                }
            }
            assert forall|k1: int, k2: int| 0 <= k1 < k2 < events@.len() implies !(#[trigger] events@[k1] is Created
                && events@[k1] == #[trigger] events@[k2]) by {
                assert(events@[k1] == ev0[k1]);
                if k2 < ev0.len() {
                    assert(events@[k2] == ev0[k2]);
                } else if events@[k1] is Created && events@[k1] == events@[k2] {
                    assert(events@[k2] == GroupEvent::Created(g));
                    assert(before.contains_key(g));
                }
            }
        }
        b += 1;
    }
    events
}

/// `row` is a row of one of the batches, carrying that batch's key.
pub open spec fn row_from<V>(bs: Seq<IterRecord<V>>, keys: Seq<u64>, row: Row<V>) -> bool {
    exists|c: int, j: int|
        0 <= c < bs.len() && 0 <= j < bs[c].count && row.entity == bs[c].entities@[j] && row.group == keys[c]
}

/// Some row of `rows` belongs to `x` and carries key `g`.
pub open spec fn has_keyed_row<V>(rows: Seq<Row<V>>, x: u64, g: u64) -> bool {
    exists|k: int| 0 <= k < rows.len() && rows[k].entity == x && rows[k].group == g
}

/// Every row of the batches, batch by batch in the order of the keys the
/// caller gives them (ascending, or descending with `desc`); each row
/// carries its batch's key as its group.
pub fn rows_in_key_order<V: Copy>(
    fields: &FieldsTuple,
    bs: &Vec<IterRecord<V>>,
    keys: &Vec<u64>,
    desc: bool,
) -> (r: Vec<Row<V>>)
    requires
        fields.wf(),
        keys@.len() == bs@.len(),
        forall|c: int| 0 <= c < bs@.len() ==> (#[trigger] bs@[c]).wf(fields.spec_count()),
    ensures
        forall|k: int| 0 <= k < r@.len() ==> (#[trigger] r@[k]).values@.len() == fields.spec_count(),
        forall|k: int| 0 <= k < r@.len() ==> row_from(bs@, keys@, #[trigger] r@[k]),
        forall|c: int, j: int|
            0 <= c < bs@.len() && 0 <= j < bs@[c].count ==> has_keyed_row(r@, #[trigger] bs@[c].entities@[j], keys@[c]),
        forall|k1: int, k2: int|
            0 <= k1 < k2 < r@.len() ==> in_order((#[trigger] r@[k1]).group, (#[trigger] r@[k2]).group, desc),
{
    let order = group_visit_order(keys, desc);
    let nk = keys.len();
    let mut out: Vec<Row<V>> = Vec::new();
    let mut p: usize = 0;
    while p < order.len()
        invariant
            fields.wf(),
            keys@.len() == bs@.len(),
            keys@.len() == nk,
            forall|c: int| 0 <= c < bs@.len() ==> (#[trigger] bs@[c]).wf(fields.spec_count()),
            forall|t: int| 0 <= t < order@.len() ==> #[trigger] order@[t] < bs@.len(),
            forall|i: usize| i < keys@.len() ==> #[trigger] order@.contains(i),
            !desc ==> forall|t1: int, t2: int|
                0 <= t1 < t2 < order@.len() ==> keys@[#[trigger] order@[t1] as int] <= keys@[#[trigger] order@[t2] as int],
            desc ==> forall|t1: int, t2: int|
                0 <= t1 < t2 < order@.len() ==> keys@[#[trigger] order@[t1] as int] >= keys@[#[trigger] order@[t2] as int],
            p <= order@.len(),
            p == 0 ==> out@.len() == 0,
            forall|k: int| 0 <= k < out@.len() ==> (#[trigger] out@[k]).values@.len() == fields.spec_count(),
            forall|k: int| 0 <= k < out@.len() ==> row_from(bs@, keys@, #[trigger] out@[k]),
            forall|t: int, j: int|
                0 <= t < p && 0 <= j < bs@[order@[t] as int].count ==> has_keyed_row(
                    out@,
                    #[trigger] bs@[order@[t] as int].entities@[j],
                    keys@[order@[t] as int],
                ),
            forall|k1: int, k2: int|
                0 <= k1 < k2 < out@.len() ==> in_order((#[trigger] out@[k1]).group, (#[trigger] out@[k2]).group, desc),
            p > 0 ==> forall|k: int|
                0 <= k < out@.len() ==> in_order((#[trigger] out@[k]).group, keys@[order@[p - 1] as int], desc),
        decreases order@.len() - p,
    {
        let bi = order[p];
        let g = keys[bi];
        let mut rows = rows_of_batch(fields, &bs[bi]);
        let ghost rs = rows@;
        let ghost out0 = out@;
        proof {
            if p > 0 {
                let pp = (p - 1) as int;
                assert(in_order(keys@[order@[pp] as int], keys@[order@[p as int] as int], desc));
            }
        }
        while rows.len() > 0
            invariant
                out@.len() >= out0.len(),
                forall|w: int| 0 <= w < out0.len() ==> #[trigger] out@[w] == out0[w],
                rs.len() == out@.len() - out0.len() + rows@.len(),
                forall|j: int| 0 <= j < rows@.len() ==> #[trigger] rows@[j] == rs[rs.len() - rows@.len() + j],
                forall|j: int|
                    0 <= j < out@.len() - out0.len() ==> (#[trigger] out@[out0.len() + j]).entity == rs[j].entity
                        && out@[out0.len() + j].values@ == rs[j].values@ && out@[out0.len() + j].group == g,
            decreases rows@.len(),
        {
            let x = rows.remove(0);
            out.push(Row { entity: x.entity, values: x.values, group: g });
        }
        proof {
            let it = bs@[bi as int];
            assert forall|k: int| 0 <= k < out@.len() implies (#[trigger] out@[k]).values@.len() == fields.spec_count()
                && row_from(bs@, keys@, out@[k]) by {
                if k < out0.len() {
                    assert(out@[k] == out0[k]);
                } else {
                    let j = k - out0.len();
                    assert(out@[out0.len() + j].entity == rs[j].entity);
                    assert(out@[out0.len() + j].values@ == rs[j].values@);
                    assert(rs[j].entity == it.entities@[j]);
                    assert(out@[k].entity == bs@[bi as int].entities@[j] && out@[k].group == keys@[bi as int]);
                }
            }
            assert forall|t: int, j: int|
                0 <= t < p + 1 && 0 <= j < bs@[order@[t] as int].count implies has_keyed_row(
                out@,
                #[trigger] bs@[order@[t] as int].entities@[j],
                keys@[order@[t] as int],
            ) by {
                if t < p {
                    assert(has_keyed_row(out0, bs@[order@[t] as int].entities@[j], keys@[order@[t] as int]));
                    let k = choose|k: int|
                        0 <= k < out0.len() && out0[k].entity == bs@[order@[t] as int].entities@[j] && out0[k].group
                            == keys@[order@[t] as int];
                    assert(out@[k] == out0[k]);
                } else {
                    assert(out@[out0.len() + j].entity == rs[j].entity);
                    assert(rs[j].entity == it.entities@[j]);
                    assert(out@[out0.len() + j].group == g);
                }
            }
            assert forall|k: int| 0 <= k < out@.len() implies in_order((#[trigger] out@[k]).group, g, desc) by {
                if k < out0.len() {
                    assert(out@[k] == out0[k]);
                    let pp = (p - 1) as int;
                    assert(in_order(out0[k].group, keys@[order@[pp] as int], desc));
                } else {
                    let j = k - out0.len();
                    assert(out@[out0.len() + j].group == g);
                }
            }
            assert forall|k1: int, k2: int| 0 <= k1 < k2 < out@.len() implies in_order(
                (#[trigger] out@[k1]).group,
                (#[trigger] out@[k2]).group,
                desc,
            ) by {
                if k2 < out0.len() {
                    assert(out@[k1] == out0[k1] && out@[k2] == out0[k2]);
                } else if k1 < out0.len() {
                    let j2 = k2 - out0.len();
                    assert(out@[out0.len() + j2].group == g);
                    assert(out@[k1] == out0[k1]);
                    let pp = (p - 1) as int;
                    assert(in_order(out0[k1].group, keys@[order@[pp] as int], desc));
                } else {
                    let j1 = k1 - out0.len();
                    let j2 = k2 - out0.len();
                    assert(out@[out0.len() + j1].group == g);
                    assert(out@[out0.len() + j2].group == g);
                }
            }
        }
        p += 1;
    }
    proof {
        assert forall|c: int, j: int| 0 <= c < bs@.len() && 0 <= j < bs@[c].count implies has_keyed_row(
            out@,
            #[trigger] bs@[c].entities@[j],
            keys@[c],
        ) by {
            let cu = c as usize;
            assert(order@.contains(cu));
            let t = choose|t: int| 0 <= t < order@.len() && order@[t] == cu;
            assert(order@[t] as int == c);
            assert(has_keyed_row(out@, bs@[order@[t] as int].entities@[j], keys@[order@[t] as int]));
        }
    }
    out
}

} // verus!
