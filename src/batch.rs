use vstd::prelude::*;
use crate::field::{Cell, FieldSpec, IterableTypeFieldOperation, cell_with_ref};

verus! {

/// Largest number of fields a query binds.
pub const MAX_FIELDS: usize = 32;

/// Whether bit `i` of `mask` is set.
pub open spec fn bit(mask: u32, i: int) -> bool {
    (mask >> (i as u32)) & 1u32 == 1u32
}

pub fn has_bit(mask: u32, i: usize) -> (r: bool)
    requires
        i < 32,
    ensures
        r == bit(mask, i as int),
{
    let k = i as u32;
    let r = mask & (1u32 << k) != 0;
    assert((mask & (1u32 << k) != 0u32) == ((mask >> k) & 1u32 == 1u32)) by (bit_vector)
        requires
            k < 32,
    ;
    r
}

/// What the host hands out for one field of a batch: a column of values,
/// per-row storage that is fetched row by row (a row may hold no value), or
/// nothing (an optional field that did not match).
pub enum Column<V> {
    Null,
    Array(Vec<V>),
    Sparse(Vec<Option<V>>),
}

/// One matched batch (a table) as the host runtime reports it.
pub struct IterRecord<V> {
    /// Number of rows.
    pub count: usize,
    /// The entity of each row.
    pub entities: Vec<u64>,
    /// Per field: its column.
    pub columns: Vec<Column<V>>,
    /// Per field: the entity the value comes from, 0 when each row owns it.
    pub sources: Vec<u64>,
    /// Fields whose value is shared by the whole batch.
    pub ref_fields: u32,
    /// Fields matched by traversing a relationship upwards.
    pub up_fields: u32,
    /// Fields whose value must be fetched row by row.
    pub row_fields: u32,
    /// Group key of the batch.
    pub group_id: u64,
}

/// Whether some field of a batch is shared or traversed: the slow resolution path.
pub open spec fn spec_ref_or_up<V>(it: &IterRecord<V>) -> bool {
    it.ref_fields | it.up_fields != 0u32
}

impl<V> IterRecord<V> {
    /// The host's promises about a batch with `n` fields.
    pub open spec fn wf(&self, n: nat) -> bool {
        &&& n <= MAX_FIELDS
        &&& self.columns@.len() == n
        &&& self.sources@.len() == n
        &&& self.entities@.len() == self.count
        &&& !spec_ref_or_up(self) ==> forall|i: int|
            0 <= i < n ==> self.sources@[i] == 0 && !bit(self.row_fields, i)
    }

    /// The value a cell points at, if the cell is inside a column.
    pub open spec fn spec_get(&self, c: Cell) -> Option<V> {
        match c {
            Cell::Absent => None,
            Cell::At { column, offset } => if column < self.columns@.len() {
                match self.columns@[column as int] {
                    Column::Null => None,
                    Column::Array(v) => if offset < v@.len() {
                        Some(v@[offset as int])
                    } else {
                        None
                    },
                    Column::Sparse(v) => if offset < v@.len() {
                        v@[offset as int]
                    } else {
                        None
                    },
                }
            } else {
                None
            },
        }
    }

    pub fn get(&self, c: Cell) -> (r: Option<&V>)
        ensures
            r matches Some(v) ==> self.spec_get(c) == Some(*v),
            r is None ==> self.spec_get(c) is None,
    {
        match c {
            Cell::Absent => None,
            Cell::At { column, offset } => {
                if column < self.columns.len() {
                    match &self.columns[column] {
                        Column::Null => None,
                        Column::Array(v) => {
                            if offset < v.len() {
                                Some(&v[offset])
                            } else {
                                None
                            }
                        },
                        Column::Sparse(v) => {
                            if offset < v.len() {
                                match &v[offset] {
                                    Some(x) => Some(x),
                                    None => None,
                                }
                            } else {
                                None
                            }
                        },
                    }
                } else {
                    None
                }
            },
        }
    }

    /// Start of the column of field `i`; absent when the host reports null.
    pub open spec fn spec_field(&self, i: int) -> Cell {
        match self.columns@[i] {
            Column::Null => Cell::Absent,
            Column::Array(_) => Cell::At { column: i as usize, offset: 0 },
            Column::Sparse(_) => Cell::At { column: i as usize, offset: 0 },
        }
    }

    pub fn field(&self, i: usize) -> (r: Cell)
        requires
            i < self.columns@.len(),
        ensures
            r == self.spec_field(i as int),
    {
        match &self.columns[i] {
            Column::Null => Cell::Absent,
            Column::Array(_) => Cell::At { column: i, offset: 0 },
            Column::Sparse(_) => Cell::At { column: i, offset: 0 },
        }
    }

    /// The value of a row-fetched field `i` at `row`.
    pub open spec fn spec_field_at(&self, i: int, row: int) -> Cell {
        Cell::At { column: i as usize, offset: row as usize }
    }

    pub fn field_at(&self, i: usize, row: usize) -> (r: Cell)
        ensures
            r == self.spec_field_at(i as int, row as int),
    {
        Cell::At { column: i, offset: row }
    }

    pub fn ref_or_up(&self) -> (r: bool)
        ensures
            r == spec_ref_or_up(self),
    {
        self.ref_fields | self.up_fields != 0
    }
}

/// Whether any field of a batch is broadcast, and whether any is fetched per row.
#[derive(Clone, Copy, Debug, PartialEq, Eq, Structural)]
pub struct IsAnyArray {
    pub a_ref: bool,
    pub a_row: bool,
}

/// How a field of one batch yields its rows.
#[derive(Clone, Copy, Debug, PartialEq, Eq, Structural)]
pub enum FieldAccess {
    /// Each row owns its value: index the column at the row.
    Owned,
    /// One value for the whole batch.
    Broadcast,
    /// The value is fetched from the host row by row.
    RowFetch,
}

/// What resolution records for field `i` of a batch: its column pointer, its
/// ref and row flags, and the term index used for a per-row fetch.
pub open spec fn resolved_base<V>(it: &IterRecord<V>, i: int) -> Cell {
    if spec_ref_or_up(it) && bit(it.row_fields, i) {
        Cell::Absent
    } else {
        it.spec_field(i)
    }
}

pub open spec fn resolved_ref<V>(it: &IterRecord<V>, i: int) -> bool {
    spec_ref_or_up(it) && (bit(it.row_fields, i) || it.sources@[i] != 0)
}

pub open spec fn resolved_row<V>(it: &IterRecord<V>, i: int) -> bool {
    spec_ref_or_up(it) && bit(it.row_fields, i)
}

/// The kind of field `i` in a batch.
pub open spec fn field_access<V>(it: &IterRecord<V>, i: int) -> FieldAccess {
    if resolved_row(it, i) {
        FieldAccess::RowFetch
    } else if resolved_ref(it, i) {
        FieldAccess::Broadcast
    } else {
        FieldAccess::Owned
    }
}

/// The cell that field `i` yields at `row`: per-row fetch before broadcast
/// before plain indexing.
pub open spec fn expected_cell<V>(it: &IterRecord<V>, i: int, row: int) -> Cell {
    match field_access(it, i) {
        FieldAccess::RowFetch => it.spec_field_at(i, row),
        FieldAccess::Broadcast => it.spec_field(i),
        FieldAccess::Owned => it.spec_field(i).spec_add(row),
    }
}

/// A column pointer that has not been advanced into its column.
pub open spec fn at_column_start(c: Cell) -> bool {
    c matches Cell::At { offset, .. } ==> offset == 0
}

/// Per-batch field metadata, computed once when the host yields a table.
pub struct ComponentsFieldData {
    pub array_components: Vec<Cell>,
    pub is_ref_array_components: Vec<bool>,
    pub is_row_array_components: Vec<bool>,
    pub index_array_components: Vec<i8>,
    pub is_any_array: IsAnyArray,
}

impl ComponentsFieldData {
    /// The metadata of a batch with `n` fields is as resolution records it.
    pub open spec fn resolves<V>(&self, it: &IterRecord<V>, n: nat) -> bool {
        &&& self.array_components@.len() == n
        &&& self.is_ref_array_components@.len() == n
        &&& self.is_row_array_components@.len() == n
        &&& self.index_array_components@.len() == n
        &&& forall|i: int|
            0 <= i < n && !resolved_row(it, i) ==> #[trigger] self.array_components@[i]
                == resolved_base(it, i)
        &&& forall|i: int|
            0 <= i < n ==> #[trigger] self.is_ref_array_components@[i] == resolved_ref(it, i)
        &&& forall|i: int|
            0 <= i < n ==> #[trigger] self.is_row_array_components@[i] == resolved_row(it, i)
        &&& forall|i: int|
            0 <= i < n ==> #[trigger] self.index_array_components@[i] == (if resolved_row(it, i) {
                i as i8
            } else {
                0i8
            })
        &&& self.is_any_array.a_ref == exists|i: int| 0 <= i < n && resolved_ref(it, i)
        &&& self.is_any_array.a_row == exists|i: int| 0 <= i < n && resolved_row(it, i)
    }
}

/// Per-batch field metadata: resolved once per batch, then read row by row.
pub trait ComponentFieldPointers<V>: Sized {
    /// The metadata describes batch `it` of `n` fields.
    spec fn resolves_batch(&self, it: &IterRecord<V>, n: nat) -> bool;

    /// Freshly resolved: every column slot, per-row ones included, is what
    /// resolution records (a per-row field's slot stays empty until fetched).
    spec fn fresh_batch(&self, it: &IterRecord<V>, n: nat) -> bool;

    /// Resolves one batch.
    fn new(fields: &FieldsTuple, it: &IterRecord<V>) -> (r: Self)
        requires
            fields.wf(),
            it.wf(fields.spec_count()),
        ensures
            r.resolves_batch(it, fields.spec_count()),
            r.fresh_batch(it, fields.spec_count()),
    ;

    /// The tuple of row `index`: one cell per declared field.
    fn get_tuple(&mut self, fields: &FieldsTuple, it: &IterRecord<V>, index: usize) -> (r: Vec<Cell>)
        requires
            fields.wf(),
            it.wf(fields.spec_count()),
            old(self).resolves_batch(it, fields.spec_count()),
        ensures
            final(self).resolves_batch(it, fields.spec_count()),
            r@.len() == fields.spec_count(),
            forall|i: int| 0 <= i < r@.len() ==> r@[i] == expected_cell(it, i, index as int),
    ;
}

impl<V> ComponentFieldPointers<V> for ComponentsFieldData {
    open spec fn resolves_batch(&self, it: &IterRecord<V>, n: nat) -> bool {
        self.resolves(it, n)
    }

    open spec fn fresh_batch(&self, it: &IterRecord<V>, n: nat) -> bool {
        forall|i: int| 0 <= i < n ==> #[trigger] self.array_components@[i] == resolved_base(it, i)
    }

    /// Resolves one batch: the fast path when no field is shared or
    /// traversed, the classifying path otherwise.
    fn new(fields: &FieldsTuple, it: &IterRecord<V>) -> (r: Self) {
        if it.ref_or_up() {
            fields.populate_array_ptrs(it)
        } else {
            let array_components = fields.populate_self_array_ptrs(it);
            let n = fields.count();
            let mut is_ref: Vec<bool> = Vec::new();
            let mut is_row: Vec<bool> = Vec::new();
            let mut indexes: Vec<i8> = Vec::new();
            let mut i: usize = 0;
            while i < n
                invariant
                    i <= n,
                    is_ref@.len() == i,
                    is_row@.len() == i,
                    indexes@.len() == i,
                    forall|j: int| 0 <= j < i ==> !is_ref@[j] && !is_row@[j] && indexes@[j] == 0,
                decreases n - i,
            {
                is_ref.push(false);
                is_row.push(false);
                indexes.push(0);
                i += 1;
            }
            ComponentsFieldData {
                array_components,
                is_ref_array_components: is_ref,
                is_row_array_components: is_row,
                index_array_components: indexes,
                is_any_array: IsAnyArray { a_ref: false, a_row: false },
            }
        }
    }

    /// The typed tuple of row `index`. The path is chosen once per batch:
    /// per-row fetch, else broadcast, else plain.
    fn get_tuple(&mut self, fields: &FieldsTuple, it: &IterRecord<V>, index: usize) -> (r: Vec<Cell>) {
        let ghost n = fields.spec_count();
        proof {
            assert forall|i: int| 0 <= i < n && !resolved_row(it, i) implies at_column_start(
                self.array_components@[i],
            ) by {
                assert(self.array_components@[i] == resolved_base(it, i));
            }
            assert forall|i: int| 0 <= i < n && self.is_row_array_components@[i] implies self.is_ref_array_components@[i]
                && self.index_array_components@[i] >= 0 by {}
            assert forall|i: int| 0 <= i < n && !self.is_row_array_components@[i] implies at_column_start(
                self.array_components@[i],
            ) by {
                assert(self.array_components@[i] == resolved_base(it, i));
            }
        }
        let ghost before = self.array_components@;
        if self.is_any_array.a_row {
            let r = fields.create_tuple_with_row(
                it,
                &mut self.array_components,
                &self.is_ref_array_components,
                &self.is_row_array_components,
                &self.index_array_components,
                index,
            );
            proof {
                assert forall|i: int| 0 <= i < r@.len() implies r@[i] == expected_cell(
                    it,
                    i,
                    index as int,
                ) by {
                    if resolved_row(it, i) {
                        assert((i as i8) as int == i);
                    }
                }
                assert forall|i: int| 0 <= i < n && !resolved_row(it, i) implies #[trigger] self.array_components@[i]
                    == resolved_base(it, i) by {
                    assert(self.is_row_array_components@[i] == resolved_row(it, i));
                    assert(!self.is_row_array_components@[i]);
                    assert(self.array_components@.len() == n);
                    assert(self.array_components@[i] == before[i]);
                    assert(before[i] == resolved_base(it, i));
                }
            }
            r
        } else if self.is_any_array.a_ref {
            proof {
                assert forall|i: int| 0 <= i < n implies !resolved_row(it, i) && at_column_start(
                    self.array_components@[i],
                ) by {
                    if resolved_row(it, i) {
                        assert(exists|j: int| 0 <= j < n && resolved_row(it, j));
                    }
                }
            }
            fields.create_tuple_with_ref(
                &self.array_components,
                &self.is_ref_array_components,
                index,
            )
        } else {
            proof {
                assert forall|i: int| 0 <= i < n implies !resolved_row(it, i) && !resolved_ref(
                    it,
                    i,
                ) && at_column_start(self.array_components@[i]) by {
                    if resolved_row(it, i) {
                        assert(exists|j: int| 0 <= j < n && resolved_row(it, j));
                    }
                    if resolved_ref(it, i) {
                        assert(exists|j: int| 0 <= j < n && resolved_ref(it, j));
                    }
                }
            }
            fields.create_tuple(&self.array_components, index)
        }
    }
}

/// The declared field list of a query, in declaration order.
pub struct FieldsTuple {
    pub fields: Vec<FieldSpec>,
}

impl FieldsTuple {
    pub open spec fn spec_count(&self) -> nat {
        self.fields@.len()
    }

    pub open spec fn wf(&self) -> bool {
        self.fields@.len() <= MAX_FIELDS
    }

    pub fn new(fields: Vec<FieldSpec>) -> (r: FieldsTuple)
        ensures
            r.fields@ == fields@,
    {
        FieldsTuple { fields }
    }

    /// Number of declared fields.
    pub fn count(&self) -> (r: usize)
        ensures
            r == self.spec_count(),
    {
        self.fields.len()
    }

    /// Whether some declared field is a zero-sized marker.
    pub fn contains_any_tag_term(&self) -> (r: bool)
        ensures
            r == exists|i: int| 0 <= i < self.fields@.len() && self.fields@[i].is_tag,
    {
        let mut i: usize = 0;
        while i < self.fields.len()
            invariant
                i <= self.fields@.len(),
                forall|j: int| 0 <= j < i ==> !self.fields@[j].is_tag,
            decreases self.fields@.len() - i,
        {
            if self.fields[i].is_tag {
                return true;
            }
            i += 1;
        }
        false
    }

    /// Resolution of a batch with shared, traversed or per-row fields: each
    /// field is marked row-fetched, broadcast, or owned.
    pub fn populate_array_ptrs<V>(&self, it: &IterRecord<V>) -> (r: ComponentsFieldData)
        requires
            self.wf(),
            it.wf(self.spec_count()),
        ensures
            r.resolves(it, self.spec_count()),
            forall|i: int| 0 <= i < self.spec_count() ==> #[trigger] r.array_components@[i] == resolved_base(it, i),
    {
        let n = self.fields.len();
        let mut components: Vec<Cell> = Vec::new();
        let mut is_ref: Vec<bool> = Vec::new();
        let mut is_row: Vec<bool> = Vec::new();
        let mut indexes: Vec<i8> = Vec::new();
        let mut any_ref = false;
        let mut any_row = false;
        let mut index: usize = 0;
        while index < n
            invariant
                n == self.spec_count(),
                n <= MAX_FIELDS,
                it.wf(n as nat),
                index <= n,
                components@.len() == index,
                is_ref@.len() == index,
                is_row@.len() == index,
                indexes@.len() == index,
                forall|i: int|
                    0 <= i < index ==> {
                        &&& components@[i] == resolved_base(it, i)
                        &&& is_ref@[i] == resolved_ref(it, i)
                        &&& is_row@[i] == resolved_row(it, i)
                        &&& indexes@[i] == (if resolved_row(it, i) {
                            i as i8
                        } else {
                            0i8
                        })
                    },
                any_ref == exists|i: int| 0 <= i < index && resolved_ref(it, i),
                any_row == exists|i: int| 0 <= i < index && resolved_row(it, i),
            decreases n - index,
        {
            if has_bit(it.row_fields, index) {
                // the value lives in per-row storage: fetch it for each row
                components.push(Cell::Absent);
                is_ref.push(true);
                is_row.push(true);
                indexes.push(index as i8);
            } else {
                components.push(it.field(index));
                is_ref.push(it.sources[index] != 0);
                is_row.push(false);
                indexes.push(0);
            }
            let r = is_ref[index];
            let w = is_row[index];
            proof {
                assert(r == resolved_ref(it, index as int));
                assert(w == resolved_row(it, index as int));
                if any_ref || r {
                    assert(exists|i: int| 0 <= i < index + 1 && resolved_ref(it, i));
                }
                if any_row || w {
                    assert(exists|i: int| 0 <= i < index + 1 && resolved_row(it, i));
                }
            }
            any_ref = any_ref || r;
            any_row = any_row || w;
            index += 1;
        }
        ComponentsFieldData {
            array_components: components,
            is_ref_array_components: is_ref,
            is_row_array_components: is_row,
            index_array_components: indexes,
            is_any_array: IsAnyArray { a_ref: any_ref, a_row: any_row },
        }
    }

    /// Resolution of a batch whose fields are all owned by the rows: only the
    /// column pointers are read.
    pub fn populate_self_array_ptrs<V>(&self, it: &IterRecord<V>) -> (r: Vec<Cell>)
        requires
            self.wf(),
            it.wf(self.spec_count()),
            !spec_ref_or_up(it),
        ensures
            r@.len() == self.spec_count(),
            forall|i: int| 0 <= i < r@.len() ==> r@[i] == it.spec_field(i),
    {
        let n = self.fields.len();
        let mut components: Vec<Cell> = Vec::new();
        let mut index: usize = 0;
        while index < n
            invariant
                n == self.spec_count(),
                it.wf(n as nat),
                index <= n,
                components@.len() == index,
                forall|i: int| 0 <= i < index ==> components@[i] == it.spec_field(i),
            decreases n - index,
        {
            components.push(it.field(index));
            index += 1;
        }
        components
    }

    /// Resolves a batch once: the fast path when no field is shared or
    /// traversed, the classifying path otherwise.
    pub fn create_ptrs<V>(&self, it: &IterRecord<V>) -> (r: ComponentsFieldData)
        requires
            self.wf(),
            it.wf(self.spec_count()),
        ensures
            r.resolves(it, self.spec_count()),
            forall|i: int| 0 <= i < self.spec_count() ==> #[trigger] r.array_components@[i] == resolved_base(it, i),
    {
        ComponentsFieldData::new(self, it)
    }

    /// Plain path: every field indexed at the row.
    pub fn create_tuple(&self, array_components: &Vec<Cell>, index: usize) -> (r: Vec<Cell>)
        requires
            array_components@.len() == self.spec_count(),
            forall|i: int|
                0 <= i < array_components@.len() ==> at_column_start(array_components@[i]),
        ensures
            r@.len() == self.spec_count(),
            forall|i: int| 0 <= i < r@.len() ==> r@[i] == array_components@[i].spec_add(index as int),
    {
        let n = self.fields.len();
        let mut out: Vec<Cell> = Vec::new();
        let mut column: usize = 0;
        while column < n
            invariant
                n == self.spec_count(),
                array_components@.len() == n,
                forall|i: int|
                    0 <= i < n ==> at_column_start(array_components@[i]),
                column <= n,
                out@.len() == column,
                forall|i: int| 0 <= i < column ==> out@[i] == array_components@[i].spec_add(index as int),
            decreases n - column,
        {
            out.push(self.fields[column].mode.create_tuple_data(array_components[column], index));
            column += 1;
        }
        out
    }

    /// Broadcast path: shared fields yield their single value, the others are
    /// indexed at the row.
    pub fn create_tuple_with_ref(
        &self,
        array_components: &Vec<Cell>,
        is_ref_array_components: &Vec<bool>,
        index: usize,
    ) -> (r: Vec<Cell>)
        requires
            array_components@.len() == self.spec_count(),
            is_ref_array_components@.len() == self.spec_count(),
            forall|i: int|
                0 <= i < array_components@.len() ==> at_column_start(array_components@[i]),
        ensures
            r@.len() == self.spec_count(),
            forall|i: int|
                0 <= i < r@.len() ==> r@[i] == cell_with_ref(
                    array_components@[i],
                    is_ref_array_components@[i],
                    index as int,
                ),
    {
        let n = self.fields.len();
        let mut out: Vec<Cell> = Vec::new();
        let mut column: usize = 0;
        while column < n
            invariant
                n == self.spec_count(),
                array_components@.len() == n,
                is_ref_array_components@.len() == n,
                forall|i: int|
                    0 <= i < n ==> at_column_start(array_components@[i]),
                column <= n,
                out@.len() == column,
                forall|i: int|
                    0 <= i < column ==> out@[i] == cell_with_ref(
                        array_components@[i],
                        is_ref_array_components@[i],
                        index as int,
                    ),
            decreases n - column,
        {
            out.push(
                self.fields[column].mode.create_tuple_with_ref_data(
                    array_components[column],
                    is_ref_array_components[column],
                    index,
                ),
            );
            column += 1;
        }
        out
    }

    /// Per-row path: row-fetched fields ask the host for this row's value
    /// (and keep the fetched pointer), the others follow the broadcast rule.
    pub fn create_tuple_with_row<V>(
        &self,
        it: &IterRecord<V>,
        array_components: &mut Vec<Cell>,
        is_ref_array_components: &Vec<bool>,
        is_row_array_components: &Vec<bool>,
        indexes_array_components: &Vec<i8>,
        index_row_entity: usize,
    ) -> (r: Vec<Cell>)
        requires
            old(array_components)@.len() == self.spec_count(),
            is_ref_array_components@.len() == self.spec_count(),
            is_row_array_components@.len() == self.spec_count(),
            indexes_array_components@.len() == self.spec_count(),
            forall|i: int|
                0 <= i < self.spec_count() && !is_row_array_components@[i] ==> at_column_start(old(array_components)@[i]),
            forall|i: int|
                0 <= i < self.spec_count() && is_row_array_components@[i]
                    ==> is_ref_array_components@[i] && indexes_array_components@[i] >= 0,
        ensures
            final(array_components)@.len() == self.spec_count(),
            r@.len() == self.spec_count(),
            forall|i: int|
                0 <= i < r@.len() ==> #[trigger] final(array_components)@[i] == (
                if is_row_array_components@[i] {
                    it.spec_field_at(indexes_array_components@[i] as int, index_row_entity as int)
                } else {
                    old(array_components)@[i]
                }),
            forall|i: int|
                0 <= i < r@.len() ==> #[trigger] r@[i] == cell_with_ref(
                    final(array_components)@[i],
                    is_ref_array_components@[i],
                    index_row_entity as int,
                ),
    {
        let n = self.fields.len();
        let mut out: Vec<Cell> = Vec::new();
        let mut column: usize = 0;
        while column < n
            invariant
                n == self.spec_count(),
                array_components@.len() == n,
                is_ref_array_components@.len() == n,
                is_row_array_components@.len() == n,
                indexes_array_components@.len() == n,
                old(array_components)@.len() == n,
                column <= n,
                out@.len() == column,
                forall|i: int|
                    0 <= i < n && is_row_array_components@[i] ==> is_ref_array_components@[i]
                        && indexes_array_components@[i] >= 0,
                forall|i: int|
                    column <= i < n ==> array_components@[i] == old(array_components)@[i],
                forall|i: int|
                    0 <= i < n && !is_row_array_components@[i] ==> at_column_start(old(array_components)@[i]),
                forall|i: int|
                    0 <= i < column ==> #[trigger] array_components@[i] == (
                    if is_row_array_components@[i] {
                        it.spec_field_at(
                            indexes_array_components@[i] as int,
                            index_row_entity as int,
                        )
                    } else {
                        old(array_components)@[i]
                    }),
                forall|i: int|
                    0 <= i < column ==> #[trigger] out@[i] == cell_with_ref(
                        array_components@[i],
                        is_ref_array_components@[i],
                        index_row_entity as int,
                    ),
            decreases n - column,
        {
            if is_row_array_components[column] {
                let fetched = it.field_at(
                    indexes_array_components[column] as usize,
                    index_row_entity,
                );
                array_components.set(column, fetched);
            }
            let base = array_components[column];
            proof {
                if !is_row_array_components@[column as int] {
                    assert(base == old(array_components)@[column as int]);
                }
            }
            out.push(
                self.fields[column].mode.create_tuple_with_ref_data(
                    base,
                    is_ref_array_components[column],
                    index_row_entity,
                ),
            );
            column += 1;
        }
        out
    }
}

} // verus!
