use vstd::prelude::*;
use crate::ids::Id;

verus! {

/// How a declared field is accessed by the caller.
#[derive(Clone, Copy, Debug, PartialEq, Eq, Structural)]
pub enum AccessMode {
    ReadOwned,
    WriteOwned,
    ReadOptional,
    WriteOptional,
}

/// Which element of a pair carries the field's data type.
#[derive(Clone, Copy, Debug, PartialEq, Eq, Structural)]
pub enum PairRole {
    NoPair,
    First,
    Second,
}

/// One declared field: the component it reads and how it is accessed.
#[derive(Clone, Copy, Debug, PartialEq, Eq, Structural)]
pub struct FieldSpec {
    pub id: Id,
    pub mode: AccessMode,
    pub role: PairRole,
    /// The component is a zero-sized marker and carries no data.
    pub is_tag: bool,
}

impl AccessMode {
    pub open spec fn spec_is_optional(self) -> bool {
        self is ReadOptional || self is WriteOptional
    }

    pub open spec fn spec_is_immutable(self) -> bool {
        self is ReadOwned || self is ReadOptional
    }

    pub fn is_optional(&self) -> (r: bool)
        ensures
            r == self.spec_is_optional(),
    {
        match self {
            AccessMode::ReadOptional | AccessMode::WriteOptional => true,
            _ => false,
        }
    }

    pub fn is_immutable(&self) -> (r: bool)
        ensures
            r == self.spec_is_immutable(),
    {
        match self {
            AccessMode::ReadOwned | AccessMode::ReadOptional => true,
            _ => false,
        }
    }
}

impl FieldSpec {
    pub fn new(id: Id, mode: AccessMode) -> (r: FieldSpec)
        ensures
            r.id == id,
            r.mode == mode,
            r.role == (if id.is_pair() { PairRole::First } else { PairRole::NoPair }),
            !r.is_tag,
    {
        let role = if id.is_pair_id() {
            PairRole::First
        } else {
            PairRole::NoPair
        };
        FieldSpec { id, mode, role, is_tag: false }
    }

    /// A field over a zero-sized marker component.
    pub fn tag(id: Id, mode: AccessMode) -> (r: FieldSpec)
        ensures
            r.id == id,
            r.mode == mode,
            r.role == (if id.is_pair() { PairRole::First } else { PairRole::NoPair }),
            r.is_tag,
    {
        let f = FieldSpec::new(id, mode);
        FieldSpec { is_tag: true, ..f }
    }
}

/// A location inside a batch: element `offset` of field column `column`, or
/// nothing (the null pointer of an absent optional field).
#[derive(Clone, Copy, Debug, PartialEq, Eq, Structural)]
pub enum Cell {
    Absent,
    At { column: usize, offset: usize },
}

impl Cell {
    /// The location `k` elements further along the same column.
    pub open spec fn spec_add(self, k: int) -> Cell {
        match self {
            Cell::Absent => Cell::Absent,
            Cell::At { column, offset } => Cell::At { column, offset: (offset + k) as usize },
        }
    }

    pub fn add(&self, k: usize) -> (r: Cell)
        requires
            self matches Cell::At { offset, .. } ==> offset + k <= usize::MAX,
        ensures
            r == self.spec_add(k as int),
    {
        match self {
            Cell::Absent => Cell::Absent,
            Cell::At { column, offset } => Cell::At { column: *column, offset: *offset + k },
        }
    }
}

/// What a field yields for one row: with `is_ref`, the single broadcast value
/// at the start of the column; otherwise the element at `row`; nothing when
/// the column pointer is null.
pub open spec fn cell_with_ref(base: Cell, is_ref: bool, row: int) -> Cell {
    if is_ref {
        base.spec_add(0)
    } else {
        base.spec_add(row)
    }
}

/// Per-field extraction rule of an access mode.
pub trait IterableTypeFieldOperation {
    spec fn spec_is_immutable_field(&self) -> bool;

    /// Element `index` of the column that `base` points at.
    fn create_tuple_data(&self, base: Cell, index: usize) -> (r: Cell)
        requires
            base matches Cell::At { offset, .. } ==> offset + index <= usize::MAX,
        ensures
            r == base.spec_add(index as int),
    ;

    /// Element `index`, or the broadcast element when `is_ref`.
    fn create_tuple_with_ref_data(&self, base: Cell, is_ref: bool, index: usize) -> (r: Cell)
        requires
            base matches Cell::At { offset, .. } ==> offset + (if is_ref {
                0
            } else {
                index as int
            }) <= usize::MAX,
        ensures
            r == cell_with_ref(base, is_ref, index as int),
    ;
}

impl IterableTypeFieldOperation for AccessMode {
    open spec fn spec_is_immutable_field(&self) -> bool {
        self.spec_is_immutable()
    }

    fn create_tuple_data(&self, base: Cell, index: usize) -> (r: Cell) {
        base.add(index)
    }

    fn create_tuple_with_ref_data(&self, base: Cell, is_ref: bool, index: usize) -> (r: Cell) {
        if is_ref {
            base.add(0)
        } else {
            base.add(index)
        }
    }
}

} // verus!

verus! {

/// How a field's reference is presented: directly, or as an option that is
/// empty when the column pointer is null.
pub struct Wrapper {
    pub optional: bool,
}

/// What a field yields for a row, as the caller's tuple presents it.
pub trait TupleForm {
    spec fn spec_is_option(&self) -> bool;

    /// Element `index` of the column at `base`.
    fn return_type_for_tuple(&self, base: Cell, index: usize) -> (r: Cell)
        requires
            base matches Cell::At { offset, .. } ==> offset + index <= usize::MAX,
        ensures
            r == base.spec_add(index as int),
    ;

    /// Element `index`, or the broadcast element when `is_ref`.
    fn return_type_for_tuple_with_ref(&self, base: Cell, is_ref: bool, index: usize) -> (r: Cell)
        requires
            base matches Cell::At { offset, .. } ==> offset + index <= usize::MAX,
        ensures
            r == cell_with_ref(base, is_ref, index as int),
    ;
}

impl TupleForm for Wrapper {
    open spec fn spec_is_option(&self) -> bool {
        self.optional
    }

    fn return_type_for_tuple(&self, base: Cell, index: usize) -> (r: Cell) {
        base.add(index)
    }

    fn return_type_for_tuple_with_ref(&self, base: Cell, is_ref: bool, index: usize) -> (r: Cell) {
        if is_ref {
            base.add(0)
        } else {
            base.add(index)
        }
    }
}

} // verus!
