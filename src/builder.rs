use vstd::prelude::*;
use crate::batch::{FieldsTuple, MAX_FIELDS};
use crate::field::FieldSpec;
use crate::ids::Id;
use crate::text::{chars_eq, chars_of};

verus! {

/// How a term combines with the others.
#[derive(Clone, Copy, Debug, PartialEq, Eq, Structural)]
pub enum Oper {
    And,
    Or,
    Not,
    Optional,
    AndFrom,
    OrFrom,
    NotFrom,
}

/// Whether a term's data is read, written, both, or not accessed.
#[derive(Clone, Copy, Debug, PartialEq, Eq, Structural)]
pub enum InOut {
    Default,
    InOutNone,
    In,
    Out,
    InOutBoth,
    Filter,
}

/// Where a term's value comes from.
#[derive(Clone, Copy, Debug, PartialEq, Eq, Structural)]
pub enum SrcKind {
    /// The matched entity itself.
    This,
    /// The component's own entity, shared by every match.
    Singleton,
    /// A fixed entity.
    Fixed(u64),
    /// The first entity found by following a relationship upwards.
    Up(u64),
    /// A query variable, by its index.
    Var(usize),
}

/// How the host caches the query's matches.
#[derive(Clone, Copy, Debug, PartialEq, Eq, Structural)]
pub enum CacheKind {
    Default,
    Auto,
    All,
    NoCache,
}

/// One constraint of a query.
#[derive(Clone, Copy, Debug, PartialEq, Eq, Structural)]
pub struct Term {
    /// The component, or the relationship of a pair; 0 when unset.
    pub first: u64,
    /// The target of a pair; 0 when the term is not a pair.
    pub second: u64,
    pub src: SrcKind,
    pub oper: Oper,
    pub inout: InOut,
    /// Whether matches are ordered along the traversed relationship.
    pub cascade: bool,
    /// Cascade direction: descending when set.
    pub desc: bool,
}

/// Why a query could not be built.
#[derive(Clone, Copy, Debug, PartialEq, Eq, Structural)]
pub enum BuildError {
    /// A term was left with no id, source or target.
    UninitializedTerm(usize),
    /// A declared pair field has no data component behind it.
    InvalidOperation(usize),
}

/// The term a constraint on `id` starts as.
pub open spec fn term_of(id: Id, oper: Oper, inout: InOut) -> Term {
    Term {
        first: id.spec_first(),
        second: id.spec_second(),
        src: SrcKind::This,
        oper,
        inout,
        cascade: false,
        desc: false,
    }
}

/// A term with nothing set.
pub open spec fn empty_term() -> Term {
    Term {
        first: 0,
        second: 0,
        src: SrcKind::This,
        oper: Oper::And,
        inout: InOut::Default,
        cascade: false,
        desc: false,
    }
}

/// A term whose id, source and target are all zero.
pub open spec fn is_uninitialized(t: Term) -> bool {
    t.first == 0 && t.second == 0 && t.src == SrcKind::This
}

/// The term a declared field becomes.
pub open spec fn field_term(f: FieldSpec) -> Term {
    term_of(
        f.id,
        if f.mode.spec_is_optional() {
            Oper::Optional
        } else {
            Oper::And
        },
        if f.mode.spec_is_immutable() {
            InOut::In
        } else {
            InOut::InOutBoth
        },
    )
}

/// A pair field over a marker: there is no data for the field to bind.
pub open spec fn field_lacks_data(f: FieldSpec) -> bool {
    f.id.is_pair() && f.is_tag
}

pub fn make_term(id: Id, oper: Oper, inout: InOut) -> (r: Term)
    ensures
        r == term_of(id, oper, inout),
{
    Term {
        first: id.first(),
        second: id.second(),
        src: SrcKind::This,
        oper,
        inout,
        cascade: false,
        desc: false,
    }
}

/// Builds the term of a declared field.
pub fn populate_term(f: &FieldSpec) -> (r: Term)
    ensures
        r == field_term(*f),
{
    let oper = if f.mode.is_optional() {
        Oper::Optional
    } else {
        Oper::And
    };
    let inout = if f.mode.is_immutable() {
        InOut::In
    } else {
        InOut::InOutBoth
    };
    make_term(f.id, oper, inout)
}

/// Accumulates a query descriptor: the declared fields' terms first, then
/// any term added by name.
pub struct QueryBuilder {
    pub terms: Vec<Term>,
    /// The term that modifiers apply to.
    pub current: usize,
    /// Number of terms that come from declared fields.
    pub typed_count: usize,
    pub vars: Vec<Vec<char>>,
    pub cache_kind: CacheKind,
    /// Relationship whose target keys the groups.
    pub group_by: Option<u64>,
    /// Groups are visited in descending key order.
    pub order_desc: bool,
    /// First declared pair field without data, if any.
    pub invalid_field: Option<usize>,
}

/// The finished, immutable query configuration.
pub struct Query {
    pub terms: Vec<Term>,
    pub typed_count: usize,
    pub vars: Vec<Vec<char>>,
    pub cache_kind: CacheKind,
    pub group_by: Option<u64>,
    pub order_desc: bool,
}

/// `q` is the builder made from the declared fields: one term per field,
/// nothing else set, and the first pair field without data noted.
pub open spec fn built_from(q: QueryBuilder, fields: &FieldsTuple) -> bool {
    &&& q.terms@.len() == fields.spec_count()
    &&& forall|i: int| 0 <= i < q.terms@.len() ==> #[trigger] q.terms@[i] == field_term(fields.fields@[i])
    &&& q.typed_count == fields.spec_count()
    &&& q.vars@.len() == 0
    &&& q.cache_kind == CacheKind::Default
    &&& q.group_by is None
    &&& !q.order_desc
    &&& q.invalid_field matches Some(k) ==> 0 <= k < fields.spec_count() && field_lacks_data(
        fields.fields@[k as int],
    ) && forall|j: int| 0 <= j < k ==> !field_lacks_data(#[trigger] fields.fields@[j])
    &&& q.invalid_field is None ==> forall|j: int|
        0 <= j < fields.spec_count() ==> !field_lacks_data(#[trigger] fields.fields@[j])
}

impl QueryBuilder {
    /// Applies `f` to the current term, when there is one.
    pub open spec fn modified(self, t: Term) -> Seq<Term> {
        if self.current < self.terms@.len() {
            self.terms@.update(self.current as int, t)
        } else {
            self.terms@
        }
    }

    pub open spec fn cur(self) -> Term {
        self.terms@[self.current as int]
    }

    pub open spec fn has_current(self) -> bool {
        self.current < self.terms@.len()
    }

    /// A builder holding one term per declared field, in declaration order.
    pub fn new(fields: &FieldsTuple) -> (r: QueryBuilder)
        requires
            fields.wf(),
        ensures
            r.terms@.len() == fields.spec_count(),
            forall|i: int| 0 <= i < r.terms@.len() ==> #[trigger] r.terms@[i] == field_term(fields.fields@[i]),
            r.typed_count == fields.spec_count(),
            r.current == (if fields.spec_count() > 0 {
                fields.spec_count() - 1
            } else {
                0
            }) as usize,
            r.vars@.len() == 0,
            r.cache_kind == CacheKind::Default,
            r.group_by is None,
            !r.order_desc,
            r.invalid_field matches Some(k) ==> 0 <= k < fields.spec_count() && field_lacks_data(
                fields.fields@[k as int],
            ) && forall|j: int| 0 <= j < k ==> !field_lacks_data(#[trigger] fields.fields@[j]),
            r.invalid_field is None ==> forall|j: int|
                0 <= j < fields.spec_count() ==> !field_lacks_data(#[trigger] fields.fields@[j]),
            built_from(r, fields),
    {
        let mut b = QueryBuilder {
            terms: Vec::new(),
            current: 0,
            typed_count: 0,
            vars: Vec::new(),
            cache_kind: CacheKind::Default,
            group_by: None,
            order_desc: false,
            invalid_field: None,
        };
        fields.populate(&mut b);
        proof {
            assert forall|i: int| 0 <= i < b.terms@.len() implies #[trigger] b.terms@[i] == field_term(
                fields.fields@[i],
            ) by {
                assert(b.terms@[0 + i] == field_term(fields.fields@[i]));
            }
        }
        b
    }

    /// Adds a term requiring `id`.
    pub fn with(self, id: Id) -> (r: QueryBuilder)
        requires
            self.terms@.len() < usize::MAX,
        ensures
            r.terms@ == self.terms@.push(term_of(id, Oper::And, InOut::Default)),
            r.current == self.terms@.len(),
            r.typed_count == self.typed_count,
            r.cache_kind == self.cache_kind,
            r.vars@ == self.vars@,
            r.group_by == self.group_by,
            r.order_desc == self.order_desc,
            r.invalid_field == self.invalid_field,
    {
        self.with_oper(id, Oper::And)
    }

    /// Adds a term excluding `id`.
    pub fn without(self, id: Id) -> (r: QueryBuilder)
        requires
            self.terms@.len() < usize::MAX,
        ensures
            r.terms@ == self.terms@.push(term_of(id, Oper::Not, InOut::Default)),
            r.current == self.terms@.len(),
            r.typed_count == self.typed_count,
            r.cache_kind == self.cache_kind,
            r.vars@ == self.vars@,
            r.group_by == self.group_by,
            r.order_desc == self.order_desc,
            r.invalid_field == self.invalid_field,
    {
        self.with_oper(id, Oper::Not)
    }

    fn with_oper(self, id: Id, oper: Oper) -> (r: QueryBuilder)
        requires
            self.terms@.len() < usize::MAX,
        ensures
            r.terms@ == self.terms@.push(term_of(id, oper, InOut::Default)),
            r.current == self.terms@.len(),
            r.typed_count == self.typed_count,
            r.cache_kind == self.cache_kind,
            r.vars@ == self.vars@,
            r.group_by == self.group_by,
            r.order_desc == self.order_desc,
            r.invalid_field == self.invalid_field,
    {
        let mut b = self;
        let t = make_term(id, oper, InOut::Default);
        b.current = b.terms.len();
        b.terms.push(t);
        b
    }

    fn update_current(self, t: Term) -> (r: QueryBuilder)
        ensures
            r.terms@ == self.modified(t),
            r.current == self.current,
            r.typed_count == self.typed_count,
            r.cache_kind == self.cache_kind,
            r.vars@ == self.vars@,
            r.group_by == self.group_by,
            r.order_desc == self.order_desc,
            r.invalid_field == self.invalid_field,
    {
        let mut b = self;
        if b.current < b.terms.len() {
            let c = b.current;
            b.terms.set(c, t);
        }
        b
    }

    fn current_term(&self) -> (r: Term)
        ensures
            self.has_current() ==> r == self.cur(),
    {
        if self.current < self.terms.len() {
            self.terms[self.current]
        } else {
            make_term(Id::Entity(0), Oper::And, InOut::Default)
        }
    }

    /// Sets the operator of the current term.
    pub fn set_oper(self, oper: Oper) -> (r: QueryBuilder)
        ensures
            r.terms@ == self.modified(Term { oper, ..self.cur() }),
            r.current == self.current,
            r.typed_count == self.typed_count,
            r.cache_kind == self.cache_kind,
            r.vars@ == self.vars@,
            r.group_by == self.group_by,
            r.order_desc == self.order_desc,
            r.invalid_field == self.invalid_field,
    {
        let t = self.current_term();
        self.update_current(Term { oper, ..t })
    }

    /// Makes the current term optional.
    pub fn optional(self) -> (r: QueryBuilder)
        ensures
            r.terms@ == self.modified(Term { oper: Oper::Optional, ..self.cur() }),
            r.current == self.current,
            r.typed_count == self.typed_count,
            r.cache_kind == self.cache_kind,
            r.vars@ == self.vars@,
            r.group_by == self.group_by,
            r.order_desc == self.order_desc,
            r.invalid_field == self.invalid_field,
    {
        self.set_oper(Oper::Optional)
    }

    /// Joins the current term with the next one by `or`.
    pub fn or(self) -> (r: QueryBuilder)
        ensures
            r.terms@ == self.modified(Term { oper: Oper::Or, ..self.cur() }),
            r.current == self.current,
            r.typed_count == self.typed_count,
            r.cache_kind == self.cache_kind,
            r.vars@ == self.vars@,
            r.group_by == self.group_by,
            r.order_desc == self.order_desc,
            r.invalid_field == self.invalid_field,
    {
        self.set_oper(Oper::Or)
    }

    /// Sets the access of the current term.
    pub fn set_inout(self, inout: InOut) -> (r: QueryBuilder)
        ensures
            r.terms@ == self.modified(Term { inout, ..self.cur() }),
            r.current == self.current,
            r.typed_count == self.typed_count,
            r.cache_kind == self.cache_kind,
            r.vars@ == self.vars@,
            r.group_by == self.group_by,
            r.order_desc == self.order_desc,
            r.invalid_field == self.invalid_field,
    {
        let t = self.current_term();
        self.update_current(Term { inout, ..t })
    }

    /// Sets where the current term's value comes from.
    pub fn src(self, src: SrcKind) -> (r: QueryBuilder)
        ensures
            r.terms@ == self.modified(Term { src, ..self.cur() }),
            r.current == self.current,
            r.typed_count == self.typed_count,
            r.cache_kind == self.cache_kind,
            r.vars@ == self.vars@,
            r.group_by == self.group_by,
            r.order_desc == self.order_desc,
            r.invalid_field == self.invalid_field,
    {
        let t = self.current_term();
        self.update_current(Term { src, ..t })
    }

    /// Reads the current term from the component's own entity.
    pub fn singleton(self) -> (r: QueryBuilder)
        ensures
            r.terms@ == self.modified(Term { src: SrcKind::Singleton, ..self.cur() }),
            r.current == self.current,
            r.typed_count == self.typed_count,
            r.cache_kind == self.cache_kind,
            r.vars@ == self.vars@,
            r.group_by == self.group_by,
            r.order_desc == self.order_desc,
            r.invalid_field == self.invalid_field,
    {
        self.src(SrcKind::Singleton)
    }

    /// Reads the current term by traversing `rel` upwards.
    pub fn up(self, rel: u64) -> (r: QueryBuilder)
        ensures
            r.terms@ == self.modified(Term { src: SrcKind::Up(rel), ..self.cur() }),
            r.current == self.current,
            r.typed_count == self.typed_count,
            r.cache_kind == self.cache_kind,
            r.vars@ == self.vars@,
            r.group_by == self.group_by,
            r.order_desc == self.order_desc,
            r.invalid_field == self.invalid_field,
    {
        self.src(SrcKind::Up(rel))
    }

    /// Sets the target of the current term, making it a pair.
    pub fn second(self, target: u64) -> (r: QueryBuilder)
        ensures
            r.terms@ == self.modified(Term { second: target, ..self.cur() }),
            r.current == self.current,
            r.typed_count == self.typed_count,
            r.cache_kind == self.cache_kind,
            r.vars@ == self.vars@,
            r.group_by == self.group_by,
            r.order_desc == self.order_desc,
            r.invalid_field == self.invalid_field,
    {
        let t = self.current_term();
        self.update_current(Term { second: target, ..t })
    }

    /// Traverses `rel` upwards for the current term and orders matches along
    /// it; `desc` gives the direction.
    pub fn cascade(self, rel: u64, desc: bool) -> (r: QueryBuilder)
        ensures
            r.terms@ == self.modified(
                Term { src: SrcKind::Up(rel), cascade: true, desc, ..self.cur() },
            ),
            r.current == self.current,
            r.typed_count == self.typed_count,
            r.cache_kind == self.cache_kind,
            r.vars@ == self.vars@,
            r.group_by == self.group_by,
            r.order_desc == self.order_desc,
            r.invalid_field == self.invalid_field,
    {
        let t = self.current_term();
        self.update_current(Term { src: SrcKind::Up(rel), cascade: true, desc, ..t })
    }

    /// Index of the variable called `name`, if declared.
    pub open spec fn spec_find_var(vars: Seq<Vec<char>>, name: Seq<char>) -> Option<usize> {
        if exists|i: int| 0 <= i < vars.len() && vars[i]@ == name {
            Some(
                (choose|i: int|
                    0 <= i < vars.len() && vars[i]@ == name && forall|j: int|
                        0 <= j < i ==> vars[j]@ != name) as usize,
            )
        } else {
            None
        }
    }

    /// Binds the current term's source to the variable `name`, declaring it
    /// on first use.
    pub fn set_var(self, name: &str) -> (r: QueryBuilder)
        requires
            self.vars@.len() < usize::MAX,
        ensures
            r.current == self.current,
            r.typed_count == self.typed_count,
            r.cache_kind == self.cache_kind,
            r.group_by == self.group_by,
            r.order_desc == self.order_desc,
            r.invalid_field == self.invalid_field,
            r.vars@.len() == self.vars@.len() || r.vars@.len() == self.vars@.len() + 1,
            find_var_in(r.vars@, name@) matches Some(k) && r.terms@ == self.modified(
                Term { src: SrcKind::Var(k), ..self.cur() },
            ),
    {
        let cs = chars_of(name);
        let found = find_var_index(&self.vars, &cs);
        let mut b = self;
        let k = match found {
            Some(k) => {
                proof {
                    lemma_find_var_first(b.vars@, name@, k as int);
                }
                k
            },
            None => {
                let k = b.vars.len();
                b.vars.push(cs);
                proof {
                    assert forall|j: int| 0 <= j < k implies b.vars@[j]@ != name@ by {
                        assert(b.vars@[j] == self.vars@[j]);
                    }
                    assert(b.vars@[k as int]@ == name@);
                }
                k
            },
        };
        let t = b.current_term();
        proof {
            lemma_find_var_first(b.vars@, name@, k as int);
        }
        b.update_current(Term { src: SrcKind::Var(k), ..t })
    }

    /// Keys groups by the target of the first `(rel, _)` pair of each table.
    pub fn group_by(self, rel: u64) -> (r: QueryBuilder)
        ensures
            r.terms@ == self.terms@,
            r.current == self.current,
            r.typed_count == self.typed_count,
            r.cache_kind == self.cache_kind,
            r.vars@ == self.vars@,
            r.group_by == Some(rel),
            r.order_desc == self.order_desc,
            r.invalid_field == self.invalid_field,
    {
        let mut b = self;
        b.group_by = Some(rel);
        b
    }

    /// Visits groups in descending key order.
    pub fn desc(self) -> (r: QueryBuilder)
        ensures
            r.terms@ == self.terms@,
            r.current == self.current,
            r.typed_count == self.typed_count,
            r.cache_kind == self.cache_kind,
            r.vars@ == self.vars@,
            r.group_by == self.group_by,
            r.order_desc,
            r.invalid_field == self.invalid_field,
    {
        let mut b = self;
        b.order_desc = true;
        b
    }

    pub fn set_cache_kind(self, kind: CacheKind) -> (r: QueryBuilder)
        ensures
            r.terms@ == self.terms@,
            r.current == self.current,
            r.cache_kind == kind,
            r.typed_count == self.typed_count,
            r.vars@ == self.vars@,
            r.group_by == self.group_by,
            r.order_desc == self.order_desc,
            r.invalid_field == self.invalid_field,
    {
        let mut b = self;
        b.cache_kind = kind;
        b
    }

    /// Makes term `i` the current one; terms up to it that do not exist yet
    /// are added empty.
    pub fn term_at(self, i: usize) -> (r: QueryBuilder)
        requires
            i < MAX_FIELDS,
        ensures
            r.current == i,
            self.terms@.len() > i ==> r.terms@ == self.terms@,
            self.terms@.len() <= i ==> r.terms@ == self.terms@ + Seq::new(
                (i + 1 - self.terms@.len()) as nat,
                |_j: int| empty_term(),
            ),
            r.typed_count == self.typed_count,
            r.cache_kind == self.cache_kind,
            r.vars@ == self.vars@,
            r.group_by == self.group_by,
            r.order_desc == self.order_desc,
            r.invalid_field == self.invalid_field,
    {
        let mut b = self;
        let ghost start = b.terms@;
        while b.terms.len() <= i
            invariant
                i < MAX_FIELDS,
                start.len() <= i ==> b.terms@ == start + Seq::new(
                    (if b.terms@.len() > start.len() {
                        b.terms@.len() - start.len()
                    } else {
                        0
                    }) as nat,
                    |_j: int| empty_term(),
                ),
                start.len() <= i ==> b.terms@.len() <= i + 1 && b.terms@.len() >= start.len(),
                start.len() > i ==> b.terms@ == start,
                b.typed_count == self.typed_count,
                b.cache_kind == self.cache_kind,
                b.vars@ == self.vars@,
                b.group_by == self.group_by,
                b.order_desc == self.order_desc,
                b.invalid_field == self.invalid_field,
            decreases i + 1 - b.terms@.len(),
        {
            let ghost prev = b.terms@;
            b.terms.push(make_term(Id::Entity(0), Oper::And, InOut::Default));
            proof {
                assert(b.terms@ =~= start + Seq::new(
                    (b.terms@.len() - start.len()) as nat,
                    |_j: int| empty_term(),
                ));
            }
        }
        proof {
            if start.len() <= i {
                assert(b.terms@.len() == i + 1);
            }
        }
        b.current = i;
        b
    }

    /// Finishes the descriptor: fails on a declared pair field without data,
    /// then on the first term left uninitialized.
    pub fn build(self) -> (r: Result<Query, BuildError>)
        ensures
            self.invalid_field is Some ==> r == Err::<Query, BuildError>(
                BuildError::InvalidOperation(self.invalid_field->0),
            ),
            self.invalid_field is None ==> match r {
                Ok(q) => {
                    &&& q.terms@ == self.terms@
                    &&& q.typed_count == self.typed_count
                    &&& q.vars@ == self.vars@
                    &&& q.group_by == self.group_by
                    &&& q.order_desc == self.order_desc
                    &&& q.cache_kind == self.cache_kind
                    &&& forall|i: int|
                        0 <= i < self.terms@.len() ==> !is_uninitialized(#[trigger] self.terms@[i])
                },
                Err(e) => e matches BuildError::UninitializedTerm(k) && k < self.terms@.len()
                    && is_uninitialized(self.terms@[k as int]) && forall|j: int|
                    0 <= j < k ==> !is_uninitialized(#[trigger] self.terms@[j]),
            },
    {
        match self.invalid_field {
            Some(k) => {
                return Err(BuildError::InvalidOperation(k));
            },
            None => {},
        }
        let mut i: usize = 0;
        while i < self.terms.len()
            invariant
                self.invalid_field is None,
                i <= self.terms@.len(),
                forall|j: int| 0 <= j < i ==> !is_uninitialized(#[trigger] self.terms@[j]),
            decreases self.terms@.len() - i,
        {
            let t = self.terms[i];
            if t.first == 0 && t.second == 0 && t.src == SrcKind::This {
                return Err(BuildError::UninitializedTerm(i));
            }
            i += 1;
        }
        Ok(
            Query {
                terms: self.terms,
                typed_count: self.typed_count,
                vars: self.vars,
                cache_kind: self.cache_kind,
                group_by: self.group_by,
                order_desc: self.order_desc,
            },
        )
    }
}

/// First index of a variable named `name`.
pub open spec fn find_var_in(vars: Seq<Vec<char>>, name: Seq<char>) -> Option<usize> {
    QueryBuilder::spec_find_var(vars, name)
}

/// The first variable with a name is the one found.
pub proof fn lemma_find_var_first(vars: Seq<Vec<char>>, name: Seq<char>, k: int)
    requires
        0 <= k < vars.len(),
        vars[k]@ == name,
        forall|j: int| 0 <= j < k ==> vars[j]@ != name,
    ensures
        find_var_in(vars, name) == Some(k as usize),
{
    let c = choose|c: int|
        0 <= c < vars.len() && vars[c]@ == name && forall|j: int| 0 <= j < c ==> vars[j]@ != name;
    if c < k {
    } else if c > k {
        assert(vars[k]@ != name);
    }
}

/// Looks a variable up by name.
pub fn find_var_index(vars: &Vec<Vec<char>>, name: &Vec<char>) -> (r: Option<usize>)
    ensures
        r == find_var_in(vars@, name@),
        r matches Some(k) ==> k < vars@.len() && vars@[k as int]@ == name@ && forall|j: int|
            0 <= j < k ==> vars@[j]@ != name@,
        r is None ==> forall|j: int| 0 <= j < vars@.len() ==> vars@[j]@ != name@,
{
    let mut i: usize = 0;
    while i < vars.len()
        invariant
            i <= vars@.len(),
            forall|j: int| 0 <= j < i ==> vars@[j]@ != name@,
        decreases vars@.len() - i,
    {
        if chars_eq(&vars[i], name) {
            proof {
                lemma_find_var_first(vars@, name@, i as int);
            }
            return Some(i);
        }
        i += 1;
    }
    None
}

impl FieldsTuple {
    /// Appends one term per declared field, in declaration order, noting the
    /// first pair field that has no data behind it.
    pub fn populate(&self, query: &mut QueryBuilder)
        requires
            self.wf(),
            old(query).terms@.len() + MAX_FIELDS <= usize::MAX,
        ensures
            final(query).terms@.len() == old(query).terms@.len() + self.spec_count(),
            forall|i: int|
                0 <= i < old(query).terms@.len() ==> #[trigger] final(query).terms@[i] == old(query).terms@[i],
            forall|i: int|
                0 <= i < self.spec_count() ==> #[trigger] final(query).terms@[old(query).terms@.len() + i]
                    == field_term(self.fields@[i]),
            final(query).typed_count == self.spec_count(),
            self.spec_count() > 0 ==> final(query).current == old(query).terms@.len() + self.spec_count() - 1,
            self.spec_count() == 0 ==> final(query).current == old(query).current,
            final(query).vars@ == old(query).vars@,
            final(query).cache_kind == old(query).cache_kind,
            final(query).group_by == old(query).group_by,
            final(query).order_desc == old(query).order_desc,
            old(query).invalid_field is Some ==> final(query).invalid_field == old(query).invalid_field,
            old(query).invalid_field is None ==> (final(query).invalid_field matches Some(k) ==> 0 <= k
                < self.spec_count() && field_lacks_data(self.fields@[k as int]) && forall|j: int|
                0 <= j < k ==> !field_lacks_data(#[trigger] self.fields@[j])),
            old(query).invalid_field is None && final(query).invalid_field is None ==> forall|j: int|
                0 <= j < self.spec_count() ==> !field_lacks_data(#[trigger] self.fields@[j]),
    {
        let n = self.fields.len();
        let base = query.terms.len();
        let mut i: usize = 0;
        while i < n
            invariant
                n == self.spec_count(),
                n <= MAX_FIELDS,
                base == old(query).terms@.len(),
                base + MAX_FIELDS <= usize::MAX,
                i <= n,
                query.terms@.len() == base + i,
                forall|j: int| 0 <= j < base ==> #[trigger] query.terms@[j] == old(query).terms@[j],
                forall|j: int| 0 <= j < i ==> #[trigger] query.terms@[base + j] == field_term(self.fields@[j]),
                query.current == old(query).current,
                query.vars@ == old(query).vars@,
                query.cache_kind == old(query).cache_kind,
                query.group_by == old(query).group_by,
                query.order_desc == old(query).order_desc,
                old(query).invalid_field is Some ==> query.invalid_field == old(query).invalid_field,
                old(query).invalid_field is None ==> (query.invalid_field matches Some(k) ==> 0 <= k < i
                    && field_lacks_data(self.fields@[k as int]) && forall|j: int|
                    0 <= j < k ==> !field_lacks_data(#[trigger] self.fields@[j])),
                old(query).invalid_field is None && query.invalid_field is None ==> forall|j: int|
                    0 <= j < i ==> !field_lacks_data(#[trigger] self.fields@[j]),
            decreases n - i,
        {
            let f = self.fields[i];
            if f.id.is_pair_id() && f.is_tag && query.invalid_field.is_none() {
                query.invalid_field = Some(i);
            }
            let ghost prev = query.terms@;
            query.terms.push(populate_term(&f));
            proof {
                assert(query.terms@[base + i as int] == field_term(self.fields@[i as int]));
                assert forall|j: int| 0 <= j < base implies #[trigger] query.terms@[j] == old(query).terms@[j] by {
                    assert(query.terms@[j] == prev[j]);
                }
                assert forall|j: int| 0 <= j < i + 1 implies #[trigger] query.terms@[base + j] == field_term(
                    self.fields@[j],
                ) by {
                    if j < i {
                        assert(query.terms@[base + j] == prev[base + j]);
                    }
                }
            }
            i += 1;
        }
        query.typed_count = n;
        if n > 0 {
            query.current = base + n - 1;
        }
    }
}

impl Query {
    /// Number of terms: the declared fields plus those added afterwards.
    pub fn field_count(&self) -> (r: usize)
        ensures
            r == self.terms@.len(),
    {
        self.terms.len()
    }

    /// Term `i`, if there is one.
    pub fn term(&self, i: usize) -> (r: Option<Term>)
        ensures
            i < self.terms@.len() ==> r == Some(self.terms@[i as int]),
            i >= self.terms@.len() ==> r is None,
    {
        if i < self.terms.len() {
            Some(self.terms[i])
        } else {
            None
        }
    }

    /// Index of the variable called `name`; absent for an unknown name.
    pub fn find_var(&self, name: &str) -> (r: Option<usize>)
        ensures
            r == find_var_in(self.vars@, name@),
    {
        let cs = chars_of(name);
        find_var_index(&self.vars, &cs)
    }
}

} // verus!
