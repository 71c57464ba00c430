use vstd::prelude::*;
use crate::ids::Id;

verus! {

/// Batch `a` comes before batch `b` in ascending group order: smaller key,
/// or equal key and earlier batch.
pub open spec fn before(keys: Seq<u64>, a: int, b: int) -> bool {
    keys[a] < keys[b] || (keys[a] == keys[b] && a < b)
}

/// `order` lists batch indices in strictly increasing (key, index) order.
pub open spec fn ascending(keys: Seq<u64>, order: Seq<usize>) -> bool {
    forall|p: int, q: int|
        0 <= p < q < order.len() ==> before(keys, #[trigger] order[p] as int, #[trigger] order[q] as int)
}

/// Every index of `order` names a batch, and every batch is named.
pub open spec fn covers(n: nat, order: Seq<usize>) -> bool {
    &&& forall|p: int| 0 <= p < order.len() ==> #[trigger] order[p] < n
    &&& forall|i: usize| i < n ==> #[trigger] order.contains(i)
}

/// Visiting order of batches under ascending group keys: each batch exactly
/// once, keys non-decreasing, batches of one group in index order.
pub fn group_order(keys: &Vec<u64>) -> (r: Vec<usize>)
    ensures
        covers(keys@.len(), r@),
        ascending(keys@, r@),
        r@.no_duplicates(),
{
    let mut order: Vec<usize> = Vec::new();
    let mut i: usize = 0;
    while i < keys.len()
        invariant
            i <= keys@.len(),
            forall|p: int| 0 <= p < order@.len() ==> #[trigger] order@[p] < i,
            forall|j: usize| j < i ==> #[trigger] order@.contains(j),
            ascending(keys@, order@),
        decreases keys@.len() - i,
    {
        let k = keys[i];
        let mut pos: usize = 0;
        while pos < order.len() && keys[order[pos]] <= k
            invariant
                i < keys@.len(),
                k == keys@[i as int],
                pos <= order@.len(),
                forall|p: int| 0 <= p < order@.len() ==> #[trigger] order@[p] < i,
                forall|p: int| 0 <= p < pos ==> keys@[#[trigger] order@[p] as int] <= k,
            decreases order@.len() - pos,
        {
            pos += 1;
        }
        let ghost prev = order@;
        order.insert(pos, i);
        proof {
            assert(order@ == prev.insert(pos as int, i));
            assert forall|p: int, q: int| 0 <= p < q < order@.len() implies before(
                keys@,
                #[trigger] order@[p] as int,
                #[trigger] order@[q] as int,
            ) by {
                if q < pos {
                    assert(order@[p] == prev[p] && order@[q] == prev[q]);
                } else if q == pos {
                    assert(order@[p] == prev[p]);
                    assert(keys@[prev[p] as int] <= k);
                } else if p < pos {
                    assert(order@[p] == prev[p] && order@[q] == prev[q - 1]);
                } else if p == pos {
                    // everything after the insertion point has a larger key
                    assert(order@[q] == prev[q - 1]);
                    assert(pos < prev.len());
                    assert(keys@[prev[pos as int] as int] > k);
                    if q - 1 > pos {
                        assert(before(keys@, prev[pos as int] as int, prev[q - 1] as int));
                    }
                } else {
                    assert(order@[p] == prev[p - 1] && order@[q] == prev[q - 1]);
                }
            }
            assert forall|p: int| 0 <= p < order@.len() implies #[trigger] order@[p] < i + 1 by {
                if p < pos {
                    assert(order@[p] == prev[p]);
                } else if p > pos {
                    assert(order@[p] == prev[p - 1]);
                }
            }
            assert forall|j: usize| j < i + 1 implies #[trigger] order@.contains(j) by {
                if j < i {
                    assert(prev.contains(j));
                    let w = choose|w: int| 0 <= w < prev.len() && prev[w] == j;
                    if w < pos {
                        assert(order@[w] == prev[w]);
                    } else {
                        assert(order@[w + 1] == prev[w]);
                    }
                } else {
                    assert(order@[pos as int] == j);
                }
            }
        }
        i += 1;
    }
    proof {
        assert forall|p: int, q: int| 0 <= p < order@.len() && 0 <= q < order@.len() && p != q implies order@[p]
            != order@[q] by {
            if p < q {
                assert(before(keys@, order@[p] as int, order@[q] as int));
            } else {
                assert(before(keys@, order@[q] as int, order@[p] as int));
            }
        }
    }
    order
}

/// The reverse of a sequence.
pub open spec fn reversed(s: Seq<usize>) -> Seq<usize> {
    Seq::new(s.len(), |p: int| s[s.len() - 1 - p])
}

/// Visiting order of batches: ascending by group key, or exactly its reverse.
pub fn group_visit_order(keys: &Vec<u64>, desc: bool) -> (r: Vec<usize>)
    ensures
        !desc ==> r@ == group_order_spec(keys@),
        desc ==> r@ == reversed(group_order_spec(keys@)),
        forall|p: int| 0 <= p < r@.len() ==> #[trigger] r@[p] < keys@.len(),
        forall|i: usize| i < keys@.len() ==> #[trigger] r@.contains(i),
        r@.no_duplicates(),
        !desc ==> forall|p: int, q: int|
            0 <= p < q < r@.len() ==> keys@[#[trigger] r@[p] as int] <= keys@[#[trigger] r@[q] as int],
        desc ==> forall|p: int, q: int|
            0 <= p < q < r@.len() ==> keys@[#[trigger] r@[p] as int] >= keys@[#[trigger] r@[q] as int],
{
    let asc = group_order(keys);
    proof {
        lemma_ascending_unique(keys@, asc@, group_order_spec(keys@));
    }
    if desc {
        let mut out: Vec<usize> = Vec::new();
        let mut p: usize = asc.len();
        while p > 0
            invariant
                p <= asc@.len(),
                out@.len() == asc@.len() - p,
                forall|q: int| 0 <= q < out@.len() ==> #[trigger] out@[q] == asc@[asc@.len() - 1 - q],
            decreases p,
        {
            p -= 1;
            out.push(asc[p]);
        }
        assert(out@ =~= reversed(asc@));
        assert forall|q: int| 0 <= q < out@.len() implies #[trigger] out@[q] < keys@.len() by {
            assert(out@[q] == asc@[asc@.len() - 1 - q]);
        }
        assert forall|p: int, q: int| 0 <= p < q < out@.len() implies keys@[#[trigger] out@[p] as int]
            >= keys@[#[trigger] out@[q] as int] by {
            assert(out@[p] == asc@[asc@.len() - 1 - p]);
            assert(out@[q] == asc@[asc@.len() - 1 - q]);
            assert(before(keys@, asc@[asc@.len() - 1 - q] as int, asc@[asc@.len() - 1 - p] as int));
        }
        assert forall|a: int, b: int| 0 <= a < out@.len() && 0 <= b < out@.len() && a != b implies out@[a] != out@[b] by {
            assert(out@[a] == asc@[asc@.len() - 1 - a]);
            assert(out@[b] == asc@[asc@.len() - 1 - b]);
        }
        assert forall|i: usize| i < keys@.len() implies #[trigger] out@.contains(i) by {
            assert(asc@.contains(i));
            let w = choose|w: int| 0 <= w < asc@.len() && asc@[w] == i;
            assert(out@[asc@.len() - 1 - w] == asc@[w]);
        }
        out
    } else {
        assert forall|p: int, q: int| 0 <= p < q < asc@.len() implies keys@[#[trigger] asc@[p] as int]
            <= keys@[#[trigger] asc@[q] as int] by {
            assert(before(keys@, asc@[p] as int, asc@[q] as int));
        }
        asc
    }
}

/// The ascending group order of batches with the given keys.
pub open spec fn group_order_spec(keys: Seq<u64>) -> Seq<usize> {
    choose|o: Seq<usize>| covers(keys.len(), o) && ascending(keys, o) && o.no_duplicates()
}

/// Two orders that both cover every batch in strictly ascending (key,
/// index) order are the same order.
pub proof fn lemma_ascending_unique(keys: Seq<u64>, a: Seq<usize>, b: Seq<usize>)
    requires
        covers(keys.len(), a),
        ascending(keys, a),
        a.no_duplicates(),
        b == group_order_spec(keys),
    ensures
        covers(keys.len(), b),
        ascending(keys, b),
        b.no_duplicates(),
        a == b,
{
    assert(exists|o: Seq<usize>| covers(keys.len(), o) && ascending(keys, o) && o.no_duplicates());
    lemma_same_order(keys, a, b);
}

/// Strictly ordered sequences over the same elements are equal.
proof fn lemma_same_order(keys: Seq<u64>, a: Seq<usize>, b: Seq<usize>)
    requires
        covers(keys.len(), a),
        ascending(keys, a),
        covers(keys.len(), b),
        ascending(keys, b),
    ensures
        a == b,
    decreases a.len(),
{
    // position p of `a` holds the element with exactly p elements before it
    assert forall|p: int| 0 <= p < a.len() && p < b.len() implies a[p] == b[p] by {
        lemma_rank(keys, a, b, p);
    }
    if a.len() < b.len() {
        let x = b[a.len() as int];
        assert(a.contains(x));
        let w = choose|w: int| 0 <= w < a.len() && a[w] == x;
        assert(b[w] == x);
        assert(before(keys, b[w] as int, b[a.len() as int] as int));
    } else if b.len() < a.len() {
        let x = a[b.len() as int];
        assert(b.contains(x));
        let w = choose|w: int| 0 <= w < b.len() && b[w] == x;
        assert(a[w] == x);
        assert(before(keys, a[w] as int, a[b.len() as int] as int));
    }
    assert(a =~= b);
}

/// Element `p` of two covering ascending orders agree.
proof fn lemma_rank(keys: Seq<u64>, a: Seq<usize>, b: Seq<usize>, p: int)
    requires
        covers(keys.len(), a),
        ascending(keys, a),
        covers(keys.len(), b),
        ascending(keys, b),
        0 <= p < a.len(),
        p < b.len(),
    ensures
        a[p] == b[p],
    decreases p,
{
    if p > 0 {
        lemma_rank(keys, a, b, p - 1);
    }
    let x = a[p];
    let y = b[p];
    assert(b.contains(x));
    assert(a.contains(y));
    let wb = choose|w: int| 0 <= w < b.len() && b[w] == x;
    let wa = choose|w: int| 0 <= w < a.len() && a[w] == y;
    assert forall|q: int| 0 <= q < p implies a[q] == b[q] by {
        lemma_rank(keys, a, b, q);
    }
    if x != y {
        // x sits at wb in b: wb > p, since b[0..p] = a[0..p] holds no x
        if wb < p {
            assert(a[wb] == b[wb]);
            assert(before(keys, a[wb] as int, a[p] as int));
        }
        if wa < p {
            assert(a[wa] == b[wa]);
            assert(before(keys, b[wa] as int, b[p] as int));
        }
        assert(wb > p && wa > p);
        assert(before(keys, b[p] as int, b[wb] as int));
        assert(before(keys, a[p] as int, a[wa] as int));
    }
}

/// Keeps the batches of group `group`, in visiting order.
pub fn set_group(keys: &Vec<u64>, order: &Vec<usize>, group: u64) -> (r: Vec<usize>)
    requires
        forall|p: int| 0 <= p < order@.len() ==> #[trigger] order@[p] < keys@.len(),
    ensures
        r@ == order@.filter(|i: usize| keys@[i as int] == group),
{
    let mut out: Vec<usize> = Vec::new();
    let mut p: usize = 0;
    while p < order.len()
        invariant
            p <= order@.len(),
            forall|q: int| 0 <= q < order@.len() ==> #[trigger] order@[q] < keys@.len(),
            out@ == order@.subrange(0, p as int).filter(|i: usize| keys@[i as int] == group),
        decreases order@.len() - p,
    {
        let b = order[p];
        proof {
            assert(order@.subrange(0, p + 1).drop_last() =~= order@.subrange(0, p as int));
            reveal(Seq::filter);
        }
        if keys[b] == group {
            out.push(b);
        }
        p += 1;
    }
    assert(order@.subrange(0, order@.len() as int) =~= order@);
    out
}

/// The default group key of a table: the target of its first `(rel, _)`
/// pair, 0 when it has none.
pub open spec fn default_group_key(archetype: Seq<Id>, rel: u64) -> u64
    decreases archetype.len(),
{
    if archetype.len() == 0 {
        0
    } else {
        match archetype[0] {
            Id::Pair(r, t) => if r == rel {
                t
            } else {
                default_group_key(archetype.drop_first(), rel)
            },
            Id::Entity(_) => default_group_key(archetype.drop_first(), rel),
        }
    }
}

/// Computes the default group key of a table.
pub fn group_by_default(archetype: &Vec<Id>, rel: u64) -> (r: u64)
    ensures
        r == default_group_key(archetype@, rel),
{
    let mut i: usize = 0;
    assert(archetype@.subrange(0, archetype@.len() as int) =~= archetype@);
    while i < archetype.len()
        invariant
            i <= archetype@.len(),
            default_group_key(archetype@.subrange(i as int, archetype@.len() as int), rel)
                == default_group_key(archetype@, rel),
        decreases archetype@.len() - i,
    {
        let ghost rest = archetype@.subrange(i as int, archetype@.len() as int);
        proof {
            assert(rest.drop_first() =~= archetype@.subrange(i + 1, archetype@.len() as int));
        }
        match archetype[i] {
            Id::Pair(r, t) => {
                if r == rel {
                    return t;
                }
            },
            Id::Entity(_) => {},
        }
        i += 1;
    }
    proof {
        assert(archetype@.subrange(i as int, archetype@.len() as int).len() == 0);
    }
    0
}

/// Live groups of a query and how many batches each holds; a group's
/// context is created when its first batch arrives and dropped with its last.
pub struct GroupRegistry {
    pub ids: Vec<u64>,
    pub counts: Vec<u64>,
}

/// A lifecycle event of a group.
#[derive(Clone, Copy, Debug, PartialEq, Eq, Structural)]
pub enum GroupEvent {
    Unchanged,
    Created(u64),
    Deleted(u64),
}

/// In a sequence without duplicates, an element's index is where it sits.
pub proof fn lemma_index_of_unique(s: Seq<u64>, k: int)
    requires
        s.no_duplicates(),
        0 <= k < s.len(),
    ensures
        s.index_of(s[k]) == k,
{
    assert(s.contains(s[k]));
    let i = s.index_of(s[k]);
    assert(s[i] == s[k]);
}

impl GroupRegistry {
    pub open spec fn wf(&self) -> bool {
        &&& self.ids@.len() == self.counts@.len()
        &&& self.ids@.no_duplicates()
        &&& forall|i: int| 0 <= i < self.counts@.len() ==> #[trigger] self.counts@[i] > 0
    }

    /// Number of batches of each live group.
    pub open spec fn view_map(&self) -> Map<u64, nat> {
        Map::new(
            |g: u64| self.ids@.contains(g),
            |g: u64| self.counts@[self.ids@.index_of(g)] as nat,
        )
    }

    pub fn new() -> (r: GroupRegistry)
        ensures
            r.wf(),
            r.view_map() == Map::<u64, nat>::empty(),
    {
        let r = GroupRegistry { ids: Vec::new(), counts: Vec::new() };
        assert(r.view_map() =~= Map::<u64, nat>::empty());
        r
    }

    fn find(&self, g: u64) -> (r: Option<usize>)
        requires
            self.wf(),
        ensures
            r matches Some(k) ==> k < self.ids@.len() && self.ids@[k as int] == g
                && self.ids@.index_of(g) == k,
            r is None ==> !self.ids@.contains(g),
    {
        let mut i: usize = 0;
        while i < self.ids.len()
            invariant
                self.ids@.no_duplicates(),
                i <= self.ids@.len(),
                forall|j: int| 0 <= j < i ==> self.ids@[j] != g,
            decreases self.ids@.len() - i,
        {
            if self.ids[i] == g {
                proof {
                    lemma_index_of_unique(self.ids@, i as int);
                }
                return Some(i);
            }
            i += 1;
        }
        None
    }

    /// Number of batches of group `g`, 0 when it is not live.
    pub fn count(&self, g: u64) -> (r: u64)
        requires
            self.wf(),
        ensures
            self.view_map().contains_key(g) ==> r == self.view_map()[g],
            !self.view_map().contains_key(g) ==> r == 0,
    {
        match self.find(g) {
            Some(k) => self.counts[k],
            None => 0,
        }
    }

    /// A batch of group `g` starts matching; the group is created on its first batch.
    pub fn batch_added(&mut self, g: u64) -> (r: GroupEvent)
        requires
            old(self).wf(),
            old(self).view_map().contains_key(g) ==> old(self).view_map()[g] < u64::MAX,
        ensures
            final(self).wf(),
            old(self).view_map().contains_key(g) ==> r == GroupEvent::Unchanged && final(self).view_map()
                == old(self).view_map().insert(g, old(self).view_map()[g] + 1),
            !old(self).view_map().contains_key(g) ==> r == GroupEvent::Created(g)
                && final(self).view_map() == old(self).view_map().insert(g, 1),
    {
        match self.find(g) {
            Some(k) => {
                let c = self.counts[k];
                self.counts.set(k, c + 1);
                proof {
                    assert(final(self).view_map() =~= old(self).view_map().insert(g, old(self).view_map()[g] + 1)) by {
                        assert forall|x: u64| self.ids@.contains(x) implies self.ids@.index_of(x) == old(self).ids@.index_of(x) by {
                            let i = self.ids@.index_of(x);
                            lemma_index_of_unique(self.ids@, i);
                        }
                    }
                }
                GroupEvent::Unchanged
            },
            None => {
                let ghost prev_ids = self.ids@;
                self.ids.push(g);
                self.counts.push(1);
                proof {
                    assert(self.ids@.no_duplicates()) by {
                        assert forall|a: int, b: int| 0 <= a < b < self.ids@.len() implies self.ids@[a] != self.ids@[b] by {
                            if b == prev_ids.len() {
                                assert(prev_ids.contains(self.ids@[a]));
                            }
                        }
                    }
                    assert forall|x: u64| prev_ids.contains(x) implies self.ids@.index_of(x) == prev_ids.index_of(x) by {
                        let i = prev_ids.index_of(x);
                        lemma_index_of_unique(prev_ids, i);
                        assert(self.ids@[i] == x);
                        lemma_index_of_unique(self.ids@, i);
                    }
                    lemma_index_of_unique(self.ids@, prev_ids.len() as int);
                    assert forall|x: u64| #[trigger] self.ids@.contains(x) <==> (prev_ids.contains(x) || x == g) by {
                        if x == g {
                            assert(self.ids@[prev_ids.len() as int] == g);
                        } else if self.ids@.contains(x) {
                            let i = choose|i: int| 0 <= i < self.ids@.len() && self.ids@[i] == x;
                            assert(i < prev_ids.len());
                            assert(prev_ids[i] == x);
                        } else if prev_ids.contains(x) {
                            let i = choose|i: int| 0 <= i < prev_ids.len() && prev_ids[i] == x;
                            assert(self.ids@[i] == x);
                        }
                    }
                    assert forall|x: u64| prev_ids.contains(x) implies #[trigger] self.view_map()[x] == old(self).view_map()[x] by {
                        let i = prev_ids.index_of(x);
                        lemma_index_of_unique(prev_ids, i);
                    }
                    assert(self.view_map() =~= old(self).view_map().insert(g, 1));
                }
                GroupEvent::Created(g)
            },
        }
    }

    /// A batch of group `g` stops matching; the group is deleted with its last batch.
    pub fn batch_removed(&mut self, g: u64) -> (r: GroupEvent)
        requires
            old(self).wf(),
        ensures
            final(self).wf(),
            !old(self).view_map().contains_key(g) ==> r == GroupEvent::Unchanged && final(self).view_map()
                == old(self).view_map(),
            old(self).view_map().contains_key(g) && old(self).view_map()[g] > 1 ==> r
                == GroupEvent::Unchanged && final(self).view_map() == old(self).view_map().insert(
                g,
                (old(self).view_map()[g] - 1) as nat,
            ),
            old(self).view_map().contains_key(g) && old(self).view_map()[g] == 1 ==> r
                == GroupEvent::Deleted(g) && final(self).view_map() == old(self).view_map().remove(g),
    {
        match self.find(g) {
            Some(k) => {
                let c = self.counts[k];
                if c > 1 {
                    self.counts.set(k, c - 1);
                    proof {
                        assert(self.view_map() =~= old(self).view_map().insert(g, (old(self).view_map()[g] - 1) as nat));
                    }
                    GroupEvent::Unchanged
                } else {
                    let ghost prev_ids = self.ids@;
                    let ghost prev_counts = self.counts@;
                    self.ids.remove(k);
                    self.counts.remove(k);
                    proof {
                        assert forall|i: int, j: int| 0 <= i < j < self.ids@.len() implies self.ids@[i] != self.ids@[j] by {
                            let oi = if i < k { i } else { i + 1 };
                            let oj = if j < k { j } else { j + 1 };
                            assert(self.ids@[i] == prev_ids[oi] && self.ids@[j] == prev_ids[oj]);
                        }
                        assert forall|x: u64| self.ids@.contains(x) implies prev_ids.contains(x) && x != g
                            && self.counts@[self.ids@.index_of(x)] == prev_counts[prev_ids.index_of(x)] by {
                            let i = self.ids@.index_of(x);
                            lemma_index_of_unique(self.ids@, i);
                            let oi = if i < k { i } else { i + 1 };
                            assert(prev_ids[oi] == x);
                            lemma_index_of_unique(prev_ids, oi);
                        }
                        assert forall|x: u64| prev_ids.contains(x) && x != g implies self.ids@.contains(x) by {
                            let oi = prev_ids.index_of(x);
                            lemma_index_of_unique(prev_ids, oi);
                            assert(oi != k);
                            let i = if oi < k { oi } else { oi - 1 };
                            assert(self.ids@[i] == x);
                        }
                        assert(self.view_map() =~= old(self).view_map().remove(g));
                    }
                    GroupEvent::Deleted(g)
                }
            },
            None => {
                assert(self.view_map() =~= old(self).view_map());
                GroupEvent::Unchanged
            },
        }
    }
}

} // verus!
