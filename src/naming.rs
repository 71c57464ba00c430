use vstd::prelude::*;
use crate::ids::{INDEX_SPAN, Id, compose_id, entity_index, index_of};
use crate::text::{chars_eq, chars_of, extend_chars, string_of};
use crate::world::{World, WorldError};

verus! {

/// Segments of a `::`-separated path; a leading `::` gives an empty first segment.
pub open spec fn split_path(s: Seq<char>) -> Seq<Seq<char>>
    decreases s.len(),
{
    if s.len() < 2 {
        seq![s]
    } else if s[0] == ':' && s[1] == ':' {
        seq![Seq::<char>::empty()] + split_path(s.subrange(2, s.len() as int))
    } else {
        let r = split_path(s.drop_first());
        r.update(0, seq![s[0]] + r[0])
    }
}

pub proof fn lemma_split_nonempty(s: Seq<char>)
    ensures
        split_path(s).len() >= 1,
    decreases s.len(),
{
    if s.len() >= 2 {
        if s[0] == ':' && s[1] == ':' {
            lemma_split_nonempty(s.subrange(2, s.len() as int));
        } else {
            lemma_split_nonempty(s.drop_first());
        }
    }
}

/// Splits `s[start..]` into path segments.
pub fn split_segments(s: &Vec<char>, start: usize) -> (r: Vec<Vec<char>>)
    requires
        start <= s@.len(),
    ensures
        r@.map_values(|v: Vec<char>| v@) == split_path(s@.subrange(start as int, s@.len() as int)),
        r@.len() >= 1,
    decreases s@.len() - start,
{
    let ghost rest = s@.subrange(start as int, s@.len() as int);
    proof {
        lemma_split_nonempty(rest);
    }
    if s.len() - start < 2 {
        let mut seg: Vec<char> = Vec::new();
        let mut i: usize = start;
        while i < s.len()
            invariant
                start <= i <= s@.len(),
                seg@ == s@.subrange(start as int, i as int),
            decreases s@.len() - i,
        {
            seg.push(s[i]);
            proof {
                assert(s@.subrange(start as int, i + 1) =~= s@.subrange(start as int, i as int).push(s@[i as int]));
            }
            i += 1;
        }
        let r = vec![seg];
        assert(r@.map_values(|v: Vec<char>| v@) =~= seq![rest]);
        r
    } else if s[start] == ':' && s[start + 1] == ':' {
        let mut r = split_segments(s, start + 2);
        let ghost t = r@;
        r.insert(0, Vec::new());
        proof {
            assert(rest.subrange(2, rest.len() as int) =~= s@.subrange(start + 2, s@.len() as int));
            let lhs = r@.map_values(|v: Vec<char>| v@);
            let rhs = seq![Seq::<char>::empty()] + t.map_values(|v: Vec<char>| v@);
            assert(lhs.len() == rhs.len());
            assert forall|j: int| 0 <= j < lhs.len() implies lhs[j] == rhs[j] by {
                if j > 0 {
                    assert(r@[j] == t[j - 1]);
                }
            }
            assert(lhs =~= rhs);
        }
        r
    } else {
        let mut r = split_segments(s, start + 1);
        let ghost t = r@;
        let first = r.remove(0);
        let mut seg: Vec<char> = vec![s[start]];
        extend_chars(&mut seg, &first);
        r.insert(0, seg);
        proof {
            assert(rest.drop_first() =~= s@.subrange(start + 1, s@.len() as int));
            let lhs = r@.map_values(|v: Vec<char>| v@);
            let rhs = t.map_values(|v: Vec<char>| v@).update(0, seq![s@[start as int]] + t[0]@);
            assert(lhs.len() == rhs.len());
            assert forall|j: int| 0 <= j < lhs.len() implies lhs[j] == rhs[j] by {
                if j > 0 {
                    assert(r@[j] == t[j]);
                } else {
                    assert(seg@ == seq![s@[start as int]] + first@);
                }
            }
            assert(lhs =~= rhs);
        }
        r
    }
}

/// Names along a chain of entities, joined by `sep`.
pub open spec fn join_with(names: Seq<Seq<char>>, sep: Seq<char>) -> Seq<char>
    decreases names.len(),
{
    if names.len() == 0 {
        Seq::empty()
    } else if names.len() == 1 {
        names[0]
    } else {
        join_with(names.drop_last(), sep) + sep + names.last()
    }
}

/// Whether slot `s` holds a live child of `parent` named `name`.
pub open spec fn named_child_at(
    alive: Seq<bool>,
    parents: Seq<u64>,
    names: Seq<Option<Vec<char>>>,
    s: int,
    parent: u64,
    name: Seq<char>,
) -> bool {
    &&& 0 < s < alive.len()
    &&& alive[s]
    &&& parents[s] == parent
    &&& names[s] matches Some(n) && n@ == name
}

/// The child of `parent` named `name` in the lowest slot, if any.
pub open spec fn named_child_in(
    alive: Seq<bool>,
    parents: Seq<u64>,
    names: Seq<Option<Vec<char>>>,
    gens: Seq<u64>,
    parent: u64,
    name: Seq<char>,
) -> Option<u64> {
    if exists|s: int| named_child_at(alive, parents, names, s, parent, name) {
        let s = choose|s: int|
            named_child_at(alive, parents, names, s, parent, name) && forall|t: int|
                0 <= t < s ==> !named_child_at(alive, parents, names, t, parent, name);
        Some((gens[s] * INDEX_SPAN + s) as u64)
    } else {
        None
    }
}

/// The entity a path names from `parent`, following each segment to the
/// child of that name.
pub open spec fn resolve_in(
    alive: Seq<bool>,
    parents: Seq<u64>,
    names: Seq<Option<Vec<char>>>,
    gens: Seq<u64>,
    parent: u64,
    segs: Seq<Seq<char>>,
) -> Option<u64>
    decreases segs.len(),
{
    if segs.len() == 0 {
        Some(parent)
    } else {
        match named_child_in(alive, parents, names, gens, parent, segs[0]) {
            Some(c) => resolve_in(alive, parents, names, gens, c, segs.drop_first()),
            None => None,
        }
    }
}

/// A child of `parent` named `name` somewhere means there is one in a lowest slot.
pub proof fn lemma_named_child_min(
    alive: Seq<bool>,
    parents: Seq<u64>,
    names: Seq<Option<Vec<char>>>,
    w: int,
    parent: u64,
    name: Seq<char>,
)
    requires
        named_child_at(alive, parents, names, w, parent, name),
    ensures
        exists|s: int|
            named_child_at(alive, parents, names, s, parent, name) && forall|t: int|
                0 <= t < s ==> !named_child_at(alive, parents, names, t, parent, name),
    decreases w,
{
    if exists|t: int| 0 <= t < w && named_child_at(alive, parents, names, t, parent, name) {
        let t = choose|t: int| 0 <= t < w && named_child_at(alive, parents, names, t, parent, name);
        lemma_named_child_min(alive, parents, names, t, parent, name);
    } else {
        assert(named_child_at(alive, parents, names, w, parent, name) && forall|t: int|
            0 <= t < w ==> !named_child_at(alive, parents, names, t, parent, name));
    }
}

/// The second slot tables are the first with free slot `s` taken by a live
/// entity named `nn` under `pp`.
pub open spec fn fresh_seqs(
    a: Seq<bool>,
    p: Seq<u64>,
    n: Seq<Option<Vec<char>>>,
    g: Seq<u64>,
    a2: Seq<bool>,
    p2: Seq<u64>,
    n2: Seq<Option<Vec<char>>>,
    g2: Seq<u64>,
    s: int,
    pp: u64,
    nn: Seq<char>,
) -> bool {
    &&& 0 < s <= a.len()
    &&& s < a.len() ==> !a[s]
    &&& s == a.len() ==> a2.len() == a.len() + 1
    &&& s < a.len() ==> a2.len() == a.len()
    &&& p.len() == a.len() && n.len() == a.len() && g.len() == a.len()
    &&& p2.len() == a2.len() && n2.len() == a2.len() && g2.len() == a2.len()
    &&& forall|t: int|
        0 <= t < a.len() && t != s ==> #[trigger] a2[t] == a[t] && p2[t] == p[t] && n2[t] == n[t] && g2[t]
            == g[t]
    &&& a2[s]
    &&& p2[s] == pp
    &&& n2[s] matches Some(v) && v@ == nn
}

/// Taking a free slot `s` for an entity named `nn` under `pp`, where no
/// such child existed, keeps every existing child lookup and makes the new
/// entity the child of `pp` named `nn`.
pub proof fn lemma_named_child_fresh(
    a: Seq<bool>,
    p: Seq<u64>,
    n: Seq<Option<Vec<char>>>,
    g: Seq<u64>,
    a2: Seq<bool>,
    p2: Seq<u64>,
    n2: Seq<Option<Vec<char>>>,
    g2: Seq<u64>,
    s: int,
    pp: u64,
    nn: Seq<char>,
    pq: u64,
    nq: Seq<char>,
)
    requires
        fresh_seqs(a, p, n, g, a2, p2, n2, g2, s, pp, nn),
        named_child_in(a, p, n, g, pp, nn) is None,
    ensures
        named_child_in(a, p, n, g, pq, nq) is Some ==> named_child_in(a2, p2, n2, g2, pq, nq)
            == named_child_in(a, p, n, g, pq, nq),
        named_child_in(a2, p2, n2, g2, pp, nn) == Some((g2[s] * INDEX_SPAN + s) as u64),
{
    assert forall|t: int| 0 <= t < s implies named_child_at(a2, p2, n2, t, pp, nn) == named_child_at(
        a,
        p,
        n,
        t,
        pp,
        nn,
    ) by {}
    assert forall|t: int| 0 <= t < s implies !named_child_at(a2, p2, n2, t, pp, nn) by {
        if named_child_at(a, p, n, t, pp, nn) {
            assert(exists|u: int| named_child_at(a, p, n, u, pp, nn));
            lemma_named_child_min(a, p, n, t, pp, nn);
        }
    }
    assert(named_child_at(a2, p2, n2, s, pp, nn) && forall|t: int| 0 <= t < s ==> !named_child_at(a2, p2, n2, t, pp, nn));
    let c2 = choose|c: int|
        named_child_at(a2, p2, n2, c, pp, nn) && forall|t: int| 0 <= t < c ==> !named_child_at(a2, p2, n2, t, pp, nn);
    if c2 < s {
    } else if c2 > s {
    }
    if named_child_in(a, p, n, g, pq, nq) is Some {
        let w = choose|w: int| named_child_at(a, p, n, w, pq, nq);
        lemma_named_child_min(a, p, n, w, pq, nq);
        assert forall|t: int| named_child_at(a2, p2, n2, t, pq, nq) == named_child_at(a, p, n, t, pq, nq) by {
            if t == s {
                if named_child_at(a2, p2, n2, t, pq, nq) {
                    assert(pq == pp && nq == nn);
                    lemma_named_child_min(a, p, n, w, pp, nn);
                }
                assert(!named_child_at(a, p, n, t, pq, nq));
            } else if 0 <= t < a.len() {
                assert(a2[t] == a[t] && p2[t] == p[t] && n2[t] == n[t]);
            } else {
                assert(!named_child_at(a, p, n, t, pq, nq));
                assert(!named_child_at(a2, p2, n2, t, pq, nq));
            }
        }
        let c = choose|c: int|
            named_child_at(a, p, n, c, pq, nq) && forall|t: int| 0 <= t < c ==> !named_child_at(a, p, n, t, pq, nq);
        assert(named_child_at(a2, p2, n2, c, pq, nq));
        let d = choose|c: int|
            named_child_at(a2, p2, n2, c, pq, nq) && forall|t: int| 0 <= t < c ==> !named_child_at(a2, p2, n2, t, pq, nq);
        if d < c {
        } else if d > c {
        }
        assert(c != s);
    }
}

/// Resolution that succeeds is kept when a fresh slot is taken as above.
pub proof fn lemma_resolve_fresh(
    a: Seq<bool>,
    p: Seq<u64>,
    n: Seq<Option<Vec<char>>>,
    g: Seq<u64>,
    a2: Seq<bool>,
    p2: Seq<u64>,
    n2: Seq<Option<Vec<char>>>,
    g2: Seq<u64>,
    s: int,
    pp: u64,
    nn: Seq<char>,
    from: u64,
    segs: Seq<Seq<char>>,
)
    requires
        fresh_seqs(a, p, n, g, a2, p2, n2, g2, s, pp, nn),
        named_child_in(a, p, n, g, pp, nn) is None,
        resolve_in(a, p, n, g, from, segs) is Some,
    ensures
        resolve_in(a2, p2, n2, g2, from, segs) == resolve_in(a, p, n, g, from, segs),
    decreases segs.len(),
{
    if segs.len() > 0 {
        lemma_named_child_fresh(a, p, n, g, a2, p2, n2, g2, s, pp, nn, from, segs[0]);
        let c = named_child_in(a, p, n, g, from, segs[0])->0;
        lemma_resolve_fresh(a, p, n, g, a2, p2, n2, g2, s, pp, nn, c, segs.drop_first());
    }
}

/// Resolving one more segment looks it up under what the rest resolved to.
pub proof fn lemma_resolve_push(
    a: Seq<bool>,
    p: Seq<u64>,
    n: Seq<Option<Vec<char>>>,
    g: Seq<u64>,
    from: u64,
    segs: Seq<Seq<char>>,
    x: Seq<char>,
)
    ensures
        resolve_in(a, p, n, g, from, segs.push(x)) == (match resolve_in(a, p, n, g, from, segs) {
            Some(c) => named_child_in(a, p, n, g, c, x),
            None => None,
        }),
    decreases segs.len(),
{
    let sp = segs.push(x);
    if segs.len() == 0 {
        assert(sp.drop_first() =~= Seq::<Seq<char>>::empty());
        match named_child_in(a, p, n, g, from, x) {
            Some(c) => {
                assert(resolve_in(a, p, n, g, c, sp.drop_first()) == Some(c));
            },
            None => {},
        }
    } else {
        assert(sp[0] == segs[0]);
        assert(sp.drop_first() =~= segs.drop_first().push(x));
        match named_child_in(a, p, n, g, from, segs[0]) {
            Some(c) => {
                lemma_resolve_push(a, p, n, g, c, segs.drop_first(), x);
            },
            None => {},
        }
    }
}

impl<V: Copy> World<V> {
    /// The name of `e`, empty when it has none.
    pub open spec fn name_of(&self, e: u64) -> Seq<char> {
        match self.names@[index_of(e) as int] {
            Some(n) => n@,
            None => Seq::empty(),
        }
    }

    pub open spec fn parent_of(&self, e: u64) -> u64 {
        self.parents@[index_of(e) as int]
    }

    /// The entities from just below `stop` down to `e`, top first.
    pub open spec fn chain(&self, e: u64, stop: u64, fuel: nat) -> Seq<u64>
        decreases fuel,
    {
        if fuel == 0 || e == 0 || e == stop || !self.spec_alive(e) {
            Seq::empty()
        } else {
            self.chain(self.parent_of(e), stop, (fuel - 1) as nat).push(e)
        }
    }

    pub open spec fn chain_names(&self, c: Seq<u64>) -> Seq<Seq<char>> {
        c.map_values(|x: u64| self.name_of(x))
    }

    /// Path of `e` below `stop`, `sep`-separated; prefixed when it starts at the root.
    pub open spec fn spec_path(&self, e: u64, stop: u64, sep: Seq<char>, prefix: Seq<char>) -> Seq<
        char,
    > {
        (if stop == 0 {
            prefix
        } else {
            Seq::empty()
        }) + join_with(self.chain_names(self.chain(e, stop, self.alive@.len())), sep)
    }

    /// The entities from just below `stop` down to `e`.
    pub fn chain_to(&self, e: u64, stop: u64) -> (r: Vec<u64>)
        requires
            self.wf(),
        ensures
            r@ == self.chain(e, stop, self.alive@.len()),
            forall|k: int| 0 <= k < r@.len() ==> self.spec_alive(#[trigger] r@[k]),
    {
        let mut up: Vec<u64> = Vec::new();
        let mut cur = e;
        let mut fuel: usize = self.alive.len();
        while fuel > 0 && cur != 0 && cur != stop && self.is_alive(cur)
            invariant
                self.wf(),
                fuel <= self.alive@.len(),
                self.chain(e, stop, self.alive@.len() as nat) == self.chain(cur, stop, fuel as nat)
                    + up@.reverse(),
                forall|k: int| 0 <= k < up@.len() ==> self.spec_alive(#[trigger] up@[k]),
            decreases fuel,
        {
            proof {
                assert(self.chain(cur, stop, fuel as nat) == self.chain(
                    self.parent_of(cur),
                    stop,
                    (fuel - 1) as nat,
                ).push(cur));
                assert(up@.push(cur).reverse() =~= seq![cur] + up@.reverse());
            }
            up.push(cur);
            cur = self.parents[entity_index(cur) as usize];
            fuel -= 1;
        }
        proof {
            assert(self.chain(cur, stop, fuel as nat) == Seq::<u64>::empty());
        }
        let mut out: Vec<u64> = Vec::new();
        let ghost u = up@;
        let n = up.len();
        let mut k: usize = n;
        while k > 0
            invariant
                n == u.len(),
                up@ == u,
                k <= n,
                out@.len() == n - k,
                forall|j: int| 0 <= j < out@.len() ==> #[trigger] out@[j] == u[n - 1 - j],
            decreases k,
        {
            k -= 1;
            out.push(up[k]);
        }
        proof {
            assert(out@ =~= u.reverse());
            assert forall|j: int| 0 <= j < out@.len() implies self.spec_alive(#[trigger] out@[j]) by {
                assert(out@[j] == u[n - 1 - j]);
            }
        }
        out
    }

    /// Copies the name of `e` onto the end of `out`.
    fn append_name(&self, e: u64, out: &mut Vec<char>)
        requires
            self.wf(),
            self.spec_alive(e),
        ensures
            final(out)@ == old(out)@ + self.name_of(e),
    {
        match &self.names[entity_index(e) as usize] {
            Some(n) => extend_chars(out, n),
            None => {
                assert(old(out)@ + Seq::<char>::empty() =~= old(out)@);
            },
        }
    }

    /// The path of `e` below `stop`.
    pub fn path_chars(&self, e: u64, stop: u64, sep: &Vec<char>, prefix: &Vec<char>) -> (r: Vec<
        char,
    >)
        requires
            self.wf(),
        ensures
            r@ == self.spec_path(e, stop, sep@, prefix@),
    {
        let c = self.chain_to(e, stop);
        let mut out: Vec<char> = Vec::new();
        if stop == 0 {
            extend_chars(&mut out, prefix);
        }
        let ghost head = out@;
        let mut i: usize = 0;
        while i < c.len()
            invariant
                self.wf(),
                i <= c@.len(),
                forall|k: int| 0 <= k < c@.len() ==> self.spec_alive(#[trigger] c@[k]),
                out@ == head + join_with(self.chain_names(c@.subrange(0, i as int)), sep@),
            decreases c@.len() - i,
        {
            let ghost prev = out@;
            if i > 0 {
                extend_chars(&mut out, sep);
            }
            self.append_name(c[i], &mut out);
            proof {
                let names = self.chain_names(c@.subrange(0, i + 1));
                assert(names.drop_last() =~= self.chain_names(c@.subrange(0, i as int)));
                assert(names.last() == self.name_of(c@[i as int]));
                if i == 0 {
                    assert(names.len() == 1);
                    assert(out@ =~= head + join_with(names, sep@));
                } else {
                    assert(out@ =~= head + join_with(names, sep@));
                }
            }
            i += 1;
        }
        proof {
            assert(c@.subrange(0, c@.len() as int) =~= c@);
            if stop != 0 {
                assert(head =~= Seq::<char>::empty());
            }
        }
        out
    }

    /// Full path of `e` with `sep` between names and `prefix` in front.
    pub fn path_w_sep(&self, e: u64, sep: &str, prefix: &str) -> (r: String)
        requires
            self.wf(),
        ensures
            r@ == self.spec_path(e, 0, sep@, prefix@),
    {
        let s = chars_of(sep);
        let p = chars_of(prefix);
        string_of(&self.path_chars(e, 0, &s, &p))
    }

    /// Full path of `e`, `::`-separated from the root.
    pub fn path(&self, e: u64) -> (r: String)
        requires
            self.wf(),
        ensures
            r@ == self.spec_path(e, 0, seq![':', ':'], seq![':', ':']),
    {
        let s = vec![':', ':'];
        string_of(&self.path_chars(e, 0, &s, &s))
    }

    /// Path of `e` relative to `parent`, `::`-separated.
    pub fn path_from(&self, e: u64, parent: u64) -> (r: String)
        requires
            self.wf(),
        ensures
            r@ == self.spec_path(e, parent, seq![':', ':'], seq![':', ':']),
    {
        let s = vec![':', ':'];
        string_of(&self.path_chars(e, parent, &s, &s))
    }

    /// Path of `e` relative to `parent` with a custom separator; the prefix
    /// applies only when `parent` is the root.
    pub fn path_from_w_sep(&self, e: u64, parent: u64, sep: &str, prefix: &str) -> (r: String)
        requires
            self.wf(),
        ensures
            r@ == self.spec_path(e, parent, sep@, prefix@),
    {
        let s = chars_of(sep);
        let p = chars_of(prefix);
        string_of(&self.path_chars(e, parent, &s, &p))
    }

    /// The name of `e`, empty when it has none or is not alive.
    pub fn name(&self, e: u64) -> (r: String)
        requires
            self.wf(),
        ensures
            self.spec_alive(e) ==> r@ == self.name_of(e),
            !self.spec_alive(e) ==> r@ == Seq::<char>::empty(),
    {
        let mut out: Vec<char> = Vec::new();
        if self.is_alive(e) {
            self.append_name(e, &mut out);
            assert(out@ =~= self.name_of(e));
        }
        string_of(&out)
    }

    /// The name of `e`, if it has one.
    pub fn get_name(&self, e: u64) -> (r: Option<String>)
        requires
            self.wf(),
        ensures
            (self.spec_alive(e) && self.names@[index_of(e) as int] is Some) ==> (r matches Some(s)
                && s@ == self.name_of(e)),
            !(self.spec_alive(e) && self.names@[index_of(e) as int] is Some) ==> r is None,
    {
        if self.is_alive(e) {
            match &self.names[entity_index(e) as usize] {
                Some(n) => Some(string_of(n)),
                None => None,
            }
        } else {
            None
        }
    }

    /// Names `e`.
    pub fn set_name(&mut self, e: u64, name: &str) -> (r: Result<(), WorldError>)
        requires
            old(self).wf(),
        ensures
            final(self).wf(),
            r is Ok <==> old(self).spec_alive(e),
            r is Ok ==> final(self).names@ == old(self).names@.update(
                index_of(e) as int,
                Some(final(self).names@[index_of(e) as int]->0),
            ) && final(self).name_of(e) == name@,
            r is Err ==> final(self).names@ == old(self).names@,
            final(self).entries@ == old(self).entries@,
            final(self).alive@ == old(self).alive@,
            final(self).gens@ == old(self).gens@,
            final(self).parents@ == old(self).parents@,
            final(self).queue@ == old(self).queue@,
            final(self).defer == old(self).defer,
            final(self).scope == old(self).scope,
            final(self).with_id == old(self).with_id,
    {
        if !self.is_alive(e) {
            return Err(WorldError::NotAlive(e));
        }
        let cs = chars_of(name);
        self.names.set(entity_index(e) as usize, Some(cs));
        Ok(())
    }

    /// Makes `e` a child of `parent`.
    pub fn child_of(&mut self, e: u64, parent: u64) -> (r: Result<(), WorldError>)
        requires
            old(self).wf(),
        ensures
            final(self).wf(),
            r is Ok <==> old(self).spec_alive(e),
            r is Ok ==> final(self).parents@ == old(self).parents@.update(index_of(e) as int, parent),
            r is Err ==> final(self).parents@ == old(self).parents@,
            final(self).entries@ == old(self).entries@,
            final(self).alive@ == old(self).alive@,
            final(self).gens@ == old(self).gens@,
            final(self).names@ == old(self).names@,
            final(self).queue@ == old(self).queue@,
            final(self).defer == old(self).defer,
            final(self).scope == old(self).scope,
            final(self).with_id == old(self).with_id,
    {
        if !self.is_alive(e) {
            return Err(WorldError::NotAlive(e));
        }
        self.parents.set(entity_index(e) as usize, parent);
        Ok(())
    }

    /// The parent of `e`, 0 at the root.
    pub fn parent(&self, e: u64) -> (r: u64)
        requires
            self.wf(),
        ensures
            self.spec_alive(e) ==> r == self.parent_of(e),
            !self.spec_alive(e) ==> r == 0,
    {
        if self.is_alive(e) {
            self.parents[entity_index(e) as usize]
        } else {
            0
        }
    }

    /// Sets the parent of entities created from now on; returns the previous one.
    pub fn set_scope(&mut self, scope: u64) -> (r: u64)
        ensures
            r == old(self).scope,
            final(self).scope == scope,
            final(self).entries@ == old(self).entries@,
            final(self).alive@ == old(self).alive@,
            final(self).gens@ == old(self).gens@,
            final(self).names@ == old(self).names@,
            final(self).parents@ == old(self).parents@,
            final(self).aliases@ == old(self).aliases@,
            final(self).queue@ == old(self).queue@,
            final(self).defer == old(self).defer,
            final(self).readonly == old(self).readonly,
            final(self).with_id == old(self).with_id,
    {
        let prev = self.scope;
        self.scope = scope;
        prev
    }

    /// Sets the id added to entities created from now on; returns the previous one.
    pub fn set_with(&mut self, id: Option<Id>) -> (r: Option<Id>)
        ensures
            r == old(self).with_id,
            final(self).with_id == id,
            final(self).scope == old(self).scope,
            final(self).entries@ == old(self).entries@,
            final(self).alive@ == old(self).alive@,
            final(self).gens@ == old(self).gens@,
            final(self).names@ == old(self).names@,
            final(self).parents@ == old(self).parents@,
            final(self).aliases@ == old(self).aliases@,
            final(self).queue@ == old(self).queue@,
            final(self).defer == old(self).defer,
            final(self).readonly == old(self).readonly,
    {
        let prev = self.with_id;
        self.with_id = id;
        prev
    }

    /// The child of `parent` named `name` in the lowest slot, if any.
    pub open spec fn named_child(&self, parent: u64, name: Seq<char>) -> Option<u64> {
        named_child_in(self.alive@, self.parents@, self.names@, self.gens@, parent, name)
    }

    /// Finds the child of `parent` named `name`.
    pub fn find_child(&self, parent: u64, name: &Vec<char>) -> (r: Option<u64>)
        requires
            self.wf(),
        ensures
            r == self.named_child(parent, name@),
            r matches Some(e) ==> (self.spec_alive(e) && self.name_of(e) == name@ && self.parent_of(e)
                == parent),
    {
        let mut s: usize = 1;
        while s < self.alive.len()
            invariant
                self.wf(),
                1 <= s <= self.alive@.len(),
                forall|t: int| 0 <= t < s ==> !named_child_at(self.alive@, self.parents@, self.names@, t, parent, name@),
            decreases self.alive@.len() - s,
        {
            if self.alive[s] && self.parents[s] == parent {
                match &self.names[s] {
                    Some(n) => {
                        if chars_eq(n, name) {
                            let e = compose_id(s as u64, self.gens[s]);
                            proof {
                                let c = choose|c: int|
                                    named_child_at(self.alive@, self.parents@, self.names@, c, parent, name@)
                                        && forall|t: int|
                                        0 <= t < c ==> !named_child_at(self.alive@, self.parents@, self.names@, t, parent, name@);
                                assert(named_child_at(self.alive@, self.parents@, self.names@, s as int, parent, name@));
                                if c < s {
                                } else if c > s {
                                }
                                assert(c == s);
                            }
                            return Some(e);
                        }
                    },
                    None => {},
                }
            }
            s += 1;
        }
        proof {
            assert forall|t: int| !named_child_at(self.alive@, self.parents@, self.names@, t, parent, name@) by {
                if 0 <= t < s {
                }
            }
        }
        None
    }
}

} // verus!
