//! A map from text to text, kept in dictionary order of its keys.
use vstd::prelude::*;
use crate::text;
use crate::text::{same_text, text_before};
use crate::text_laws;

verus! {

/// The keys of `p` ascend in dictionary order, so none occurs twice.
pub open spec fn ascending(p: Seq<(Seq<char>, Seq<char>)>) -> bool {
    forall|i: int, j: int| 0 <= i < j < p.len() ==> text::precedes(#[trigger] p[i].0, #[trigger] p[j].0)
}

/// The map that a list of key-value pairs stands for.
pub open spec fn as_map(p: Seq<(Seq<char>, Seq<char>)>) -> Map<Seq<char>, Seq<char>>
    decreases p.len(),
{
    if p.len() == 0 {
        Map::empty()
    } else {
        as_map(p.drop_last()).insert(p.last().0, p.last().1)
    }
}

spec fn pairs_of(v: Seq<(String, String)>) -> Seq<(Seq<char>, Seq<char>)> {
    Seq::new(v.len(), |i: int| (v[i].0@, v[i].1@))
}

/// Key-value pairs in ascending order of their keys.
pub struct TextMap {
    entries: Vec<(String, String)>,
}

impl View for TextMap {
    type V = Seq<(Seq<char>, Seq<char>)>;

    closed spec fn view(&self) -> Seq<(Seq<char>, Seq<char>)> {
        pairs_of(self.entries@)
    }
}

/// What a list of pairs with distinct keys maps to.
pub proof fn lemma_as_map(p: Seq<(Seq<char>, Seq<char>)>)
    requires
        ascending(p),
    ensures
        forall|i: int|
            0 <= i < p.len() ==> as_map(p).contains_key(#[trigger] p[i].0) && as_map(p)[p[i].0]
                == p[i].1,
        forall|k: Seq<char>| #[trigger]
            as_map(p).contains_key(k) ==> exists|i: int| 0 <= i < p.len() && p[i].0 == k,
    decreases p.len(),
{
    if p.len() > 0 {
        let q = p.drop_last();
        assert(ascending(q)) by {
            assert forall|i: int, j: int| 0 <= i < j < q.len() implies text::precedes(
                #[trigger] q[i].0,
                #[trigger] q[j].0,
            ) by {
                assert(text::precedes(p[i].0, p[j].0));
            }
        }
        lemma_as_map(q);
        assert forall|i: int| 0 <= i < p.len() implies as_map(p).contains_key(#[trigger] p[i].0)
            && as_map(p)[p[i].0] == p[i].1 by {
            if i < p.len() - 1 {
                assert(q[i] == p[i]);
                assert(text::precedes(p[i].0, p.last().0));
                text_laws::precedes_irreflexive(p[i].0);
            }
        }
        assert forall|k: Seq<char>| #[trigger] as_map(p).contains_key(k) implies exists|i: int|
            0 <= i < p.len() && p[i].0 == k by {
            if k == p.last().0 {
                assert(p[p.len() - 1].0 == k);
            } else {
                assert(as_map(q).contains_key(k));
                let i = choose|i: int| 0 <= i < q.len() && q[i].0 == k;
                assert(p[i].0 == k);
            }
        }
    }
}

/// A list of pairs in order is determined by the map it stands for.
pub proof fn order_is_unique(p: Seq<(Seq<char>, Seq<char>)>, q: Seq<(Seq<char>, Seq<char>)>)
    requires
        ascending(p),
        ascending(q),
        as_map(p) == as_map(q),
    ensures
        p == q,
    decreases p.len(),
{
    lemma_as_map(p);
    lemma_as_map(q);
    if p.len() == 0 {
        if q.len() > 0 {
            assert(as_map(p).contains_key(q[0].0));
        }
        assert(p =~= q);
    } else {
        assert(as_map(q).contains_key(p.last().0)) by {
            assert(as_map(p).contains_key(p[p.len() - 1].0));
        }
        let i = choose|i: int| 0 <= i < q.len() && q[i].0 == p.last().0;
        assert(as_map(p).contains_key(q.last().0)) by {
            assert(as_map(q).contains_key(q[q.len() - 1].0));
        }
        let j = choose|j: int| 0 <= j < p.len() && p[j].0 == q.last().0;
        if i < q.len() - 1 {
            assert(text::precedes(q[i].0, q[q.len() - 1].0));
            if j < p.len() - 1 {
                assert(text::precedes(p[j].0, p[p.len() - 1].0));
                text_laws::precedes_transitive(p.last().0, q.last().0, p.last().0);
            }
            text_laws::precedes_irreflexive(p.last().0);
        }
        assert(q.last().0 == p.last().0);
        assert(as_map(p)[p[p.len() - 1].0] == p.last().1);
        assert(as_map(q)[q[q.len() - 1].0] == q.last().1);
        let key = p.last().0;
        let a = p.drop_last();
        let b = q.drop_last();
        assert(ascending(a)) by {
            assert forall|i: int, j: int| 0 <= i < j < a.len() implies text::precedes(
                #[trigger] a[i].0,
                #[trigger] a[j].0,
            ) by {
                assert(text::precedes(p[i].0, p[j].0));
            }
        }
        assert(ascending(b)) by {
            assert forall|i: int, j: int| 0 <= i < j < b.len() implies text::precedes(
                #[trigger] b[i].0,
                #[trigger] b[j].0,
            ) by {
                assert(text::precedes(q[i].0, q[j].0));
            }
        }
        lemma_as_map(a);
        lemma_as_map(b);
        assert(!as_map(a).contains_key(key)) by {
            if as_map(a).contains_key(key) {
                let i = choose|i: int| 0 <= i < a.len() && a[i].0 == key;
                assert(text::precedes(p[i].0, p[p.len() - 1].0));
                text_laws::precedes_irreflexive(key);
            }
        }
        assert(!as_map(b).contains_key(key)) by {
            if as_map(b).contains_key(key) {
                let i = choose|i: int| 0 <= i < b.len() && b[i].0 == key;
                assert(text::precedes(q[i].0, q[q.len() - 1].0));
                text_laws::precedes_irreflexive(key);
            }
        }
        assert(as_map(a) =~= as_map(p).remove(key));
        assert(as_map(b) =~= as_map(q).remove(key));
        order_is_unique(a, b);
        assert(p =~= a.push(p.last()));
        assert(q =~= b.push(q.last()));
    }
}

/// The pairs of a map in ascending order of their keys.
pub open spec fn in_order(m: Map<Seq<char>, Seq<char>>) -> Seq<(Seq<char>, Seq<char>)> {
    choose|p: Seq<(Seq<char>, Seq<char>)>| ascending(p) && #[trigger] as_map(p) == m
}

/// A list in order is the ordered list of the map it stands for.
pub proof fn lemma_in_order(p: Seq<(Seq<char>, Seq<char>)>)
    requires
        ascending(p),
    ensures
        in_order(as_map(p)) == p,
{
    order_is_unique(in_order(as_map(p)), p);
}

/// The map has finitely many keys, which can be listed in order.
pub open spec fn orderable(m: Map<Seq<char>, Seq<char>>) -> bool {
    exists|p: Seq<(Seq<char>, Seq<char>)>| ascending(p) && #[trigger] as_map(p) == m
}

pub proof fn empty_is_orderable()
    ensures
        orderable(Map::empty()),
{
    let p = Seq::<(Seq<char>, Seq<char>)>::empty();
    assert(as_map(p) == Map::<Seq<char>, Seq<char>>::empty());
}

/// `p` with `k` set to `v`.
spec fn with_pair(p: Seq<(Seq<char>, Seq<char>)>, k: Seq<char>, v: Seq<char>) -> Seq<
    (Seq<char>, Seq<char>),
>
    decreases p.len(),
{
    if p.len() == 0 {
        seq![(k, v)]
    } else if p.last().0 == k {
        p.drop_last().push((k, v))
    } else if text::precedes(p.last().0, k) {
        p.push((k, v))
    } else {
        with_pair(p.drop_last(), k, v).push(p.last())
    }
}

proof fn lemma_with_pair(p: Seq<(Seq<char>, Seq<char>)>, k: Seq<char>, v: Seq<char>)
    requires
        ascending(p),
    ensures
        ascending(with_pair(p, k, v)),
        as_map(with_pair(p, k, v)) == as_map(p).insert(k, v),
        forall|i: int|
            0 <= i < with_pair(p, k, v).len() ==> (#[trigger] with_pair(p, k, v)[i]).0 == k
                || exists|j: int| 0 <= j < p.len() && p[j].0 == with_pair(p, k, v)[i].0,
    decreases p.len(),
{
    let q = with_pair(p, k, v);
    if p.len() == 0 {
        assert(q.drop_last() =~= p);
    } else {
        let init = p.drop_last();
        let (lk, lv) = p.last();
        assert(ascending(init)) by {
            assert forall|i: int, j: int| 0 <= i < j < init.len() implies text::precedes(
                #[trigger] init[i].0,
                #[trigger] init[j].0,
            ) by {
                assert(text::precedes(p[i].0, p[j].0));
            }
        }
        if lk == k {
            assert(q.drop_last() =~= init);
            assert(as_map(q) =~= as_map(p).insert(k, v));
            assert forall|i: int, j: int| 0 <= i < j < q.len() implies text::precedes(
                #[trigger] q[i].0,
                #[trigger] q[j].0,
            ) by {
                assert(q[i].0 == p[i].0 && q[j].0 == p[j].0);
            }
            assert forall|i: int| 0 <= i < q.len() implies (#[trigger] q[i]).0 == k || exists|
                j: int,
            | 0 <= j < p.len() && p[j].0 == q[i].0 by {
                assert(p[i].0 == q[i].0);
            }
        } else if text::precedes(lk, k) {
            assert(q.drop_last() =~= p);
            assert forall|i: int, j: int| 0 <= i < j < q.len() implies text::precedes(
                #[trigger] q[i].0,
                #[trigger] q[j].0,
            ) by {
                if j == p.len() {
                    if i < p.len() - 1 {
                        assert(text::precedes(p[i].0, p[p.len() - 1].0));
                        text_laws::precedes_transitive(p[i].0, lk, k);
                    }
                } else {
                    assert(text::precedes(p[i].0, p[j].0));
                }
            }
            assert forall|i: int| 0 <= i < q.len() implies (#[trigger] q[i]).0 == k || exists|
                j: int,
            | 0 <= j < p.len() && p[j].0 == q[i].0 by {
                if i < p.len() {
                    assert(p[i].0 == q[i].0);
                }
            }
        } else {
            let r = with_pair(init, k, v);
            lemma_with_pair(init, k, v);
            text_laws::precedes_total(lk, k);
            assert(q.drop_last() =~= r);
            assert(as_map(q) =~= as_map(p).insert(k, v));
            assert forall|i: int, j: int| 0 <= i < j < q.len() implies text::precedes(
                #[trigger] q[i].0,
                #[trigger] q[j].0,
            ) by {
                if j == r.len() {
                    assert(q[i] == r[i]);
                    if r[i].0 != k {
                        let n = choose|n: int| 0 <= n < init.len() && init[n].0 == r[i].0;
                        assert(text::precedes(p[n].0, p[p.len() - 1].0));
                    }
                } else {
                    assert(text::precedes(r[i].0, r[j].0));
                }
            }
            assert forall|i: int| 0 <= i < q.len() implies (#[trigger] q[i]).0 == k || exists|
                j: int,
            | 0 <= j < p.len() && p[j].0 == q[i].0 by {
                if i == r.len() {
                    assert(p[p.len() - 1].0 == q[i].0);
                } else if r[i].0 != k {
                    let n = choose|n: int| 0 <= n < init.len() && init[n].0 == r[i].0;
                    assert(p[n].0 == q[i].0);
                }
            }
        }
    }
}

/// Setting one more key keeps a map listable.
pub proof fn insert_is_orderable(m: Map<Seq<char>, Seq<char>>, k: Seq<char>, v: Seq<char>)
    requires
        orderable(m),
    ensures
        orderable(m.insert(k, v)),
{
    let p = choose|p: Seq<(Seq<char>, Seq<char>)>| ascending(p) && #[trigger] as_map(p) == m;
    lemma_with_pair(p, k, v);
    assert(as_map(with_pair(p, k, v)) == m.insert(k, v));
}

impl TextMap {
    #[verifier::type_invariant]
    spec fn sorted(self) -> bool {
        ascending(pairs_of(self.entries@))
    }

    pub fn new() -> (m: Self)
        ensures
            m@ == Seq::<(Seq<char>, Seq<char>)>::empty(),
    {
        let entries: Vec<(String, String)> = Vec::new();
        assert(pairs_of(entries@) =~= Seq::empty());
        TextMap { entries }
    }

    /// The pairs are in order of their keys.
    pub fn len(&self) -> (n: usize)
        ensures
            n == self@.len(),
            ascending(self@),
    {
        proof {
            use_type_invariant(self);
        }
        self.entries.len()
    }

    /// The pair at position `i`.
    pub fn at(&self, i: usize) -> (r: (&str, &str))
        requires
            i < self@.len(),
        ensures
            (r.0@, r.1@) == self@[i as int],
    {
        let e = &self.entries[i];
        (e.0.as_str(), e.1.as_str())
    }

    /// Position of the first key that does not come before `key`.
    fn slot(&self, key: &str) -> (at: usize)
        ensures
            at <= self@.len(),
            forall|i: int| 0 <= i < at ==> text::precedes(#[trigger] self@[i].0, key@),
            at < self@.len() ==> !text::precedes(self@[at as int].0, key@),
    {
        let mut at: usize = 0;
        while at < self.entries.len() && text_before(&self.entries[at].0, key)
            invariant
                at <= self.entries.len(),
                forall|i: int| 0 <= i < at ==> text::precedes(#[trigger] self@[i].0, key@),
            decreases self.entries.len() - at,
        {
            assert(self@[at as int].0 == self.entries[at as int].0@);
            at += 1;
        }
        at
    }

    /// The value of `key`.
    pub fn get(&self, key: &str) -> (r: Option<&str>)
        ensures
            r is Some <==> as_map(self@).contains_key(key@),
            r matches Some(v) ==> v@ == as_map(self@)[key@],
    {
        proof {
            use_type_invariant(self);
            lemma_as_map(self@);
        }
        let at = self.slot(key);
        if at < self.entries.len() && same_text(&self.entries[at].0, key) {
            assert(self@[at as int].0 == key@);
            return Some(self.entries[at].1.as_str());
        }
        proof {
            if as_map(self@).contains_key(key@) {
                let i = choose|i: int| 0 <= i < self@.len() && self@[i].0 == key@;
                text_laws::precedes_irreflexive(key@);
                if i < at {
                } else if i > at {
                    assert(text::precedes(self@[at as int].0, self@[i].0));
                } else {
                }
            }
        }
        None
    }

    /// Sets the value of `key`.
    pub fn insert(&mut self, key: &str, value: &str)
        ensures
            ascending(final(self)@),
            as_map(final(self)@) == as_map(old(self)@).insert(key@, value@),
    {
        proof {
            use_type_invariant(&*self);
        }
        let at = self.slot(key);
        let ghost before = self@;
        let replace = at < self.entries.len() && same_text(&self.entries[at].0, key);
        let mut entries: Vec<(String, String)> = Vec::new();
        assert(pairs_of(entries@) =~= Seq::empty());
        std::mem::swap(&mut entries, &mut self.entries);
        assert(pairs_of(entries@) == before);
        let pair = (text::owned(key), text::owned(value));
        if replace {
            entries.set(at, pair);
        } else {
            entries.insert(at, pair);
        }
        proof {
            let after = pairs_of(entries@);
            let p = (key@, value@);
            lemma_as_map(before);
            if replace {
                assert(after =~= before.update(at as int, p));
            } else {
                assert(after =~= before.insert(at as int, p));
                if at < before.len() {
                    text_laws::precedes_total(before[at as int].0, key@);
                    assert(before[at as int].0 != key@);
                }
            }
            assert forall|i: int, j: int| 0 <= i < j < after.len() implies text::precedes(
                #[trigger] after[i].0,
                #[trigger] after[j].0,
            ) by {
                if replace {
                    assert(after[i].0 == before[i].0);
                    assert(after[j].0 == before[j].0);
                } else {
                    let a = if i < at { i } else { i - 1 };
                    let b = if j < at { j } else { j - 1 };
                    if i == at {
                        assert(after[j] == before[j - 1]);
                        if j - 1 > at {
                            assert(text::precedes(before[at as int].0, before[j - 1].0));
                            text_laws::precedes_transitive(
                                key@,
                                before[at as int].0,
                                before[j - 1].0,
                            );
                        }
                    } else if j == at {
                        assert(after[i] == before[i]);
                    } else {
                        assert(after[i] == before[a]);
                        assert(after[j] == before[b]);
                        assert(text::precedes(before[a].0, before[b].0));
                    }
                }
            }
            lemma_as_map(after);
            let m = as_map(before).insert(key@, value@);
            assert(after[at as int] == p);
            assert forall|k: Seq<char>| #[trigger] as_map(after).contains_key(k) implies
                m.contains_key(k) && m[k] == as_map(after)[k] by {
                let i = choose|i: int| 0 <= i < after.len() && after[i].0 == k;
                if i != at {
                    let j = if replace || i < at { i } else { i - 1 };
                    assert(after[i] == before[j]);
                    assert(k != key@) by {
                        text_laws::precedes_irreflexive(key@);
                        if i < at {
                            assert(text::precedes(after[i].0, after[at as int].0));
                        } else {
                            assert(text::precedes(after[at as int].0, after[i].0));
                        }
                    }
                    assert(as_map(before)[before[j].0] == before[j].1);
                    assert(as_map(after)[after[i].0] == after[i].1);
                } else {
                    assert(as_map(after)[after[i].0] == after[i].1);
                }
            }
            assert forall|k: Seq<char>| #[trigger] m.contains_key(k) implies as_map(
                after,
            ).contains_key(k) by {
                if k != key@ {
                    assert(as_map(before).contains_key(k));
                    let j = choose|j: int| 0 <= j < before.len() && before[j].0 == k;
                    let i = if replace || j < at { j } else { j + 1 };
                    assert(after[i] == before[j]);
                    assert(as_map(after).contains_key(after[i].0));
                } else {
                    assert(as_map(after).contains_key(after[at as int].0));
                }
            }
            assert(as_map(after) =~= m);
        }
        self.entries = entries;
    }
}

} // verus!
