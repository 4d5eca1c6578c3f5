//! Stable sorting by a key.
use vstd::prelude::*;
use crate::text;
use crate::text::text_before;
use crate::text_laws;

verus! {

/// Something to sort by: a strict order in which keys may tie.
pub trait SortKey: Sized {
    /// This key goes before the other.
    spec fn goes_before(&self, other: &Self) -> bool;

    /// No two keys go before each other.
    proof fn one_way(a: &Self, b: &Self)
        ensures
            !(a.goes_before(b) && b.goes_before(a)),
    ;

    /// A key that goes before another goes before or after any third.
    proof fn no_gaps(a: &Self, b: &Self, c: &Self)
        ensures
            a.goes_before(c) ==> a.goes_before(b) || b.goes_before(c),
    ;

    /// Whether this key goes before the other.
    fn before(&self, other: &Self) -> (r: bool)
        ensures
            r == self.goes_before(other),
    ;
}

/// Texts in dictionary order.
impl SortKey for String {
    open spec fn goes_before(&self, other: &Self) -> bool {
        text::precedes(self@, other@)
    }

    proof fn one_way(a: &Self, b: &Self) {
        if a.goes_before(b) && b.goes_before(a) {
            text_laws::precedes_transitive(a@, b@, a@);
            text_laws::precedes_irreflexive(a@);
        }
    }

    proof fn no_gaps(a: &Self, b: &Self, c: &Self) {
        text_laws::precedes_total(a@, b@);
        if a.goes_before(c) && b.goes_before(a) {
            text_laws::precedes_transitive(b@, a@, c@);
        }
    }

    fn before(&self, other: &Self) -> (r: bool) {
        text_before(self.as_str(), other.as_str())
    }
}

/// A time, of which later ones go first.
#[derive(Debug, Clone, Copy, PartialEq, Eq, Structural)]
pub struct NewestFirst(pub u128);

impl SortKey for NewestFirst {
    open spec fn goes_before(&self, other: &Self) -> bool {
        self.0 > other.0
    }

    proof fn one_way(a: &Self, b: &Self) {
    }

    proof fn no_gaps(a: &Self, b: &Self, c: &Self) {
    }

    fn before(&self, other: &Self) -> (r: bool) {
        self.0 > other.0
    }
}

/// In a stable sort the item with the number `i` comes before `j`.
pub open spec fn sorted_before<K: SortKey>(keys: Seq<K>, i: usize, j: usize) -> bool {
    ||| keys[i as int].goes_before(&keys[j as int])
    ||| !keys[j as int].goes_before(&keys[i as int]) && i < j
}

/// `order` numbers the items as a stable sort by their keys has them: each
/// once, by key, and those of equal keys in the order they had.
pub open spec fn is_stable_order<K: SortKey>(keys: Seq<K>, order: Seq<usize>) -> bool {
    &&& order.len() == keys.len()
    &&& forall|p: int| 0 <= p < order.len() ==> #[trigger] order[p] < keys.len()
    &&& forall|p: int, q: int|
        0 <= p < q < order.len() ==> sorted_before(
            keys,
            #[trigger] order[p],
            #[trigger] order[q],
        )
}

/// The order of a stable sort by key.
pub fn stable_order<K: SortKey>(keys: &Vec<K>) -> (order: Vec<usize>)
    ensures
        is_stable_order(keys@, order@),
{
    let mut order: Vec<usize> = Vec::new();
    let mut i: usize = 0;
    while i < keys.len()
        invariant
            i <= keys@.len(),
            order@.len() == i,
            forall|p: int| 0 <= p < order@.len() ==> #[trigger] order@[p] < i,
            forall|p: int, q: int|
                0 <= p < q < order@.len() ==> sorted_before(
                    keys@,
                    #[trigger] order@[p],
                    #[trigger] order@[q],
                ),
        decreases keys@.len() - i,
    {
        let mut at: usize = 0;
        while at < order.len() && !keys[i].before(&keys[order[at]])
            invariant
                i < keys@.len(),
                at <= order@.len(),
                forall|p: int| 0 <= p < order@.len() ==> #[trigger] order@[p] < i,
                forall|p: int|
                    0 <= p < at ==> !keys@[i as int].goes_before(
                        &keys@[(#[trigger] order@[p]) as int],
                    ),
            decreases order@.len() - at,
        {
            at += 1;
        }
        let ghost earlier = order@;
        order.insert(at, i);
        proof {
            let x = &keys@[i as int];
            assert forall|q: int| at <= q < earlier.len() implies sorted_before(
                keys@,
                i,
                #[trigger] earlier[q],
            ) by {
                let first = &keys@[earlier[at as int] as int];
                let other = &keys@[earlier[q] as int];
                if q > at {
                    assert(sorted_before(keys@, earlier[at as int], earlier[q]));
                    K::one_way(first, other);
                    K::no_gaps(x, other, first);
                }
            }
            assert forall|p: int, q: int| 0 <= p < q < order@.len() implies sorted_before(
                keys@,
                #[trigger] order@[p],
                #[trigger] order@[q],
            ) by {
                let a = if p < at {
                    p
                } else {
                    p - 1
                };
                let b = if q < at {
                    q
                } else {
                    q - 1
                };
                if p == at {
                    assert(sorted_before(keys@, i, earlier[b]));
                } else if q == at {
                    assert(!x.goes_before(&keys@[earlier[a] as int]));
                } else {
                    assert(sorted_before(keys@, earlier[a], earlier[b]));
                }
            }
        }
        i += 1;
    }
    order
}

/// A sorted list ascends: no item goes before one that stands earlier.
pub proof fn sorting_orders<K: SortKey>(keys: Seq<K>, order: Seq<usize>, p: int, q: int)
    requires
        is_stable_order(keys, order),
        0 <= p < q < order.len(),
    ensures
        !keys[order[q] as int].goes_before(&keys[order[p] as int]),
{
    assert(sorted_before(keys, order[p], order[q]));
    K::one_way(&keys[order[p] as int], &keys[order[q] as int]);
}

/// A sorted list is as long as the unsorted one and holds no item twice.
pub proof fn sorting_keeps_items<K: SortKey>(keys: Seq<K>, order: Seq<usize>, p: int, q: int)
    requires
        is_stable_order(keys, order),
        0 <= p < q < order.len(),
    ensures
        order.len() == keys.len(),
        order[p] != order[q],
{
    assert(sorted_before(keys, order[p], order[q]));
    K::one_way(&keys[order[p] as int], &keys[order[q] as int]);
}

/// Every item stands in the sorted list.
pub proof fn sorting_loses_nothing<K: SortKey>(keys: Seq<K>, order: Seq<usize>, k: int) -> (p: int)
    requires
        is_stable_order(keys, order),
        0 <= k < keys.len(),
    ensures
        0 <= p < order.len(),
        order[p] == k,
{
    let places = Seq::new(order.len(), |p: int| order[p] as int);
    assert forall|p: int, q: int| 0 <= p < places.len() && 0 <= q < places.len() && p
        != q implies places[p] != places[q] by {
        if p < q {
            sorting_keeps_items(keys, order, p, q);
        } else {
            sorting_keeps_items(keys, order, q, p);
        }
    }
    let all = vstd::set_lib::set_int_range(0, keys.len() as int);
    vstd::set_lib::lemma_int_range(0, keys.len() as int);
    places.unique_seq_to_set();
    assert(places.to_set().subset_of(all));
    vstd::set_lib::lemma_subset_equality(places.to_set(), all);
    assert(all.contains(k));
    assert(places.contains(k));
    let p = choose|p: int| 0 <= p < places.len() && places[p] == k;
    p
}

} // verus!
