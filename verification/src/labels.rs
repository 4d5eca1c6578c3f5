//! Lists of labels in dictionary order, without repetition.
use vstd::prelude::*;
use crate::text;
use crate::text_map;
use crate::text_map::TextMap;

verus! {

/// The labels ascend in dictionary order, so none occurs twice.
pub open spec fn ascending(p: Seq<Seq<char>>) -> bool {
    forall|i: int, j: int| 0 <= i < j < p.len() ==> text::precedes(#[trigger] p[i], #[trigger] p[j])
}

/// `p` lists the labels of which `member` holds, in order.
pub open spec fn is_listing(p: Seq<Seq<char>>, member: spec_fn(Seq<char>) -> bool) -> bool {
    &&& ascending(p)
    &&& forall|s: Seq<char>| #[trigger] p.contains(s) <==> member(s)
}

/// The labels of a list in order, without repetition.
pub fn sorted_unique(labels: &Vec<String>) -> (out: Vec<String>)
    ensures
        ascending(text::texts(out@)),
        forall|s: Seq<char>| #[trigger]
            text::texts(out@).contains(s) <==> text::texts(labels@).contains(s),
{
    let mut m = TextMap::new();
    let mut i: usize = 0;
    while i < labels.len()
        invariant
            i <= labels.len(),
            forall|s: Seq<char>| #[trigger]
                text_map::as_map(m@).contains_key(s) <==> text::texts(labels@).take(
                    i as int,
                ).contains(s),
        decreases labels.len() - i,
    {
        let ghost before = text_map::as_map(m@);
        m.insert(&labels[i], "");
        proof {
            let all = text::texts(labels@);
            let x = labels[i as int]@;
            let next = all.take(i + 1);
            assert(next =~= all.take(i as int).push(x));
            assert forall|s: Seq<char>| #[trigger]
                text_map::as_map(m@).contains_key(s) <==> next.contains(s) by {
                if all.take(i as int).contains(s) {
                    let k = choose|k: int| 0 <= k < i && all.take(i as int)[k] == s;
                    assert(next[k] == s);
                }
                if s == x {
                    assert(next[i as int] == s);
                }
                if next.contains(s) && s != x {
                    let k = choose|k: int| 0 <= k < next.len() && next[k] == s;
                    assert(all.take(i as int)[k] == s);
                }
            }
        }
        i += 1;
    }
    assert(text::texts(labels@).take(i as int) =~= text::texts(labels@));
    let n = m.len();
    let mut out: Vec<String> = Vec::new();
    let mut k: usize = 0;
    while k < n
        invariant
            k <= n,
            n == m@.len(),
            out.len() == k,
            forall|j: int| 0 <= j < k ==> (#[trigger] out[j])@ == m@[j].0,
        decreases n - k,
    {
        let (key, _) = m.at(k);
        out.push(text::owned(key));
        k += 1;
    }
    proof {
        text_map::lemma_as_map(m@);
        let p = text::texts(out@);
        assert forall|a: int, b: int| 0 <= a < b < p.len() implies text::precedes(
            #[trigger] p[a],
            #[trigger] p[b],
        ) by {
            assert(text::precedes(m@[a].0, m@[b].0));
        }
        assert forall|s: Seq<char>| #[trigger] p.contains(s) <==> text::texts(labels@).contains(s) by {
            if p.contains(s) {
                let j = choose|j: int| 0 <= j < p.len() && p[j] == s;
                assert(m@[j].0 == s);
                assert(text_map::as_map(m@).contains_key(m@[j].0));
            }
            if text::texts(labels@).contains(s) {
                assert(text_map::as_map(m@).contains_key(s));
                let j = choose|j: int| 0 <= j < m@.len() && m@[j].0 == s;
                assert(p[j] == s);
            }
        }
    }
    out
}

} // verus!
