//! Who speaks when.
//!
//! With the speaker models at hand, an offline diarization pipeline runs again
//! and again over all remote audio of the meeting. Each pass relabels the
//! entire timeline, so early mistakes heal; identities are kept stable from
//! pass to pass by matching overlaps. Without the models, a fallback closes
//! segments at silences and groups them by voice profile. The functions here
//! keep the state of both and make their decisions; what needs a model or
//! floating-point arithmetic is handed out as work.
use vstd::prelude::*;
use std::collections::{HashMap, VecDeque};
use crate::split;
use crate::text;

verus! {

broadcast use vstd::std_specs::hash::group_hash_axioms;

/// Segments shorter than this are ignored as noise (fallback).
pub const MIN_SEGMENT_MS: u64 = 400;

/// A pause of this length closes a segment (fallback).
pub const FB_SILENCE_CLOSE_MS: u64 = 600;

/// Most voices that the fallback tells apart.
pub const MAX_CLUSTERS: u32 = 8;

/// Passes never run closer together than this...
pub const MIN_PASS_INTERVAL_MS: u64 = 10_000;

/// ...nor further apart than this.
pub const MAX_PASS_INTERVAL_MS: u64 = 300_000;

/// The next pass is scheduled this many times the cost of the last one away,
/// which bounds the share of time spent in passes.
pub const PASS_COST_FACTOR: u64 = 4;

/// Most audio that is retained (4 h at 16 kHz). Past this no new audio is
/// taken; the meeting itself is unaffected.
pub const MAX_BUFFER_SAMPLES: usize = 230_400_000;

/// Most checkpoints of a [`SampleClock`].
pub const MAX_MARKS: usize = 200_000;

#[derive(Debug, Clone, Copy, PartialEq, Eq, Structural)]
pub enum SpeakerLabel {
    You,
    Speaker(u32),
    Meeting,
    MultipleSpeakers,
}

impl SpeakerLabel {
    /// How a label is shown.
    pub open spec fn shown(self) -> Seq<char> {
        match self {
            SpeakerLabel::You => "You"@,
            SpeakerLabel::Speaker(n) => "Speaker "@ + text::decimal(n as nat),
            SpeakerLabel::Meeting => "Meeting"@,
            SpeakerLabel::MultipleSpeakers => "Multiple speakers"@,
        }
    }

    pub fn display(&self) -> (r: String)
        ensures
            r@ == self.shown(),
    {
        match self {
            SpeakerLabel::You => text::owned("You"),
            SpeakerLabel::Speaker(n) => {
                let mut s = text::owned("Speaker ");
                text::push_decimal(&mut s, *n as u64);
                s
            },
            SpeakerLabel::Meeting => text::owned("Meeting"),
            SpeakerLabel::MultipleSpeakers => text::owned("Multiple speakers"),
        }
    }
}

/// A stretch of the session with one label.
#[derive(Debug, Clone, Copy, PartialEq, Eq, Structural)]
pub struct SpeakerRange {
    pub start_ms: u64,
    pub end_ms: u64,
    pub label: SpeakerLabel,
}

// ---------------------------------------------------------------------------
// Label of a span
// ---------------------------------------------------------------------------

/// Milliseconds that two stretches of time have in common.
pub open spec fn common_ms(a0: u64, a1: u64, b0: u64, b1: u64) -> nat {
    let s = if a0 >= b0 {
        a0
    } else {
        b0
    };
    let e = if a1 <= b1 {
        a1
    } else {
        b1
    };
    if e > s {
        (e - s) as nat
    } else {
        0
    }
}

/// Milliseconds of a range within a span.
pub open spec fn within(r: SpeakerRange, start_ms: u64, end_ms: u64) -> nat {
    common_ms(r.start_ms, r.end_ms, start_ms, end_ms)
}

/// Milliseconds of all ranges within a span, counted once for each range.
pub open spec fn total_within(ranges: Seq<SpeakerRange>, start_ms: u64, end_ms: u64) -> nat
    decreases ranges.len(),
{
    if ranges.len() == 0 {
        0
    } else {
        total_within(ranges.drop_last(), start_ms, end_ms) + within(
            ranges.last(),
            start_ms,
            end_ms,
        )
    }
}

/// Milliseconds of a span that its ranges give to a label.
pub open spec fn time_of(
    ranges: Seq<SpeakerRange>,
    label: SpeakerLabel,
    start_ms: u64,
    end_ms: u64,
) -> nat
    decreases ranges.len(),
{
    if ranges.len() == 0 {
        0
    } else {
        time_of(ranges.drop_last(), label, start_ms, end_ms) + if ranges.last().label == label {
            within(ranges.last(), start_ms, end_ms)
        } else {
            0
        }
    }
}

/// The label of range `i` has the most of a span, and of several such labels it
/// is the one that appears first in it.
pub open spec fn is_top(ranges: Seq<SpeakerRange>, start_ms: u64, end_ms: u64, i: int) -> bool {
    let most = time_of(ranges, ranges[i].label, start_ms, end_ms);
    &&& 0 <= i < ranges.len()
    &&& within(ranges[i], start_ms, end_ms) > 0
    &&& forall|j: int|
        0 <= j < ranges.len() && within(#[trigger] ranges[j], start_ms, end_ms) > 0 ==> time_of(
            ranges,
            ranges[j].label,
            start_ms,
            end_ms,
        ) <= most
    &&& forall|j: int|
        0 <= j < i && within(#[trigger] ranges[j], start_ms, end_ms) > 0 ==> time_of(
            ranges,
            ranges[j].label,
            start_ms,
            end_ms,
        ) < most
}

/// `r` is the label of a span: none where no range touches it, else the label
/// that has the most of it, unless that is less than seven tenths.
pub open spec fn is_label_of(
    ranges: Seq<SpeakerRange>,
    start_ms: u64,
    end_ms: u64,
    r: Option<SpeakerLabel>,
) -> bool {
    if total_within(ranges, start_ms, end_ms) == 0 {
        r is None
    } else {
        exists|i: int|
            #![trigger is_top(ranges, start_ms, end_ms, i)]
            {
                &&& is_top(ranges, start_ms, end_ms, i)
                &&& r == Some(
                    if 10 * time_of(ranges, ranges[i].label, start_ms, end_ms) < 7 * total_within(
                        ranges,
                        start_ms,
                        end_ms,
                    ) {
                        SpeakerLabel::MultipleSpeakers
                    } else {
                        ranges[i].label
                    },
                )
            }
    }
}

/// Milliseconds that two stretches of time have in common.
fn overlap_ms(a0: u64, a1: u64, b0: u64, b1: u64) -> (r: u64)
    ensures
        r == common_ms(a0, a1, b0, b1),
{
    let s: u64 = if a0 >= b0 {
        a0
    } else {
        b0
    };
    let e: u64 = if a1 <= b1 {
        a1
    } else {
        b1
    };
    e.saturating_sub(s)
}

/// A range within a span counts for its label.
proof fn time_covers(ranges: Seq<SpeakerRange>, start_ms: u64, end_ms: u64, i: int)
    requires
        0 <= i < ranges.len(),
    ensures
        within(ranges[i], start_ms, end_ms) <= time_of(
            ranges,
            ranges[i].label,
            start_ms,
            end_ms,
        ),
    decreases ranges.len(),
{
    if i < ranges.len() - 1 {
        time_covers(ranges.drop_last(), start_ms, end_ms, i);
    }
}

/// Milliseconds of a span that its ranges give to a label.
fn label_time(ranges: &Vec<SpeakerRange>, label: SpeakerLabel, start_ms: u64, end_ms: u64) -> (r:
    u128)
    ensures
        r == time_of(ranges@, label, start_ms, end_ms),
{
    let mut sum: u128 = 0;
    let mut i: usize = 0;
    assert(ranges@.take(0) =~= Seq::empty());
    while i < ranges.len()
        invariant
            i <= ranges.len(),
            sum == time_of(ranges@.take(i as int), label, start_ms, end_ms),
            sum <= i * u64::MAX,
        decreases ranges.len() - i,
    {
        let x = ranges[i];
        proof {
            assert(ranges@.take(i + 1).drop_last() =~= ranges@.take(i as int));
            assert((i + 1) * u64::MAX == i * u64::MAX + u64::MAX) by (nonlinear_arith);
            assert(i * u64::MAX + u64::MAX <= u128::MAX) by (nonlinear_arith)
                requires
                    i <= usize::MAX,
            ;
        }
        if x.label == label {
            sum += overlap_ms(x.start_ms, x.end_ms, start_ms, end_ms) as u128;
        }
        i += 1;
    }
    assert(ranges@.take(i as int) =~= ranges@);
    sum
}

/// Whether `part` is less than seven tenths of `whole`.
fn is_minor(part: u128, whole: u128) -> (r: bool)
    ensures
        r == (10 * part < 7 * whole),
{
    let p = part / 7;
    let w = whole / 10;
    p < w || (p == w && 10 * (part % 7) < 7 * (whole % 10))
}

/// Label covering a time span. Overlapping distinct speakers yield
/// `MultipleSpeakers` unless one dominates.
pub fn label_for_span_in(ranges: &Vec<SpeakerRange>, start_ms: u64, end_ms: u64) -> (r: Option<
    SpeakerLabel,
>)
    ensures
        is_label_of(ranges@, start_ms, end_ms, r),
{
    let mut total: u128 = 0;
    let mut top: usize = 0;
    let mut most: u128 = 0;
    let mut i: usize = 0;
    assert(ranges@.take(0) =~= Seq::empty());
    while i < ranges.len()
        invariant
            i <= ranges.len(),
            total == total_within(ranges@.take(i as int), start_ms, end_ms),
            total <= i * u64::MAX,
            most == 0 ==> total == 0,
            most > 0 ==> {
                &&& top < i
                &&& total > 0
                &&& within(ranges@[top as int], start_ms, end_ms) > 0
                &&& most == time_of(ranges@, ranges@[top as int].label, start_ms, end_ms)
            },
            forall|j: int|
                0 <= j < i && within(#[trigger] ranges@[j], start_ms, end_ms) > 0 ==> time_of(
                    ranges@,
                    ranges@[j].label,
                    start_ms,
                    end_ms,
                ) <= most,
            forall|j: int|
                0 <= j < top && most > 0 && within(#[trigger] ranges@[j], start_ms, end_ms) > 0
                    ==> time_of(ranges@, ranges@[j].label, start_ms, end_ms) < most,
        decreases ranges.len() - i,
    {
        let x = ranges[i];
        let len = overlap_ms(x.start_ms, x.end_ms, start_ms, end_ms);
        proof {
            assert(ranges@.take(i + 1).drop_last() =~= ranges@.take(i as int));
            assert((i + 1) * u64::MAX == i * u64::MAX + u64::MAX) by (nonlinear_arith);
            assert(i * u64::MAX + u64::MAX <= u128::MAX) by (nonlinear_arith)
                requires
                    i <= usize::MAX,
            ;
            time_covers(ranges@, start_ms, end_ms, i as int);
        }
        total += len as u128;
        if len > 0 {
            let time = label_time(ranges, x.label, start_ms, end_ms);
            if time > most {
                most = time;
                top = i;
            }
        }
        i += 1;
    }
    assert(ranges@.take(i as int) =~= ranges@);
    if most == 0 {
        return None;
    }
    assert(is_top(ranges@, start_ms, end_ms, top as int));
    if is_minor(most, total) {
        return Some(SpeakerLabel::MultipleSpeakers);
    }
    Some(ranges[top].label)
}

// ---------------------------------------------------------------------------
// Speaker identity from pass to pass
// ---------------------------------------------------------------------------

/// Milliseconds of the stretch `s..e` that earlier ranges gave to speaker `k`.
pub open spec fn span_votes(prev: Seq<SpeakerRange>, s: u64, e: u64, k: u32) -> nat
    decreases prev.len(),
{
    if prev.len() == 0 {
        0
    } else {
        let r = prev.last();
        span_votes(prev.drop_last(), s, e, k) + if r.label == SpeakerLabel::Speaker(k) {
            common_ms(r.start_ms, r.end_ms, s, e)
        } else {
            0
        }
    }
}

/// Milliseconds that the segments of the raw id have in common with the
/// earlier ranges of speaker `k`.
pub open spec fn votes(
    prev: Seq<SpeakerRange>,
    segs: Seq<(u64, u64, i32)>,
    id: i32,
    k: u32,
) -> nat
    decreases segs.len(),
{
    if segs.len() == 0 {
        0
    } else {
        let (s, e, i) = segs.last();
        votes(prev, segs.drop_last(), id, k) + if i == id {
            span_votes(prev, s, e, k)
        } else {
            0
        }
    }
}

/// A pair with `na` votes comes before a pair with `nb`: more votes first,
/// then the smaller id, then the smaller label.
pub open spec fn is_ahead(a: (i32, u32), na: nat, b: (i32, u32), nb: nat) -> bool {
    na > nb || (na == nb && (a.0 < b.0 || (a.0 == b.0 && a.1 < b.1)))
}

/// `p` ranks all pairs of a raw id and an earlier label that have votes.
pub open spec fn is_ranking(
    prev: Seq<SpeakerRange>,
    segs: Seq<(u64, u64, i32)>,
    p: Seq<(i32, u32)>,
) -> bool {
    &&& forall|i: int, j: int|
        0 <= i < j < p.len() ==> is_ahead(
            #[trigger] p[i],
            votes(prev, segs, p[i].0, p[i].1),
            #[trigger] p[j],
            votes(prev, segs, p[j].0, p[j].1),
        )
    &&& forall|id: i32, k: u32| #[trigger]
        p.contains((id, k)) <==> votes(prev, segs, id, k) > 0
}

/// The label is given to some id.
pub open spec fn is_used(m: Map<i32, u32>, k: u32) -> bool {
    exists|id: i32| #[trigger] m.contains_key(id) && m[id] == k
}

/// Pairs are taken in order where neither the id nor the label is taken yet.
pub open spec fn matched(p: Seq<(i32, u32)>) -> Map<i32, u32>
    decreases p.len(),
{
    if p.len() == 0 {
        Map::empty()
    } else {
        let m = matched(p.drop_last());
        let (id, k) = p.last();
        if !m.contains_key(id) && !is_used(m, k) {
            m.insert(id, k)
        } else {
            m
        }
    }
}

/// Ids that are not matched get the labels from `next` on, in order of first
/// appearance. Also the label after the last one given.
pub open spec fn with_fresh(m: Map<i32, u32>, segs: Seq<(u64, u64, i32)>, next: nat) -> (
    Map<i32, u32>,
    nat,
)
    decreases segs.len(),
{
    if segs.len() == 0 {
        (m, next)
    } else {
        let (n, t) = with_fresh(m, segs.drop_last(), next);
        let id = segs.last().2;
        if n.contains_key(id) {
            (n, t)
        } else {
            (n.insert(id, t as u32), t + 1)
        }
    }
}

/// The largest speaker number among ranges, 0 if there is none.
pub open spec fn max_speaker(ranges: Seq<SpeakerRange>) -> nat
    decreases ranges.len(),
{
    if ranges.len() == 0 {
        0
    } else {
        let m = max_speaker(ranges.drop_last());
        match ranges.last().label {
            SpeakerLabel::Speaker(k) if k > m => k as nat,
            _ => m,
        }
    }
}

/// `m` maps the raw ids of a pass to stable labels.
pub open spec fn is_remapping(
    prev: Seq<SpeakerRange>,
    segs: Seq<(u64, u64, i32)>,
    m: Map<i32, u32>,
) -> bool {
    exists|p: Seq<(i32, u32)>|
        #[trigger] is_ranking(prev, segs, p) && m == with_fresh(
            matched(p),
            segs,
            max_speaker(prev) + 1,
        ).0
}

/// A pair of a raw id and a label, with its votes.
struct Vote {
    id: i32,
    k: u32,
    n: u128,
}

/// No pair is listed twice, and every pair listed has votes.
spec fn is_tally(v: Seq<Vote>) -> bool {
    &&& forall|i: int, j: int|
        0 <= i < j < v.len() ==> (#[trigger] v[i]).id != (#[trigger] v[j]).id || v[i].k != v[j].k
    &&& forall|i: int| 0 <= i < v.len() ==> (#[trigger] v[i]).n > 0
}

/// The votes of a pair in a tally.
spec fn tallied(v: Seq<Vote>, id: i32, k: u32) -> nat
    decreases v.len(),
{
    if v.len() == 0 {
        0
    } else if v.last().id == id && v.last().k == k {
        v.last().n as nat
    } else {
        tallied(v.drop_last(), id, k)
    }
}

proof fn tallied_at(v: Seq<Vote>, i: int)
    requires
        is_tally(v),
        0 <= i < v.len(),
    ensures
        tallied(v, v[i].id, v[i].k) == v[i].n,
    decreases v.len(),
{
    if i < v.len() - 1 {
        let w = v.drop_last();
        assert(v[i].id != v[v.len() - 1].id || v[i].k != v[v.len() - 1].k);
        assert(is_tally(w)) by {
            assert forall|a: int, b: int| 0 <= a < b < w.len() implies (#[trigger] w[a]).id != (
            #[trigger] w[b]).id || w[a].k != w[b].k by {
                assert(v[a].id != v[b].id || v[a].k != v[b].k);
            }
            assert forall|a: int| 0 <= a < w.len() implies (#[trigger] w[a]).n > 0 by {
                assert(v[a].n > 0);
            }
        }
        tallied_at(w, i);
    }
}

proof fn tallied_some(v: Seq<Vote>, id: i32, k: u32)
    requires
        tallied(v, id, k) > 0,
    ensures
        exists|i: int| 0 <= i < v.len() && (#[trigger] v[i]).id == id && v[i].k == k,
    decreases v.len(),
{
    if v.len() > 0 {
        if v.last().id == id && v.last().k == k {
            assert(v[v.len() - 1].id == id);
        } else {
            tallied_some(v.drop_last(), id, k);
            let w = v.drop_last();
            let i = choose|i: int| 0 <= i < w.len() && (#[trigger] w[i]).id == id && w[i].k == k;
            assert(v[i].id == id && v[i].k == k);
        }
    }
}

/// Adds votes to a pair.
fn add_vote(v: &mut Vec<Vote>, id: i32, k: u32, n: u64)
    requires
        is_tally(old(v)@),
        n > 0,
        tallied(old(v)@, id, k) + n <= u128::MAX,
    ensures
        is_tally(final(v)@),
        forall|a: i32, b: u32| #[trigger]
            tallied(final(v)@, a, b) == tallied(old(v)@, a, b) + if a == id && b == k {
                n as nat
            } else {
                0
            },
{
    let mut i: usize = 0;
    while i < v.len()
        invariant
            i <= v.len(),
            v@ == old(v)@,
            is_tally(v@),
            n > 0,
            tallied(v@, id, k) + n <= u128::MAX,
            forall|j: int| 0 <= j < i ==> (#[trigger] v@[j]).id != id || v@[j].k != k,
        decreases v.len() - i,
    {
        if v[i].id == id && v[i].k == k {
            proof {
                tallied_at(v@, i as int);
            }
            let more: u128 = v[i].n + n as u128;
            v.set(i, Vote { id, k, n: more });
            proof {
                let before = old(v)@;
                let after = v@;
                assert forall|a: int, b: int| 0 <= a < b < after.len() implies (
                #[trigger] after[a]).id != (#[trigger] after[b]).id || after[a].k
                    != after[b].k by {
                    assert(before[a].id != before[b].id || before[a].k != before[b].k);
                    assert(after[a].id == before[a].id && after[a].k == before[a].k);
                    assert(after[b].id == before[b].id && after[b].k == before[b].k);
                }
                assert forall|a: i32, b: u32| #[trigger]
                    tallied(after, a, b) == tallied(before, a, b) + if a == id && b == k {
                        n as nat
                    } else {
                        0
                    } by {
                    tallied_update(before, i as int, n as nat, a, b);
                }
            }
            return ;
        }
        i += 1;
    }
    proof {
        if tallied(v@, id, k) > 0 {
            tallied_some(v@, id, k);
        }
    }
    let ghost before = v@;
    v.push(Vote { id, k, n: n as u128 });
    proof {
        let after = v@;
        assert(after.drop_last() =~= before);
        assert forall|a: int, b: int| 0 <= a < b < after.len() implies (#[trigger] after[a]).id != (
        #[trigger] after[b]).id || after[a].k != after[b].k by {
            if b < before.len() {
                assert(before[a].id != before[b].id || before[a].k != before[b].k);
            } else {
                assert(before[a].id != id || before[a].k != k);
            }
        }
        assert forall|a: int| 0 <= a < after.len() implies (#[trigger] after[a]).n > 0 by {
            if a < before.len() {
                assert(before[a].n > 0);
            }
        }
    }
}

proof fn tallied_update(v: Seq<Vote>, i: int, n: nat, a: i32, b: u32)
    requires
        is_tally(v),
        0 <= i < v.len(),
        v[i].n + n <= u128::MAX,
    ensures
        tallied(v.update(i, Vote { n: (v[i].n + n) as u128, ..v[i] }), a, b) == tallied(v, a, b)
            + if a == v[i].id && b == v[i].k {
            n
        } else {
            0
        },
    decreases v.len(),
{
    let w = v.update(i, Vote { n: (v[i].n + n) as u128, ..v[i] });
    if i == v.len() - 1 {
        assert(w.drop_last() =~= v.drop_last());
    } else {
        let init = v.drop_last();
        assert(v[i].id != v[v.len() - 1].id || v[i].k != v[v.len() - 1].k);
        assert(is_tally(init)) by {
            assert forall|x: int, y: int| 0 <= x < y < init.len() implies (#[trigger] init[x]).id
                != (#[trigger] init[y]).id || init[x].k != init[y].k by {
                assert(v[x].id != v[y].id || v[x].k != v[y].k);
            }
            assert forall|x: int| 0 <= x < init.len() implies (#[trigger] init[x]).n > 0 by {
                assert(v[x].n > 0);
            }
        }
        tallied_update(init, i, n, a, b);
        assert(w.drop_last() =~= init.update(i, Vote { n: (v[i].n + n) as u128, ..v[i] }));
    }
}

/// The votes of all pairs.
fn tally_votes(prev: &Vec<SpeakerRange>, segs: &Vec<(u64, u64, i32)>) -> (v: Vec<Vote>)
    requires
        prev@.len() * segs@.len() <= u64::MAX,
    ensures
        is_tally(v@),
        forall|a: i32, b: u32| #[trigger] tallied(v@, a, b) == votes(prev@, segs@, a, b),
{
    let mut v: Vec<Vote> = Vec::new();
    let ghost mut seen: int = 0;
    let mut i: usize = 0;
    assert(segs@.take(0) =~= Seq::empty());
    while i < segs.len()
        invariant
            i <= segs.len(),
            prev@.len() * segs@.len() <= u64::MAX,
            seen == i * prev@.len(),
            is_tally(v@),
            forall|a: i32, b: u32| #[trigger]
                tallied(v@, a, b) == votes(prev@, segs@.take(i as int), a, b),
            forall|a: i32, b: u32| #[trigger] tallied(v@, a, b) <= seen * u64::MAX,
        decreases segs.len() - i,
    {
        let (s, e, id) = segs[i];
        let ghost past = segs@.take(i as int);
        let mut j: usize = 0;
        assert(prev@.take(0) =~= Seq::empty());
        while j < prev.len()
            invariant
                j <= prev.len(),
                i < segs.len(),
                prev@.len() * segs@.len() <= u64::MAX,
                seen == i * prev@.len() + j,
                is_tally(v@),
                past == segs@.take(i as int),
                forall|a: i32, b: u32| #[trigger]
                    tallied(v@, a, b) == votes(prev@, past, a, b) + if a == id {
                        span_votes(prev@.take(j as int), s, e, b)
                    } else {
                        0
                    },
                forall|a: i32, b: u32| #[trigger] tallied(v@, a, b) <= seen * u64::MAX,
            decreases prev.len() - j,
        {
            let r = prev[j];
            let ghost before = v@;
            proof {
                assert(prev@.take(j + 1).drop_last() =~= prev@.take(j as int));
                assert(seen + 1 <= u64::MAX) by (nonlinear_arith)
                    requires
                        seen == i * prev@.len() + j,
                        i + 1 <= segs@.len(),
                        j + 1 <= prev@.len(),
                        prev@.len() * segs@.len() <= u64::MAX,
                ;
                assert((seen + 1) * u64::MAX == seen * u64::MAX + u64::MAX) by (nonlinear_arith);
                assert((seen + 1) * u64::MAX <= u128::MAX) by (nonlinear_arith)
                    requires
                        seen + 1 <= u64::MAX,
                ;
            }
            if let SpeakerLabel::Speaker(k) = r.label {
                let n = overlap_ms(r.start_ms, r.end_ms, s, e);
                if n > 0 {
                    add_vote(&mut v, id, k, n);
                }
            }
            proof {
                seen = seen + 1;
                assert forall|a: i32, b: u32| #[trigger] tallied(v@, a, b) <= seen * u64::MAX by {
                    assert(tallied(before, a, b) <= (seen - 1) * u64::MAX);
                }
                assert forall|a: i32, b: u32| #[trigger]
                    tallied(v@, a, b) == votes(prev@, past, a, b) + if a == id {
                        span_votes(prev@.take(j + 1), s, e, b)
                    } else {
                        0
                    } by {
                    assert(tallied(before, a, b) == votes(prev@, past, a, b) + if a == id {
                        span_votes(prev@.take(j as int), s, e, b)
                    } else {
                        0
                    });
                }
            }
            j += 1;
        }
        proof {
            assert(prev@.take(j as int) =~= prev@);
            assert(segs@.take(i + 1).drop_last() =~= past);
            assert(seen == (i + 1) * prev@.len()) by (nonlinear_arith)
                requires
                    seen == i * prev@.len() + j,
                    j == prev@.len(),
            ;
        }
        i += 1;
    }
    assert(segs@.take(i as int) =~= segs@);
    v
}

/// Whether vote `a` comes before vote `b`.
fn vote_ahead(a: &Vote, b: &Vote) -> (r: bool)
    ensures
        r == is_ahead((a.id, a.k), a.n as nat, (b.id, b.k), b.n as nat),
{
    a.n > b.n || (a.n == b.n && (a.id < b.id || (a.id == b.id && a.k < b.k)))
}

spec fn ahead(a: Vote, b: Vote) -> bool {
    is_ahead((a.id, a.k), a.n as nat, (b.id, b.k), b.n as nat)
}

/// The votes in order.
fn rank_votes(v: Vec<Vote>) -> (out: Vec<Vote>)
    requires
        is_tally(v@),
    ensures
        forall|i: int, j: int| 0 <= i < j < out@.len() ==> ahead(#[trigger] out@[i], #[trigger] out@[j]),
        forall|x: Vote| #[trigger] out@.contains(x) <==> v@.contains(x),
{
    let mut rest = v;
    let mut out: Vec<Vote> = Vec::new();
    while rest.len() > 0
        invariant
            is_tally(rest@),
            forall|i: int, j: int|
                0 <= i < j < out@.len() ==> ahead(#[trigger] out@[i], #[trigger] out@[j]),
            forall|i: int, j: int|
                0 <= i < out@.len() && 0 <= j < rest@.len() ==> ahead(
                    #[trigger] out@[i],
                    #[trigger] rest@[j],
                ),
            forall|x: Vote| #[trigger]
                v@.contains(x) <==> out@.contains(x) || rest@.contains(x),
        decreases rest.len(),
    {
        let mut b: usize = 0;
        let mut i: usize = 1;
        while i < rest.len()
            invariant
                b < i <= rest.len(),
                is_tally(rest@),
                forall|j: int|
                    0 <= j < i && j != b ==> ahead(rest@[b as int], #[trigger] rest@[j]),
            decreases rest.len() - i,
        {
            assert(rest@[b as int].id != rest@[i as int].id || rest@[b as int].k
                != rest@[i as int].k);
            if vote_ahead(&rest[i], &rest[b]) {
                b = i;
            }
            i += 1;
        }
        let ghost before = rest@;
        let ghost done = out@;
        let x = rest.swap_remove(b);
        out.push(x);
        proof {
            let after = rest@;
            assert forall|j: int| #![trigger after[j]] 0 <= j < after.len() implies exists|m: int|
                0 <= m < before.len() && m != b && #[trigger] before[m] == after[j] by {
                if j == b {
                    assert(before[before.len() - 1] == after[j]);
                } else {
                    assert(before[j] == after[j]);
                }
            }
            assert forall|j: int| 0 <= j < after.len() implies ahead(x, #[trigger] after[j]) by {
                let m = choose|m: int|
                    0 <= m < before.len() && m != b && #[trigger] before[m] == after[j];
                assert(ahead(before[b as int], before[m]));
            }
            assert forall|i: int, j: int| 0 <= i < out@.len() && 0 <= j < after.len() implies ahead(
                #[trigger] out@[i],
                #[trigger] after[j],
            ) by {
                if i < done.len() {
                    let m = choose|m: int|
                        0 <= m < before.len() && m != b && #[trigger] before[m] == after[j];
                    assert(ahead(done[i], before[m]));
                }
            }
            assert forall|i: int, j: int| 0 <= i < j < out@.len() implies ahead(
                #[trigger] out@[i],
                #[trigger] out@[j],
            ) by {
                if j == done.len() {
                    assert(ahead(done[i], before[b as int]));
                } else {
                    assert(ahead(done[i], done[j]));
                }
            }
            assert forall|i: int, j: int| 0 <= i < j < after.len() implies (#[trigger] after[i]).id
                != (#[trigger] after[j]).id || after[i].k != after[j].k by {
                let last = before.len() - 1;
                if i == b {
                    assert(before[j].id != before[last].id || before[j].k != before[last].k);
                } else if j == b {
                    assert(before[i].id != before[last].id || before[i].k != before[last].k);
                } else {
                    assert(before[i].id != before[j].id || before[i].k != before[j].k);
                }
            }
            assert forall|i: int| 0 <= i < after.len() implies (#[trigger] after[i]).n > 0 by {
                if i == b {
                    assert(before[before.len() - 1].n > 0);
                } else {
                    assert(before[i].n > 0);
                }
            }
            assert forall|y: Vote| #[trigger]
                v@.contains(y) <==> out@.contains(y) || after.contains(y) by {
                if done.contains(y) {
                    let m = choose|m: int| 0 <= m < done.len() && done[m] == y;
                    assert(out@[m] == y);
                }
                if before.contains(y) {
                    let m = choose|m: int| 0 <= m < before.len() && before[m] == y;
                    if m == b {
                        assert(out@[done.len() as int] == y);
                    } else if m == before.len() - 1 {
                        assert(after[b as int] == y);
                    } else {
                        assert(after[m] == y);
                    }
                }
                if out@.contains(y) {
                    let m = choose|m: int| 0 <= m < out@.len() && out@[m] == y;
                    if m < done.len() {
                        assert(done[m] == y);
                    } else {
                        assert(before[b as int] == y);
                    }
                }
                if after.contains(y) {
                    let j = choose|j: int| 0 <= j < after.len() && after[j] == y;
                    let m = choose|m: int|
                        0 <= m < before.len() && m != b && #[trigger] before[m] == after[j];
                    assert(before.contains(y));
                }
            }
        }
    }
    assert(rest@ =~= Seq::empty());
    out
}

/// The pairs of a list of votes.
spec fn pairs_of(v: Seq<Vote>) -> Seq<(i32, u32)> {
    Seq::new(v.len(), |i: int| (v[i].id, v[i].k))
}

fn has_label(used: &Vec<u32>, k: u32) -> (r: bool)
    ensures
        r == used@.contains(k),
{
    let mut i: usize = 0;
    while i < used.len()
        invariant
            i <= used.len(),
            forall|j: int| 0 <= j < i ==> used@[j] != k,
        decreases used.len() - i,
    {
        if used[i] == k {
            assert(used@[i as int] == k);
            return true;
        }
        i += 1;
    }
    false
}

/// Takes pairs in order where neither the id nor the label is taken yet.
fn match_pairs(ranked: &Vec<Vote>) -> (m: HashMap<i32, u32>)
    ensures
        m@ == matched(pairs_of(ranked@)),
{
    let mut m: HashMap<i32, u32> = HashMap::new();
    let mut used: Vec<u32> = Vec::new();
    let mut i: usize = 0;
    assert(pairs_of(ranked@).take(0) =~= Seq::empty());
    while i < ranked.len()
        invariant
            i <= ranked.len(),
            m@ == matched(pairs_of(ranked@).take(i as int)),
            forall|k: u32| #[trigger] used@.contains(k) <==> is_used(m@, k),
        decreases ranked.len() - i,
    {
        let id = ranked[i].id;
        let k = ranked[i].k;
        proof {
            let p = pairs_of(ranked@);
            assert(p.take(i + 1).drop_last() =~= p.take(i as int));
        }
        let ghost before = m@;
        let ghost past = used@;
        if !m.contains_key(&id) && !has_label(&used, k) {
            m.insert(id, k);
            used.push(k);
            proof {
                assert forall|x: u32| #[trigger] used@.contains(x) <==> is_used(m@, x) by {
                    if past.contains(x) {
                        let j = choose|j: int| 0 <= j < past.len() && past[j] == x;
                        assert(used@[j] == x);
                        let y = choose|y: i32| #[trigger] before.contains_key(y) && before[y] == x;
                        assert(m@.contains_key(y) && m@[y] == x);
                    }
                    if x == k {
                        assert(used@[past.len() as int] == x);
                        assert(m@.contains_key(id) && m@[id] == x);
                    }
                    if is_used(m@, x) && x != k {
                        let y = choose|y: i32| #[trigger] m@.contains_key(y) && m@[y] == x;
                        assert(before.contains_key(y) && before[y] == x);
                    }
                    if used@.contains(x) && x != k {
                        let j = choose|j: int| 0 <= j < used@.len() && used@[j] == x;
                        assert(past[j] == x);
                    }
                }
            }
        }
        i += 1;
    }
    assert(pairs_of(ranked@).take(i as int) =~= pairs_of(ranked@));
    m
}

/// The largest speaker number among ranges, 0 if there is none.
fn top_speaker(ranges: &Vec<SpeakerRange>) -> (r: u32)
    ensures
        r == max_speaker(ranges@),
{
    let mut top: u32 = 0;
    let mut i: usize = 0;
    assert(ranges@.take(0) =~= Seq::empty());
    while i < ranges.len()
        invariant
            i <= ranges.len(),
            top == max_speaker(ranges@.take(i as int)),
        decreases ranges.len() - i,
    {
        assert(ranges@.take(i + 1).drop_last() =~= ranges@.take(i as int));
        if let SpeakerLabel::Speaker(k) = ranges[i].label {
            if k > top {
                top = k;
            }
        }
        i += 1;
    }
    assert(ranges@.take(i as int) =~= ranges@);
    top
}

/// Maps the raw speaker ids of one pass to stable labels, by taking the best
/// overlaps with the ranges of the previous pass first. The pipeline numbers
/// voices arbitrarily on every pass; without this, "Speaker 2" could be
/// another person after each pass. New voices get fresh labels in order of
/// first appearance.
pub fn remap_speakers(prev: &Vec<SpeakerRange>, segs: &Vec<(u64, u64, i32)>) -> (m: HashMap<
    i32,
    u32,
>)
    requires
        prev@.len() * segs@.len() <= u64::MAX,
        max_speaker(prev@) + 1 + segs@.len() <= u32::MAX,
    ensures
        is_remapping(prev@, segs@, m@),
{
    let tally = tally_votes(prev, segs);
    let ghost counted = tally@;
    let ranked = rank_votes(tally);
    let ghost p = pairs_of(ranked@);
    proof {
        assert forall|i: int| 0 <= i < ranked@.len() implies (#[trigger] ranked@[i]).n == votes(
            prev@,
            segs@,
            ranked@[i].id,
            ranked@[i].k,
        ) && ranked@[i].n > 0 by {
            assert(ranked@.contains(ranked@[i]));
            let j = choose|j: int| 0 <= j < counted.len() && counted[j] == ranked@[i];
            tallied_at(counted, j);
            assert(counted[j].n > 0);
        }
        assert forall|id: i32, k: u32| #[trigger]
            p.contains((id, k)) <==> votes(prev@, segs@, id, k) > 0 by {
            if p.contains((id, k)) {
                let i = choose|i: int| 0 <= i < p.len() && p[i] == (id, k);
                assert(ranked@[i].n > 0);
            }
            if votes(prev@, segs@, id, k) > 0 {
                assert(tallied(counted, id, k) > 0);
                tallied_some(counted, id, k);
                let j = choose|j: int|
                    0 <= j < counted.len() && (#[trigger] counted[j]).id == id && counted[j].k == k;
                assert(counted.contains(counted[j]));
                assert(ranked@.contains(counted[j]));
                let i = choose|i: int| 0 <= i < ranked@.len() && ranked@[i] == counted[j];
                assert(p[i] == (id, k));
            }
        }
        assert forall|i: int, j: int| 0 <= i < j < p.len() implies is_ahead(
            #[trigger] p[i],
            votes(prev@, segs@, p[i].0, p[i].1),
            #[trigger] p[j],
            votes(prev@, segs@, p[j].0, p[j].1),
        ) by {
            assert(ahead(ranked@[i], ranked@[j]));
        }
        assert(is_ranking(prev@, segs@, p));
    }
    let mut m = match_pairs(&ranked);
    let mut next: u32 = top_speaker(prev);
    next += 1;
    let ghost start = next as nat;
    let mut j: usize = 0;
    assert(segs@.take(0) =~= Seq::empty());
    while j < segs.len()
        invariant
            j <= segs.len(),
            start + segs@.len() <= u32::MAX,
            next <= start + j,
            (m@, next as nat) == with_fresh(matched(p), segs@.take(j as int), start),
        decreases segs.len() - j,
    {
        assert(segs@.take(j + 1).drop_last() =~= segs@.take(j as int));
        let id = segs[j].2;
        if !m.contains_key(&id) {
            m.insert(id, next);
            next += 1;
        }
        j += 1;
    }
    assert(segs@.take(j as int) =~= segs@);
    m
}

// ---------------------------------------------------------------------------
// Sample clock
// ---------------------------------------------------------------------------

/// Maps offsets into the retained audio back to session time, even when chunks
/// were withheld.
pub struct SampleClock {
    /// Sample offset and session time of each chunk.
    marks: VecDeque<(u64, u64)>,
    consumed: u64,
}

/// What a [`SampleClock`] holds.
pub struct ClockModel {
    pub marks: Seq<(u64, u64)>,
    pub consumed: u64,
}

impl View for SampleClock {
    type V = ClockModel;

    closed spec fn view(&self) -> ClockModel {
        ClockModel { marks: self.marks@, consumed: self.consumed }
    }
}

/// The latest mark at or before an offset.
pub open spec fn mark_for(marks: Seq<(u64, u64)>, offset: u64) -> (u64, u64)
    decreases marks.len(),
{
    if marks.len() == 0 {
        (0, 0)
    } else if marks.last().0 <= offset {
        marks.last()
    } else {
        mark_for(marks.drop_last(), offset)
    }
}

impl ClockModel {
    pub open spec fn initial() -> ClockModel {
        ClockModel { marks: Seq::empty(), consumed: 0 }
    }

    /// Marks do not go back.
    pub open spec fn wf(self) -> bool {
        &&& forall|i: int, j: int|
            0 <= i < j < self.marks.len() ==> (#[trigger] self.marks[i]).0 <= (
            #[trigger] self.marks[j]).0
        &&& forall|i: int|
            0 <= i < self.marks.len() ==> (#[trigger] self.marks[i]).0 <= self.consumed
        &&& self.marks.len() <= MAX_MARKS
    }

    pub open spec fn pushed(self, len: nat, t_ms: u64) -> ClockModel {
        ClockModel {
            marks: split::newest_items(
                self.marks.push((self.consumed, t_ms)),
                MAX_MARKS as nat,
            ),
            consumed: (self.consumed + len) as u64,
        }
    }

    /// Session time of an offset: that of its chunk, and sixteen samples make
    /// a millisecond.
    pub open spec fn time_of(self, offset: u64) -> nat {
        let (from, ms) = mark_for(self.marks, offset);
        (ms + (offset - from) / 16) as nat
    }
}

proof fn mark_for_bound(marks: Seq<(u64, u64)>, offset: u64)
    ensures
        mark_for(marks, offset).0 <= offset,
    decreases marks.len(),
{
    if marks.len() > 0 {
        mark_for_bound(marks.drop_last(), offset);
    }
}

impl SampleClock {
    pub fn new() -> (c: Self)
        ensures
            c@ == ClockModel::initial(),
            c@.wf(),
    {
        SampleClock { marks: VecDeque::new(), consumed: 0 }
    }

    /// A chunk of `len` samples was retained; it began at `t_ms`.
    pub fn push_chunk(&mut self, len: usize, t_ms: u64)
        requires
            old(self)@.wf(),
            old(self)@.consumed + len <= u64::MAX,
        ensures
            final(self)@.wf(),
            final(self)@ == old(self)@.pushed(len as nat, t_ms),
    {
        let ghost before = self.marks@;
        self.marks.push_back((self.consumed, t_ms));
        self.consumed = self.consumed + len as u64;
        if self.marks.len() > MAX_MARKS {
            let _ = self.marks.pop_front();
        }
        assert(self.marks@ =~= split::newest_items(
            before.push((old(self)@.consumed, t_ms)),
            MAX_MARKS as nat,
        ));
    }

    /// The latest mark at or before an offset.
    fn mark_at(&self, sample_offset: u64) -> (base: (u64, u64))
        requires
            self@.wf(),
        ensures
            base == mark_for(self@.marks, sample_offset),
            base.0 <= sample_offset,
    {
        let mut base: (u64, u64) = (0, 0);
        let mut i: usize = 0;
        assert(self.marks@.take(0) =~= Seq::empty());
        while i < self.marks.len() && self.marks[i].0 <= sample_offset
            invariant
                i <= self.marks@.len(),
                base == mark_for(self.marks@.take(i as int), sample_offset),
            decreases self.marks@.len() - i,
        {
            assert(self.marks@.take(i + 1).drop_last() =~= self.marks@.take(i as int));
            base = self.marks[i];
            i += 1;
        }
        proof {
            mark_for_bound(self.marks@, sample_offset);
            if i < self.marks@.len() {
                marks_behind(self.marks@, sample_offset, i as int);
            } else {
                assert(self.marks@.take(i as int) =~= self.marks@);
            }
        }
        base
    }

    /// Whether the session time of an offset can be told.
    pub fn fits(&self, sample_offset: u64) -> (r: bool)
        requires
            self@.wf(),
        ensures
            r == (self@.time_of(sample_offset) <= u64::MAX),
    {
        let base = self.mark_at(sample_offset);
        (sample_offset - base.0) / 16 <= u64::MAX - base.1
    }

    /// Session time of an offset into the retained audio.
    pub fn to_ms(&self, sample_offset: u64) -> (r: u64)
        requires
            self@.wf(),
            self@.time_of(sample_offset) <= u64::MAX,
        ensures
            r == self@.time_of(sample_offset),
    {
        let base = self.mark_at(sample_offset);
        base.1 + (sample_offset - base.0) / 16
    }
}

/// Marks behind an offset do not count.
proof fn marks_behind(marks: Seq<(u64, u64)>, offset: u64, i: int)
    requires
        0 <= i < marks.len(),
        forall|a: int, b: int|
            0 <= a < b < marks.len() ==> (#[trigger] marks[a]).0 <= (#[trigger] marks[b]).0,
        marks[i].0 > offset,
    ensures
        mark_for(marks, offset) == mark_for(marks.take(i), offset),
    decreases marks.len(),
{
    let n = marks.len() - 1;
    if i < n {
        assert(marks[i].0 <= marks[n].0);
        let init = marks.drop_last();
        assert forall|a: int, b: int| 0 <= a < b < init.len() implies (#[trigger] init[a]).0 <= (
        #[trigger] init[b]).0 by {
            assert(marks[a].0 <= marks[b].0);
        }
        marks_behind(init, offset, i);
        assert(init.take(i) =~= marks.take(i));
    } else {
        assert(marks.drop_last() =~= marks.take(i));
    }
}

// ---------------------------------------------------------------------------
// Core
// ---------------------------------------------------------------------------

/// The timeline looks speakers up through this, so that it does not matter
/// where the ranges come from.
pub trait SpeakerLookup {
    /// The ranges that speakers are looked up in.
    spec fn spans(&self) -> Seq<SpeakerRange>;

    fn label_for_span(&self, start_ms: u64, end_ms: u64) -> (r: Option<SpeakerLabel>)
        ensures
            is_label_of(self.spans(), start_ms, end_ms, r),
    ;
}

/// A finished stretch of speech.
pub struct Segment {
    pub samples: Vec<i16>,
    pub start_ms: u64,
    pub end_ms: u64,
}

/// What is to be done outside before the diarizer can go on.
pub enum Work {
    Nothing,
    /// Run the pipeline over all retained audio, then [`DiarizerCore::finish_pass`].
    RunPass,
    /// Compare the voice of a segment with the voices known, then
    /// [`DiarizerCore::place`].
    Embed(Segment),
}

/// A [`Work`] by its samples.
pub enum WorkModel {
    Nothing,
    RunPass,
    Embed(Seq<i16>, u64, u64),
}

impl View for Work {
    type V = WorkModel;

    open spec fn view(&self) -> WorkModel {
        match self {
            Work::Nothing => WorkModel::Nothing,
            Work::RunPass => WorkModel::RunPass,
            Work::Embed(s) => WorkModel::Embed(s.samples@, s.start_ms, s.end_ms),
        }
    }
}

/// Where a segment was placed: in a known voice, or in a new one.
#[derive(Debug, Clone, Copy, PartialEq, Eq, Structural)]
pub enum Placement {
    Joined(u32),
    Founded(u32),
}

/// The voice that a segment is most similar to, the first such, and whether it
/// is similar enough: `sims` are the similarities to the voices known, as
/// integers that are ordered as the measured ones are.
pub fn nearest_voice(sims: &Vec<i64>, join: i64) -> (r: Option<(u32, bool)>)
    requires
        sims@.len() <= u32::MAX,
    ensures
        r is None <==> sims@.len() == 0,
        r matches Some((c, similar)) ==> {
            &&& c < sims@.len()
            &&& forall|j: int| 0 <= j < sims@.len() ==> #[trigger] sims@[j] <= sims@[c as int]
            &&& forall|j: int| 0 <= j < c ==> #[trigger] sims@[j] < sims@[c as int]
            &&& similar == (sims@[c as int] >= join)
        },
{
    if sims.len() == 0 {
        return None;
    }
    let mut best: usize = 0;
    let mut i: usize = 1;
    while i < sims.len()
        invariant
            best < i <= sims@.len(),
            forall|j: int| 0 <= j < i ==> #[trigger] sims@[j] <= sims@[best as int],
            forall|j: int| 0 <= j < best ==> #[trigger] sims@[j] < sims@[best as int],
        decreases sims@.len() - i,
    {
        if sims[i] > sims[best] {
            best = i;
        }
        i += 1;
    }
    Some((best as u32, sims[best] >= join))
}

enum Backend {
    Models { buffer: Vec<i16>, clock: SampleClock },
    Fallback {
        seg_samples: Vec<i16>,
        seg_start_ms: Option<u64>,
        seg_last_speech_ms: u64,
        clusters: u32,
    },
}

/// What the two ways of diarizing hold.
pub enum BackendModel {
    /// All retained audio, and when it was heard.
    Models { buffer: Seq<i16>, clock: ClockModel },
    /// The segment that is still open, and the number of voices known.
    Fallback { samples: Seq<i16>, start_ms: Option<u64>, last_speech_ms: u64, clusters: u32 },
}

impl View for Backend {
    type V = BackendModel;

    closed spec fn view(&self) -> BackendModel {
        match self {
            Backend::Models { buffer, clock } => BackendModel::Models {
                buffer: buffer@,
                clock: clock@,
            },
            Backend::Fallback { seg_samples, seg_start_ms, seg_last_speech_ms, clusters } =>
            BackendModel::Fallback {
                samples: seg_samples@,
                start_ms: *seg_start_ms,
                last_speech_ms: *seg_last_speech_ms,
                clusters: *clusters,
            },
        }
    }
}

/// The diarizer of one meeting.
pub struct DiarizerCore {
    backend: Backend,
    ranges: Vec<SpeakerRange>,
    /// Bumped whenever ranges change; labels that were already shown are to be
    /// looked up again.
    version: u64,
    /// Retained audio at the last pass.
    last_pass_audio_ms: u64,
    /// Gap between passes, which grows with their cost.
    pass_interval_ms: u64,
}

/// What a [`DiarizerCore`] holds.
pub struct CoreModel {
    pub backend: BackendModel,
    pub ranges: Seq<SpeakerRange>,
    pub version: u64,
    pub last_pass_audio_ms: u64,
    pub pass_interval_ms: u64,
}

impl View for DiarizerCore {
    type V = CoreModel;

    closed spec fn view(&self) -> CoreModel {
        CoreModel {
            backend: self.backend@,
            ranges: self.ranges@,
            version: self.version,
            last_pass_audio_ms: self.last_pass_audio_ms,
            pass_interval_ms: self.pass_interval_ms,
        }
    }
}

/// The gap to the next pass after one that took `cost_ms`.
pub open spec fn interval_after(cost_ms: u64) -> u64 {
    if cost_ms * PASS_COST_FACTOR < MIN_PASS_INTERVAL_MS {
        MIN_PASS_INTERVAL_MS
    } else if cost_ms * PASS_COST_FACTOR > MAX_PASS_INTERVAL_MS {
        MAX_PASS_INTERVAL_MS
    } else {
        (cost_ms * PASS_COST_FACTOR) as u64
    }
}

/// The segments of a pass in session time; what has no length is dropped.
pub open spec fn timed(clock: ClockModel, raw: Seq<(u64, u64, i32)>) -> Seq<(u64, u64, i32)>
    decreases raw.len(),
{
    if raw.len() == 0 {
        Seq::empty()
    } else {
        let done = timed(clock, raw.drop_last());
        let (from, to, id) = raw.last();
        if clock.time_of(to) > clock.time_of(from) {
            done.push((clock.time_of(from) as u64, clock.time_of(to) as u64, id))
        } else {
            done
        }
    }
}

/// Segments with the labels of their ids.
pub open spec fn labelled(segs: Seq<(u64, u64, i32)>, m: Map<i32, u32>) -> Seq<SpeakerRange> {
    Seq::new(
        segs.len(),
        |i: int|
            SpeakerRange {
                start_ms: segs[i].0,
                end_ms: segs[i].1,
                label: SpeakerLabel::Speaker(m[segs[i].2]),
            },
    )
}

impl CoreModel {
    pub open spec fn initial(backend: BackendModel) -> CoreModel {
        CoreModel {
            backend,
            ranges: Seq::empty(),
            version: 0,
            last_pass_audio_ms: 0,
            pass_interval_ms: MIN_PASS_INTERVAL_MS,
        }
    }

    pub open spec fn wf(self) -> bool {
        &&& MIN_PASS_INTERVAL_MS <= self.pass_interval_ms <= MAX_PASS_INTERVAL_MS
        &&& match self.backend {
            BackendModel::Models { buffer, clock } => clock.wf() && buffer.len()
                <= MAX_BUFFER_SAMPLES,
            BackendModel::Fallback { clusters, .. } => clusters <= MAX_CLUSTERS,
        }
    }

    /// The clock and the segment can take `len` samples at `t_ms`.
    pub open spec fn takes(self, len: nat, t_ms: u64) -> bool {
        match self.backend {
            BackendModel::Models { clock, .. } => clock.consumed + len <= u64::MAX,
            BackendModel::Fallback { .. } => t_ms + len / 16 <= u64::MAX,
        }
    }

    /// The open segment is closed; a short one is noise.
    pub open spec fn closed(self) -> (CoreModel, WorkModel) {
        match self.backend {
            BackendModel::Fallback { samples, start_ms: Some(start), last_speech_ms, clusters } => (
                CoreModel {
                    backend: BackendModel::Fallback {
                        samples: Seq::empty(),
                        start_ms: None,
                        last_speech_ms,
                        clusters,
                    },
                    ..self
                },
                if start + MIN_SEGMENT_MS <= last_speech_ms {
                    WorkModel::Embed(samples, start, last_speech_ms)
                } else {
                    WorkModel::Nothing
                },
            ),
            _ => (self, WorkModel::Nothing),
        }
    }

    /// A chunk of remote audio came in; `loud` tells whether someone spoke.
    pub open spec fn pushed(self, chunk: Seq<i16>, loud: bool, t_ms: u64) -> (CoreModel, WorkModel) {
        match self.backend {
            BackendModel::Models { buffer, clock } => {
                let kept = if buffer.len() + chunk.len() <= MAX_BUFFER_SAMPLES {
                    buffer + chunk
                } else {
                    buffer
                };
                (
                    CoreModel {
                        backend: BackendModel::Models {
                            buffer: kept,
                            clock: clock.pushed(chunk.len(), t_ms),
                        },
                        ..self
                    },
                    if kept.len() / 16 >= self.last_pass_audio_ms + self.pass_interval_ms {
                        WorkModel::RunPass
                    } else {
                        WorkModel::Nothing
                    },
                )
            },
            BackendModel::Fallback { samples, start_ms, last_speech_ms, clusters } => {
                if loud {
                    (
                        CoreModel {
                            backend: BackendModel::Fallback {
                                samples: samples + chunk,
                                start_ms: if start_ms is Some {
                                    start_ms
                                } else {
                                    Some(t_ms)
                                },
                                last_speech_ms: (t_ms + chunk.len() / 16) as u64,
                                clusters,
                            },
                            ..self
                        },
                        WorkModel::Nothing,
                    )
                } else if start_ms is Some && t_ms >= last_speech_ms + FB_SILENCE_CLOSE_MS {
                    self.closed()
                } else {
                    (self, WorkModel::Nothing)
                }
            },
        }
    }

    /// The pass can be finished with these segments.
    pub open spec fn finishes(self, raw: Option<Seq<(u64, u64, i32)>>) -> bool {
        match (self.backend, raw) {
            (BackendModel::Models { clock, .. }, Some(r)) => {
                &&& self.ranges.len() * r.len() <= u64::MAX
                &&& max_speaker(self.ranges) + 1 + r.len() <= u32::MAX
                &&& self.version < u64::MAX
                &&& forall|i: int|
                    0 <= i < r.len() ==> clock.time_of((#[trigger] r[i]).0) <= u64::MAX
                        && clock.time_of(r[i].1) <= u64::MAX
            },
            _ => true,
        }
    }

    /// `n` is the diarizer after a pass: all ranges are replaced by those of
    /// the pass, or kept where it gave no result.
    pub open spec fn is_passed(
        self,
        raw: Option<Seq<(u64, u64, i32)>>,
        cost_ms: u64,
        n: CoreModel,
    ) -> bool {
        match self.backend {
            BackendModel::Models { buffer, clock } => if buffer.len() == 0 {
                n == self
            } else {
                let m = CoreModel {
                    last_pass_audio_ms: (buffer.len() / 16) as u64,
                    pass_interval_ms: interval_after(cost_ms),
                    ..self
                };
                match raw {
                    None => n == m,
                    Some(r) => exists|map: Map<i32, u32>|
                        {
                            &&& #[trigger] is_remapping(self.ranges, timed(clock, r), map)
                            &&& n == (CoreModel {
                                ranges: labelled(timed(clock, r), map),
                                version: (self.version + 1) as u64,
                                ..m
                            })
                        },
                }
            },
            _ => n == self,
        }
    }
}

/// The segments of a pass in session time.
fn to_session_time(clock: &SampleClock, raw: &Vec<(u64, u64, i32)>) -> (out: Vec<(u64, u64, i32)>)
    requires
        clock@.wf(),
        forall|i: int|
            0 <= i < raw@.len() ==> clock@.time_of((#[trigger] raw@[i]).0) <= u64::MAX
                && clock@.time_of(raw@[i].1) <= u64::MAX,
    ensures
        out@ == timed(clock@, raw@),
        out@.len() <= raw@.len(),
{
    let mut out: Vec<(u64, u64, i32)> = Vec::new();
    let mut i: usize = 0;
    assert(raw@.take(0) =~= Seq::empty());
    while i < raw.len()
        invariant
            i <= raw.len(),
            clock@.wf(),
            forall|i: int|
                0 <= i < raw@.len() ==> clock@.time_of((#[trigger] raw@[i]).0) <= u64::MAX
                    && clock@.time_of(raw@[i].1) <= u64::MAX,
            out@ == timed(clock@, raw@.take(i as int)),
            out@.len() <= i,
        decreases raw.len() - i,
    {
        assert(raw@.take(i + 1).drop_last() =~= raw@.take(i as int));
        let (from, to, id) = raw[i];
        assert(clock@.time_of(raw@[i as int].0) <= u64::MAX);
        let a = clock.to_ms(from);
        let b = clock.to_ms(to);
        if b > a {
            out.push((a, b, id));
        }
        i += 1;
    }
    assert(raw@.take(i as int) =~= raw@);
    out
}

/// Every id that occurs is mapped.
proof fn fresh_maps_all(m: Map<i32, u32>, segs: Seq<(u64, u64, i32)>, next: nat)
    ensures
        forall|i: int|
            0 <= i < segs.len() ==> with_fresh(m, segs, next).0.contains_key((#[trigger] segs[i]).2),
        forall|id: i32| #[trigger]
            m.contains_key(id) ==> with_fresh(m, segs, next).0.contains_key(id)
                && with_fresh(m, segs, next).0[id] == m[id],
    decreases segs.len(),
{
    if segs.len() > 0 {
        let init = segs.drop_last();
        fresh_maps_all(m, init, next);
        assert forall|i: int| 0 <= i < segs.len() implies with_fresh(
            m,
            segs,
            next,
        ).0.contains_key((#[trigger] segs[i]).2) by {
            if i < init.len() {
                assert(init[i] == segs[i]);
            }
        }
    }
}

/// Segments with the labels of their ids.
fn label_segments(segs: &Vec<(u64, u64, i32)>, m: &HashMap<i32, u32>) -> (out: Vec<SpeakerRange>)
    requires
        forall|i: int| 0 <= i < segs@.len() ==> m@.contains_key((#[trigger] segs@[i]).2),
    ensures
        out@ == labelled(segs@, m@),
{
    let mut out: Vec<SpeakerRange> = Vec::new();
    let mut i: usize = 0;
    while i < segs.len()
        invariant
            i <= segs.len(),
            out@ =~= labelled(segs@, m@).take(i as int),
            forall|i: int| 0 <= i < segs@.len() ==> m@.contains_key((#[trigger] segs@[i]).2),
        decreases segs.len() - i,
    {
        let (start_ms, end_ms, id) = segs[i];
        assert(m@.contains_key(segs@[i as int].2));
        if let Some(k) = m.get(&id) {
            out.push(SpeakerRange { start_ms, end_ms, label: SpeakerLabel::Speaker(*k) });
        }
        i += 1;
    }
    out
}

/// The items of `a` and then of `b`.
fn extend(a: &mut Vec<i16>, b: &Vec<i16>)
    ensures
        final(a)@ == old(a)@ + b@,
{
    let mut i: usize = 0;
    assert(old(a)@ + b@.take(0) =~= old(a)@);
    while i < b.len()
        invariant
            i <= b.len(),
            a@ == old(a)@ + b@.take(i as int),
        decreases b.len() - i,
    {
        assert(old(a)@ + b@.take(i + 1) =~= (old(a)@ + b@.take(i as int)).push(b@[i as int]));
        a.push(b[i]);
        i += 1;
    }
    assert(b@.take(i as int) =~= b@);
}

impl DiarizerCore {
    /// A diarizer that runs the model pipeline.
    pub fn new_models() -> (c: Self)
        ensures
            c@ == CoreModel::initial(
                BackendModel::Models { buffer: Seq::empty(), clock: ClockModel::initial() },
            ),
            c@.wf(),
    {
        DiarizerCore {
            backend: Backend::Models { buffer: Vec::new(), clock: SampleClock::new() },
            ranges: Vec::new(),
            version: 0,
            last_pass_audio_ms: 0,
            pass_interval_ms: MIN_PASS_INTERVAL_MS,
        }
    }

    /// A diarizer that does without models.
    pub fn new_fallback() -> (c: Self)
        ensures
            c@ == CoreModel::initial(
                BackendModel::Fallback {
                    samples: Seq::empty(),
                    start_ms: None,
                    last_speech_ms: 0,
                    clusters: 0,
                },
            ),
            c@.wf(),
    {
        DiarizerCore {
            backend: Backend::Fallback {
                seg_samples: Vec::new(),
                seg_start_ms: None,
                seg_last_speech_ms: 0,
                clusters: 0,
            },
            ranges: Vec::new(),
            version: 0,
            last_pass_audio_ms: 0,
            pass_interval_ms: MIN_PASS_INTERVAL_MS,
        }
    }

    /// Whether a chunk of `len` samples at `t_ms` can be taken.
    pub fn can_take(&self, len: usize, t_ms: u64) -> (r: bool)
        ensures
            r == self@.takes(len as nat, t_ms),
    {
        match &self.backend {
            Backend::Models { clock, .. } => len as u64 <= u64::MAX - clock.consumed,
            Backend::Fallback { .. } => (len / 16) as u64 <= u64::MAX - t_ms,
        }
    }

    /// A chunk of remote audio came in; `loud` tells whether someone spoke.
    pub fn push_chunk(&mut self, samples: &Vec<i16>, loud: bool, t_ms: u64) -> (w: Work)
        requires
            old(self)@.wf(),
            old(self)@.takes(samples@.len(), t_ms),
        ensures
            final(self)@.wf(),
            (final(self)@, w@) == old(self)@.pushed(samples@, loud, t_ms),
    {
        let len = samples.len();
        let due_at: u128 = self.last_pass_audio_ms as u128 + self.pass_interval_ms as u128;
        match &mut self.backend {
            Backend::Models { buffer, clock } => {
                clock.push_chunk(len, t_ms);
                if len <= MAX_BUFFER_SAMPLES - buffer.len() {
                    extend(buffer, samples);
                }
                if (buffer.len() / 16) as u128 >= due_at {
                    return Work::RunPass;
                }
                Work::Nothing
            },
            Backend::Fallback { seg_samples, seg_start_ms, seg_last_speech_ms, .. } => {
                if loud {
                    if seg_start_ms.is_none() {
                        *seg_start_ms = Some(t_ms);
                    }
                    extend(seg_samples, samples);
                    *seg_last_speech_ms = t_ms + (len / 16) as u64;
                    return Work::Nothing;
                }
                if seg_start_ms.is_some() && t_ms >= *seg_last_speech_ms && t_ms
                    - *seg_last_speech_ms >= FB_SILENCE_CLOSE_MS {
                    return self.close_segment();
                }
                Work::Nothing
            },
        }
    }

    /// Closes the open segment, if there is one.
    fn close_segment(&mut self) -> (w: Work)
        requires
            old(self)@.wf(),
        ensures
            final(self)@.wf(),
            (final(self)@, w@) == old(self)@.closed(),
    {
        match &mut self.backend {
            Backend::Fallback { seg_samples, seg_start_ms, seg_last_speech_ms, .. } => {
                match *seg_start_ms {
                    Some(start_ms) => {
                        let end_ms = *seg_last_speech_ms;
                        let mut samples: Vec<i16> = Vec::new();
                        std::mem::swap(&mut samples, seg_samples);
                        *seg_start_ms = None;
                        if end_ms >= start_ms && end_ms - start_ms >= MIN_SEGMENT_MS {
                            Work::Embed(Segment { samples, start_ms, end_ms })
                        } else {
                            Work::Nothing
                        }
                    },
                    None => Work::Nothing,
                }
            },
            Backend::Models { .. } => Work::Nothing,
        }
    }

    /// The meeting is over: what is left to do before
    /// [`DiarizerCore::finished`].
    pub fn finish(&mut self) -> (w: Work)
        requires
            old(self)@.wf(),
        ensures
            final(self)@.wf(),
            old(self)@.backend is Models ==> final(self)@ == old(self)@ && w@
                == WorkModel::RunPass,
            old(self)@.backend is Fallback ==> (final(self)@, w@) == old(self)@.closed(),
    {
        match &self.backend {
            Backend::Models { .. } => Work::RunPass,
            Backend::Fallback { .. } => self.close_segment(),
        }
    }

    /// Labels are looked up once more at the end.
    pub fn finished(&mut self)
        requires
            old(self)@.wf(),
            old(self)@.version < u64::MAX,
        ensures
            final(self)@.wf(),
            final(self)@ == (CoreModel { version: (old(self)@.version + 1) as u64, ..old(self)@ }),
    {
        self.version = self.version + 1;
    }

    /// All retained audio, for a pass.
    pub fn retained(&self) -> (r: Option<&Vec<i16>>)
        ensures
            match self@.backend {
                BackendModel::Models { buffer, .. } => r matches Some(v) && v@ == buffer,
                BackendModel::Fallback { .. } => r is None,
            },
    {
        match &self.backend {
            Backend::Models { buffer, .. } => Some(buffer),
            Backend::Fallback { .. } => None,
        }
    }

    /// Whether a pass can be finished with these segments.
    pub fn can_finish(&self, raw: &Vec<(u64, u64, i32)>) -> (r: bool)
        requires
            self@.wf(),
        ensures
            r == self@.finishes(Some(raw@)),
    {
        match &self.backend {
            Backend::Fallback { .. } => true,
            Backend::Models { clock, .. } => {
                let n = raw.len();
                let have = self.ranges.len();
                assert(have * n <= u128::MAX) by (nonlinear_arith)
                    requires
                        have <= usize::MAX,
                        n <= usize::MAX,
                ;
                if self.version == u64::MAX || have as u128 * n as u128
                    > u64::MAX as u128 || top_speaker(&self.ranges) as u128 + 1 + n as u128
                    > u32::MAX as u128 {
                    return false;
                }
                let mut i: usize = 0;
                while i < n
                    invariant
                        i <= n,
                        n == raw.len(),
                        clock@.wf(),
                        self@.backend matches BackendModel::Models { clock: c, .. } && c == clock@,
                        forall|k: int|
                            0 <= k < i ==> clock@.time_of((#[trigger] raw@[k]).0) <= u64::MAX
                                && clock@.time_of(raw@[k].1) <= u64::MAX,
                    decreases n - i,
                {
                    let (from, to, _) = raw[i];
                    if !clock.fits(from) || !clock.fits(to) {
                        assert(clock@.time_of(raw@[i as int].0) > u64::MAX || clock@.time_of(
                            raw@[i as int].1,
                        ) > u64::MAX);
                        return false;
                    }
                    i += 1;
                }
                true
            },
        }
    }

    /// A pass took `cost_ms` and gave these segments (sample offsets and raw
    /// ids, in order of their start), or no result.
    pub fn finish_pass(&mut self, raw: Option<Vec<(u64, u64, i32)>>, cost_ms: u64)
        requires
            old(self)@.wf(),
            old(self)@.finishes(
                match raw {
                    Some(v) => Some(v@),
                    None => None,
                },
            ),
        ensures
            final(self)@.wf(),
            old(self)@.is_passed(
                match raw {
                    Some(v) => Some(v@),
                    None => None,
                },
                cost_ms,
                final(self)@,
            ),
    {
        let audio_ms: u64 = match &self.backend {
            Backend::Models { buffer, .. } => if buffer.len() == 0 {
                return ;
            } else {
                (buffer.len() / 16) as u64
            },
            Backend::Fallback { .. } => {
                return ;
            },
        };
        if let (Some(raw), Backend::Models { clock, .. }) = (&raw, &self.backend) {
            let segs = to_session_time(clock, raw);
            assert(self.ranges@.len() * segs@.len() <= self.ranges@.len() * raw@.len())
                by (nonlinear_arith)
                requires
                    segs@.len() <= raw@.len(),
            ;
            let map = remap_speakers(&self.ranges, &segs);
            proof {
                let p = choose|p: Seq<(i32, u32)>|
                    #[trigger] is_ranking(self.ranges@, segs@, p) && map@ == with_fresh(
                        matched(p),
                        segs@,
                        max_speaker(self.ranges@) + 1,
                    ).0;
                fresh_maps_all(matched(p), segs@, max_speaker(self.ranges@) + 1);
            }
            self.ranges = label_segments(&segs, &map);
            self.version = self.version + 1;
        }
        self.last_pass_audio_ms = audio_ms;
        self.pass_interval_ms = if cost_ms < MIN_PASS_INTERVAL_MS / PASS_COST_FACTOR {
            MIN_PASS_INTERVAL_MS
        } else if cost_ms > MAX_PASS_INTERVAL_MS / PASS_COST_FACTOR {
            MAX_PASS_INTERVAL_MS
        } else {
            cost_ms * PASS_COST_FACTOR
        };
    }

    /// A segment was compared with the voices known: `nearest` is the most
    /// similar one and whether it is similar enough. The segment joins it, or
    /// starts a new voice while there is room for one.
    pub fn place(&mut self, start_ms: u64, end_ms: u64, nearest: Option<(u32, bool)>) -> (r:
        Placement)
        requires
            old(self)@.wf(),
            old(self)@.version < u64::MAX,
            old(self)@.backend matches BackendModel::Fallback { clusters, .. } && (
            nearest matches Some((c, _)) ==> c < clusters) && (nearest is None ==> clusters == 0),
        ensures
            final(self)@.wf(),
            ({
                let clusters = old(self)@.backend->clusters;
                let joins = nearest matches Some((_, similar)) && (similar || clusters
                    >= MAX_CLUSTERS);
                let voice = if joins {
                    (nearest->0).0
                } else {
                    clusters
                };
                &&& r == if joins {
                    Placement::Joined(voice)
                } else {
                    Placement::Founded(voice)
                }
                &&& final(self)@ == (CoreModel {
                    backend: BackendModel::Fallback {
                        samples: old(self)@.backend->samples,
                        start_ms: old(self)@.backend->start_ms,
                        last_speech_ms: old(self)@.backend->last_speech_ms,
                        clusters: if joins {
                            clusters
                        } else {
                            (clusters + 1) as u32
                        },
                    },
                    ranges: old(self)@.ranges.push(
                        SpeakerRange {
                            start_ms,
                            end_ms,
                            label: SpeakerLabel::Speaker((voice + 1) as u32),
                        },
                    ),
                    version: (old(self)@.version + 1) as u64,
                    ..old(self)@
                })
            }),
    {
        let r = match &mut self.backend {
            Backend::Fallback { clusters, .. } => match nearest {
                Some((c, similar)) if similar || *clusters >= MAX_CLUSTERS => Placement::Joined(c),
                _ => {
                    let c = *clusters;
                    *clusters = c + 1;
                    Placement::Founded(c)
                },
            },
            Backend::Models { .. } => Placement::Founded(0),
        };
        let voice: u32 = match r {
            Placement::Joined(c) => c,
            Placement::Founded(c) => c,
        };
        self.ranges.push(
            SpeakerRange { start_ms, end_ms, label: SpeakerLabel::Speaker(voice + 1) },
        );
        self.version = self.version + 1;
        r
    }

    /// Changes whenever labels are to be looked up again.
    pub fn version(&self) -> (r: u64)
        ensures
            r == self@.version,
    {
        self.version
    }

    /// The ranges so far.
    pub fn ranges(&self) -> (r: &Vec<SpeakerRange>)
        ensures
            r@ == self@.ranges,
    {
        &self.ranges
    }

    /// Number of ranges and the label of the newest one.
    pub fn latest_range(&self) -> (r: Option<(usize, SpeakerLabel)>)
        ensures
            r == if self@.ranges.len() == 0 {
                None
            } else {
                Some((self@.ranges.len() as usize, self@.ranges.last().label))
            },
    {
        let n = self.ranges.len();
        if n == 0 {
            None
        } else {
            Some((n, self.ranges[n - 1].label))
        }
    }
}

impl SpeakerLookup for DiarizerCore {
    closed spec fn spans(&self) -> Seq<SpeakerRange> {
        self.ranges@
    }

    fn label_for_span(&self, start_ms: u64, end_ms: u64) -> (r: Option<SpeakerLabel>)
        ensures
            is_label_of(self@.ranges, start_ms, end_ms, r),
    {
        label_for_span_in(&self.ranges, start_ms, end_ms)
    }
}

} // verus!
