//! What holds of speaker labels and of the diarizer.
use vstd::prelude::*;
use crate::diarization;
use crate::diarization::{BackendModel, ClockModel, CoreModel, SpeakerLabel, SpeakerRange,
    WorkModel};
use crate::text;
use crate::text_laws;

verus! {

/// Different labels are shown differently.
pub proof fn labels_are_shown_apart(a: SpeakerLabel, b: SpeakerLabel)
    requires
        a.shown() == b.shown(),
    ensures
        a == b,
{
    reveal_strlit("You");
    reveal_strlit("Speaker ");
    reveal_strlit("Meeting");
    reveal_strlit("Multiple speakers");
    assert("You"@.len() == 3 && "Meeting"@.len() == 7 && "Multiple speakers"@.len() == 17);
    match (a, b) {
        (SpeakerLabel::Speaker(x), SpeakerLabel::Speaker(y)) => {
            assert(a.shown().skip(8) =~= text::decimal(x as nat));
            assert(b.shown().skip(8) =~= text::decimal(y as nat));
            text_laws::decimal_injective(x as nat, y as nat);
        },
        (SpeakerLabel::Speaker(x), _) => {
            text_laws::decimal_is_digits(x as nat);
            assert(a.shown()[0] == 'S');
            assert(b.shown()[0] != 'S');
        },
        (_, SpeakerLabel::Speaker(y)) => {
            assert(a.shown()[0] != 'S');
            assert(b.shown()[0] == 'S');
        },
        _ => {
            assert(a.shown().len() == b.shown().len());
        },
    }
}

proof fn lone_time(ranges: Seq<SpeakerRange>, l: SpeakerLabel, start_ms: u64, end_ms: u64)
    requires
        forall|i: int|
            0 <= i < ranges.len() && diarization::within(#[trigger] ranges[i], start_ms, end_ms)
                > 0 ==> ranges[i].label == l,
    ensures
        diarization::time_of(ranges, l, start_ms, end_ms) == diarization::total_within(
            ranges,
            start_ms,
            end_ms,
        ),
    decreases ranges.len(),
{
    if ranges.len() > 0 {
        let rest = ranges.drop_last();
        assert forall|i: int|
            0 <= i < rest.len() && diarization::within(#[trigger] rest[i], start_ms, end_ms)
                > 0 implies rest[i].label == l by {
            assert(rest[i] == ranges[i]);
        }
        lone_time(rest, l, start_ms, end_ms);
        assert(ranges.last() == ranges[ranges.len() - 1]);
    }
}

proof fn times_add_up(
    ranges: Seq<SpeakerRange>,
    a: SpeakerLabel,
    b: SpeakerLabel,
    start_ms: u64,
    end_ms: u64,
)
    requires
        a != b,
    ensures
        diarization::time_of(ranges, a, start_ms, end_ms) + diarization::time_of(
            ranges,
            b,
            start_ms,
            end_ms,
        ) <= diarization::total_within(ranges, start_ms, end_ms),
    decreases ranges.len(),
{
    if ranges.len() > 0 {
        times_add_up(ranges.drop_last(), a, b, start_ms, end_ms);
    }
}

proof fn heard_somewhere(ranges: Seq<SpeakerRange>, l: SpeakerLabel, start_ms: u64, end_ms: u64)
    requires
        diarization::time_of(ranges, l, start_ms, end_ms) > 0,
    ensures
        exists|i: int|
            0 <= i < ranges.len() && diarization::within(#[trigger] ranges[i], start_ms, end_ms)
                > 0 && ranges[i].label == l,
    decreases ranges.len(),
{
    let rest = ranges.drop_last();
    let last = ranges.len() - 1;
    if ranges[last].label == l && diarization::within(ranges[last], start_ms, end_ms) > 0 {
    } else {
        heard_somewhere(rest, l, start_ms, end_ms);
        let i = choose|i: int|
            0 <= i < rest.len() && diarization::within(#[trigger] rest[i], start_ms, end_ms) > 0
                && rest[i].label == l;
        assert(ranges[i] == rest[i]);
    }
}

/// A span in which everyone has one label has that label.
pub proof fn lone_speaker_is_named(
    ranges: Seq<SpeakerRange>,
    start_ms: u64,
    end_ms: u64,
    l: SpeakerLabel,
    r: Option<SpeakerLabel>,
)
    requires
        forall|i: int|
            0 <= i < ranges.len() && diarization::within(#[trigger] ranges[i], start_ms, end_ms)
                > 0 ==> ranges[i].label == l,
        diarization::total_within(ranges, start_ms, end_ms) > 0,
        diarization::is_label_of(ranges, start_ms, end_ms, r),
    ensures
        r == Some(l),
{
    lone_time(ranges, l, start_ms, end_ms);
}

/// A speaker with seven tenths of a span gives it its label, in however many
/// pieces.
pub proof fn dominant_speaker_is_named(
    ranges: Seq<SpeakerRange>,
    start_ms: u64,
    end_ms: u64,
    l: SpeakerLabel,
    r: Option<SpeakerLabel>,
)
    requires
        diarization::total_within(ranges, start_ms, end_ms) > 0,
        10 * diarization::time_of(ranges, l, start_ms, end_ms) >= 7 * diarization::total_within(
            ranges,
            start_ms,
            end_ms,
        ),
        diarization::is_label_of(ranges, start_ms, end_ms, r),
    ensures
        r == Some(l),
{
    heard_somewhere(ranges, l, start_ms, end_ms);
    let k = choose|k: int|
        0 <= k < ranges.len() && diarization::within(#[trigger] ranges[k], start_ms, end_ms) > 0
            && ranges[k].label == l;
    assert forall|i: int| #[trigger] diarization::is_top(ranges, start_ms, end_ms, i) implies
        ranges[i].label == l by {
        assert(diarization::within(ranges[k], start_ms, end_ms) > 0);
        if ranges[i].label != l {
            times_add_up(ranges, ranges[i].label, l, start_ms, end_ms);
        }
    }
}

/// Several speakers in one span of whom none has seven tenths are shown as
/// several.
pub proof fn overlap_is_shown(
    ranges: Seq<SpeakerRange>,
    start_ms: u64,
    end_ms: u64,
    r: Option<SpeakerLabel>,
)
    requires
        diarization::total_within(ranges, start_ms, end_ms) > 0,
        forall|l: SpeakerLabel|
            10 * #[trigger] diarization::time_of(ranges, l, start_ms, end_ms) < 7
                * diarization::total_within(ranges, start_ms, end_ms),
        diarization::is_label_of(ranges, start_ms, end_ms, r),
    ensures
        r == Some(SpeakerLabel::MultipleSpeakers),
{
}

// ---------------------------------------------------------------------------
// Identity
// ---------------------------------------------------------------------------

/// No two ids have one label.
pub open spec fn is_injective(m: Map<i32, u32>) -> bool {
    forall|a: i32, b: i32|
        #![trigger m.contains_key(a), m.contains_key(b)]
        m.contains_key(a) && m.contains_key(b) && m[a] == m[b] ==> a == b
}

proof fn matched_is_injective(p: Seq<(i32, u32)>)
    ensures
        is_injective(diarization::matched(p)),
        forall|id: i32| #[trigger]
            diarization::matched(p).contains_key(id) ==> p.contains(
                (id, diarization::matched(p)[id]),
            ),
    decreases p.len(),
{
    if p.len() > 0 {
        let q = p.drop_last();
        matched_is_injective(q);
        let m = diarization::matched(q);
        let n = diarization::matched(p);
        let (id, k) = p.last();
        assert(p[p.len() - 1] == (id, k));
        assert forall|x: i32| #[trigger] n.contains_key(x) implies p.contains((x, n[x])) by {
            if m.contains_key(x) {
                assert(q.contains((x, m[x])));
                let i = choose|i: int| 0 <= i < q.len() && q[i] == (x, m[x]);
                assert(p[i] == (x, m[x]));
            }
        }
    }
}

proof fn votes_need_range(
    prev: Seq<SpeakerRange>,
    segs: Seq<(u64, u64, i32)>,
    id: i32,
    k: u32,
)
    requires
        diarization::votes(prev, segs, id, k) > 0,
    ensures
        k <= diarization::max_speaker(prev),
    decreases segs.len(),
{
    let (s, e, i) = segs.last();
    if diarization::votes(prev, segs.drop_last(), id, k) > 0 {
        votes_need_range(prev, segs.drop_last(), id, k);
    } else {
        span_votes_need_range(prev, s, e, k);
    }
}

proof fn span_votes_need_range(prev: Seq<SpeakerRange>, s: u64, e: u64, k: u32)
    requires
        diarization::span_votes(prev, s, e, k) > 0,
    ensures
        k <= diarization::max_speaker(prev),
    decreases prev.len(),
{
    if diarization::span_votes(prev.drop_last(), s, e, k) > 0 {
        span_votes_need_range(prev.drop_last(), s, e, k);
    }
}

proof fn fresh_is_injective(m: Map<i32, u32>, segs: Seq<(u64, u64, i32)>, next: nat)
    requires
        is_injective(m),
        forall|id: i32| #[trigger] m.contains_key(id) ==> m[id] < next,
        next + segs.len() <= u32::MAX,
    ensures
        ({
            let (n, t) = diarization::with_fresh(m, segs, next);
            &&& is_injective(n)
            &&& t <= next + segs.len()
            &&& next <= t
            &&& forall|id: i32| #[trigger] n.contains_key(id) ==> n[id] < t
            &&& forall|i: int| 0 <= i < segs.len() ==> n.contains_key((#[trigger] segs[i]).2)
            &&& forall|id: i32| #[trigger]
                m.contains_key(id) ==> n.contains_key(id) && n[id] == m[id]
            &&& forall|id: i32| #[trigger]
                n.contains_key(id) && !m.contains_key(id) ==> n[id] >= next
        }),
    decreases segs.len(),
{
    if segs.len() > 0 {
        let init = segs.drop_last();
        fresh_is_injective(m, init, next);
        let (n, t) = diarization::with_fresh(m, segs, next);
        assert forall|i: int| 0 <= i < segs.len() implies n.contains_key((#[trigger] segs[i]).2) by {
            if i < init.len() {
                assert(init[i] == segs[i]);
            }
        }
    }
}

/// Every voice of a pass has a label, and no two voices share one.
pub proof fn voices_keep_apart(
    prev: Seq<SpeakerRange>,
    segs: Seq<(u64, u64, i32)>,
    m: Map<i32, u32>,
)
    requires
        diarization::is_remapping(prev, segs, m),
        diarization::max_speaker(prev) + 1 + segs.len() <= u32::MAX,
    ensures
        is_injective(m),
        forall|i: int| 0 <= i < segs.len() ==> m.contains_key((#[trigger] segs[i]).2),
{
    let p = choose|p: Seq<(i32, u32)>|
        #[trigger] diarization::is_ranking(prev, segs, p) && m == diarization::with_fresh(
            diarization::matched(p),
            segs,
            diarization::max_speaker(prev) + 1,
        ).0;
    matched_below(prev, segs, p);
    matched_is_injective(p);
    fresh_is_injective(diarization::matched(p), segs, diarization::max_speaker(prev) + 1);
}

proof fn matched_below(prev: Seq<SpeakerRange>, segs: Seq<(u64, u64, i32)>, p: Seq<(i32, u32)>)
    requires
        diarization::is_ranking(prev, segs, p),
    ensures
        forall|id: i32| #[trigger]
            diarization::matched(p).contains_key(id) ==> diarization::matched(p)[id]
                <= diarization::max_speaker(prev),
{
    let m = diarization::matched(p);
    matched_is_injective(p);
    assert forall|id: i32| #[trigger] m.contains_key(id) implies m[id] <= diarization::max_speaker(
        prev,
    ) by {
        assert(p.contains((id, m[id])));
        votes_need_range(prev, segs, id, m[id]);
    }
}

proof fn matched_grows(p: Seq<(i32, u32)>, t: int)
    requires
        0 <= t <= p.len(),
    ensures
        forall|id: i32| #[trigger]
            diarization::matched(p.take(t)).contains_key(id) ==> diarization::matched(
                p,
            ).contains_key(id) && diarization::matched(p)[id] == diarization::matched(p.take(t))[id],
    decreases p.len() - t,
{
    if t == p.len() {
        assert(p.take(t) =~= p);
    } else {
        matched_grows(p, t + 1);
        assert(p.take(t + 1).drop_last() =~= p.take(t));
        let m = diarization::matched(p.take(t));
        let n = diarization::matched(p.take(t + 1));
        assert forall|id: i32| #[trigger] m.contains_key(id) implies diarization::matched(
            p,
        ).contains_key(id) && diarization::matched(p)[id] == m[id] by {
            assert(n.contains_key(id));
        }
    }
}

/// A voice that overlaps with an earlier speaker more than any other voice
/// does, and more than with any other speaker, keeps that speaker's label.
pub proof fn known_voices_keep_their_label(
    prev: Seq<SpeakerRange>,
    segs: Seq<(u64, u64, i32)>,
    m: Map<i32, u32>,
    id: i32,
    k: u32,
)
    requires
        diarization::is_remapping(prev, segs, m),
        diarization::max_speaker(prev) + 1 + segs.len() <= u32::MAX,
        diarization::votes(prev, segs, id, k) > 0,
        forall|a: i32| a != id ==> #[trigger] diarization::votes(prev, segs, a, k)
            < diarization::votes(prev, segs, id, k),
        forall|b: u32| b != k ==> #[trigger] diarization::votes(prev, segs, id, b)
            < diarization::votes(prev, segs, id, k),
    ensures
        m.contains_key(id) && m[id] == k,
{
    let p = choose|p: Seq<(i32, u32)>|
        #[trigger] diarization::is_ranking(prev, segs, p) && m == diarization::with_fresh(
            diarization::matched(p),
            segs,
            diarization::max_speaker(prev) + 1,
        ).0;
    assert(p.contains((id, k)));
    let t = choose|t: int| 0 <= t < p.len() && p[t] == (id, k);
    let before = diarization::matched(p.take(t));
    matched_is_injective(p.take(t));
    if before.contains_key(id) {
        let x = (id, before[id]);
        assert(p.take(t).contains(x));
        let i = choose|i: int| 0 <= i < t && p.take(t)[i] == x;
        assert(p[i] == x);
        assert(diarization::is_ahead(
            p[i],
            diarization::votes(prev, segs, p[i].0, p[i].1),
            p[t],
            diarization::votes(prev, segs, p[t].0, p[t].1),
        ));
    }
    if diarization::is_used(before, k) {
        let a = choose|a: i32| #[trigger] before.contains_key(a) && before[a] == k;
        let x = (a, k);
        assert(p.take(t).contains(x));
        let i = choose|i: int| 0 <= i < t && p.take(t)[i] == x;
        assert(p[i] == x);
        assert(diarization::is_ahead(
            p[i],
            diarization::votes(prev, segs, p[i].0, p[i].1),
            p[t],
            diarization::votes(prev, segs, p[t].0, p[t].1),
        ));
    }
    assert(p.take(t + 1).drop_last() =~= p.take(t));
    assert(p.take(t + 1).last() == (id, k));
    assert(diarization::matched(p.take(t + 1)).contains_key(id));
    matched_grows(p, t + 1);
    matched_below(prev, segs, p);
    matched_is_injective(p);
    fresh_is_injective(diarization::matched(p), segs, diarization::max_speaker(prev) + 1);
}

/// A voice that no earlier range overlaps with gets a label that no earlier
/// range has.
pub proof fn new_voices_get_new_labels(
    prev: Seq<SpeakerRange>,
    segs: Seq<(u64, u64, i32)>,
    m: Map<i32, u32>,
    i: int,
)
    requires
        diarization::is_remapping(prev, segs, m),
        diarization::max_speaker(prev) + 1 + segs.len() <= u32::MAX,
        0 <= i < segs.len(),
        forall|k: u32| #[trigger] diarization::votes(prev, segs, segs[i].2, k) == 0,
    ensures
        m.contains_key(segs[i].2) && m[segs[i].2] > diarization::max_speaker(prev),
{
    let p = choose|p: Seq<(i32, u32)>|
        #[trigger] diarization::is_ranking(prev, segs, p) && m == diarization::with_fresh(
            diarization::matched(p),
            segs,
            diarization::max_speaker(prev) + 1,
        ).0;
    let id = segs[i].2;
    matched_below(prev, segs, p);
    matched_is_injective(p);
    fresh_is_injective(diarization::matched(p), segs, diarization::max_speaker(prev) + 1);
    if diarization::matched(p).contains_key(id) {
        assert(p.contains((id, diarization::matched(p)[id])));
        assert(diarization::votes(prev, segs, id, diarization::matched(p)[id]) == 0);
    }
}

// ---------------------------------------------------------------------------
// Clock and schedule
// ---------------------------------------------------------------------------

/// A sample of the chunk that came last was heard at the time of the chunk,
/// however long the gap before it was.
pub proof fn clock_survives_gaps(c: ClockModel, len: nat, t_ms: u64, offset: u64)
    requires
        c.wf(),
        c.consumed + len <= u64::MAX,
        c.consumed <= offset < c.consumed + len,
    ensures
        c.pushed(len, t_ms).time_of(offset) == t_ms + (offset - c.consumed) / 16,
{
    let marks = c.pushed(len, t_ms).marks;
    assert(marks.last() == (c.consumed, t_ms));
}

/// A new chunk does not move the samples that came before it.
pub proof fn clock_keeps_the_past(c: ClockModel, len: nat, t_ms: u64, offset: u64)
    requires
        c.wf(),
        c.consumed + len <= u64::MAX,
        c.marks.len() < diarization::MAX_MARKS,
        offset < c.consumed,
    ensures
        c.pushed(len, t_ms).time_of(offset) == c.time_of(offset),
{
    let marks = c.pushed(len, t_ms).marks;
    assert(marks =~= c.marks.push((c.consumed, t_ms)));
    assert(marks.drop_last() =~= c.marks);
}

/// Passes are neither closer together nor further apart than their limits,
/// and within them cost a fixed share of the time.
pub proof fn passes_stay_affordable(cost_ms: u64)
    ensures
        diarization::MIN_PASS_INTERVAL_MS <= diarization::interval_after(cost_ms)
            <= diarization::MAX_PASS_INTERVAL_MS,
        diarization::PASS_COST_FACTOR * cost_ms <= diarization::MAX_PASS_INTERVAL_MS
            ==> diarization::PASS_COST_FACTOR * cost_ms <= diarization::interval_after(cost_ms),
{
}

/// A segment shorter than the limit leaves no trace.
pub proof fn blips_are_ignored(c: CoreModel)
    requires
        c.backend matches diarization::BackendModel::Fallback { start_ms: Some(start), last_speech_ms, .. }
            && last_speech_ms < start + diarization::MIN_SEGMENT_MS,
    ensures
        c.closed().1 == diarization::WorkModel::Nothing,
        c.closed().0.ranges == c.ranges,
{
}

// ---------------------------------------------------------------------------
// Time
// ---------------------------------------------------------------------------

/// The milliseconds that lie in two stretches of time are counted, each once.
pub proof fn common_time_is_counted(a0: u64, a1: u64, b0: u64, b1: u64)
    ensures
        ({
            let both = Set::new(|t: int| a0 <= t < a1 && b0 <= t < b1);
            both.finite() && both.len() == diarization::common_ms(a0, a1, b0, b1)
        }),
        diarization::common_ms(a0, a1, b0, b1) == diarization::common_ms(b0, b1, a0, a1),
{
    let both = Set::new(|t: int| a0 <= t < a1 && b0 <= t < b1);
    let lo = if a0 >= b0 {
        a0 as int
    } else {
        b0 as int
    };
    let hi = if a1 <= b1 {
        a1 as int
    } else {
        b1 as int
    };
    if lo < hi {
        vstd::set_lib::lemma_int_range(lo, hi);
        assert(both =~= vstd::set_lib::set_int_range(lo, hi));
    } else {
        assert(both =~= Set::<int>::empty());
    }
}

/// Every segment of a pass that has a length keeps its place on the clock of the
/// session, and no other one comes out.
pub proof fn segments_keep_their_time(clock: ClockModel, raw: Seq<(u64, u64, i32)>, i: int) -> (j: int)
    requires
        0 <= i < raw.len(),
        clock.time_of(raw[i].0) < clock.time_of(raw[i].1) <= u64::MAX,
    ensures
        0 <= j < diarization::timed(clock, raw).len(),
        diarization::timed(clock, raw)[j].0 == clock.time_of(raw[i].0),
        diarization::timed(clock, raw)[j].1 == clock.time_of(raw[i].1),
        diarization::timed(clock, raw)[j].2 == raw[i].2,
    decreases raw.len(),
{
    let rest = raw.drop_last();
    if i < rest.len() {
        segments_keep_their_time(clock, rest, i)
    } else {
        diarization::timed(clock, rest).len() as int
    }
}

/// After a pass two stretches have one label exactly when they are of one voice.
pub proof fn one_voice_has_one_label(
    c: CoreModel,
    raw: Seq<(u64, u64, i32)>,
    cost_ms: u64,
    n: CoreModel,
    i: int,
    j: int,
)
    requires
        c.is_passed(Some(raw), cost_ms, n),
        c.finishes(Some(raw)),
        c.backend is Models,
        c.backend->buffer.len() > 0,
        0 <= i < diarization::timed(c.backend->clock, raw).len(),
        0 <= j < diarization::timed(c.backend->clock, raw).len(),
    ensures
        ({
            let segs = diarization::timed(c.backend->clock, raw);
            &&& n.ranges.len() == segs.len()
            &&& n.ranges[i].start_ms == segs[i].0
            &&& n.ranges[i].end_ms == segs[i].1
            &&& n.ranges[i].label is Speaker
            &&& n.ranges[i].label == n.ranges[j].label <==> segs[i].2 == segs[j].2
            &&& n.version == c.version + 1
        }),
{
    let clock = c.backend->clock;
    let segs = diarization::timed(clock, raw);
    timed_is_no_longer(clock, raw);
    let map = choose|map: Map<i32, u32>|
        {
            &&& #[trigger] diarization::is_remapping(c.ranges, segs, map)
            &&& n == (CoreModel {
                ranges: diarization::labelled(segs, map),
                version: (c.version + 1) as u64,
                last_pass_audio_ms: (c.backend->buffer.len() / 16) as u64,
                pass_interval_ms: diarization::interval_after(cost_ms),
                ..c
            })
        };
    voices_keep_apart(c.ranges, segs, map);
    assert(map.contains_key(segs[i].2) && map.contains_key(segs[j].2));
}

proof fn timed_is_no_longer(clock: ClockModel, raw: Seq<(u64, u64, i32)>)
    ensures
        diarization::timed(clock, raw).len() <= raw.len(),
    decreases raw.len(),
{
    if raw.len() > 0 {
        timed_is_no_longer(clock, raw.drop_last());
    }
}

// ---------------------------------------------------------------------------
// Audio
// ---------------------------------------------------------------------------

/// With the models all remote audio is retained in order, loud or not, as long as
/// it is no more than four hours; a pass is due as soon as the interval has gone
/// by since the last one.
pub proof fn remote_audio_is_retained(c: CoreModel, chunk: Seq<i16>, loud: bool, t_ms: u64)
    requires
        c.backend is Models,
        c.backend->buffer.len() + chunk.len() <= 4 * 3_600 * 16_000,
    ensures
        ({
            let (n, w) = c.pushed(chunk, loud, t_ms);
            let all = c.backend->buffer + chunk;
            &&& n.backend is Models
            &&& n.backend->buffer == all
            &&& n.ranges == c.ranges
            &&& w is RunPass <==> all.len() / 16 >= c.last_pass_audio_ms + c.pass_interval_ms
            &&& !(w is Embed)
        }),
{
}

/// Without the models a stretch of speech begins with the first chunk in which
/// someone spoke and grows with every further one.
pub proof fn speech_is_gathered(c: CoreModel, chunk: Seq<i16>, t_ms: u64)
    requires
        c.backend is Fallback,
        t_ms + chunk.len() / 16 <= u64::MAX,
    ensures
        ({
            let (n, w) = c.pushed(chunk, true, t_ms);
            &&& n.backend is Fallback
            &&& n.backend->samples == c.backend->samples + chunk
            &&& c.backend->start_ms is None ==> n.backend->start_ms == Some(t_ms)
            &&& c.backend->start_ms is Some ==> n.backend->start_ms == c.backend->start_ms
            &&& n.backend->last_speech_ms == t_ms + chunk.len() / 16
            &&& w is Nothing
        }),
{
}

/// A silence of 600 ms ends a stretch of speech: one of 400 ms or more is handed
/// out whole, from its beginning to its last speech, and the next one begins
/// with nothing. A shorter silence does not end it.
pub proof fn silence_ends_speech(c: CoreModel, chunk: Seq<i16>, t_ms: u64, start: u64)
    requires
        c.backend is Fallback,
        c.backend->start_ms == Some(start),
    ensures
        ({
            let (n, w) = c.pushed(chunk, false, t_ms);
            let last = c.backend->last_speech_ms;
            if t_ms >= last + 600 {
                &&& n.backend->start_ms is None
                &&& n.backend->samples.len() == 0
                &&& last >= start + 400 ==> w == WorkModel::Embed(c.backend->samples, start, last)
                &&& last < start + 400 ==> w is Nothing
            } else {
                n == c && w is Nothing
            }
        }),
{
}

// ---------------------------------------------------------------------------
// Numbers
// ---------------------------------------------------------------------------

proof fn fresh_has_no_gaps(segs: Seq<(u64, u64, i32)>, next: nat)
    requires
        next + segs.len() <= u32::MAX,
    ensures
        ({
            let (m, t) = diarization::with_fresh(Map::empty(), segs, next);
            &&& next <= t <= next + segs.len()
            &&& forall|k: u32| #[trigger] diarization::is_used(m, k) <==> next <= k < t
            &&& segs.len() > 0 ==> m.contains_key(segs[0].2) && m[segs[0].2] == next
        }),
    decreases segs.len(),
{
    if segs.len() > 0 {
        let rest = segs.drop_last();
        fresh_has_no_gaps(rest, next);
        let (m, t) = diarization::with_fresh(Map::empty(), rest, next);
        let (n, u) = diarization::with_fresh(Map::empty(), segs, next);
        let id = segs.last().2;
        assert forall|k: u32| #[trigger] diarization::is_used(n, k) <==> next <= k < u by {
            if !m.contains_key(id) {
                assert(n == m.insert(id, t as u32));
                if diarization::is_used(n, k) {
                    let a = choose|a: i32| #[trigger] n.contains_key(a) && n[a] == k;
                    if a != id {
                        assert(m.contains_key(a) && m[a] == k);
                        assert(diarization::is_used(m, k));
                    }
                }
                if next <= k < t {
                    assert(diarization::is_used(m, k));
                    let a = choose|a: i32| #[trigger] m.contains_key(a) && m[a] == k;
                    assert(n.contains_key(a) && n[a] == k);
                }
                if k == t {
                    assert(n.contains_key(id) && n[id] == k);
                }
            } else {
                assert(diarization::is_used(m, k) <==> next <= k < t);
            }
        }
        if rest.len() > 0 {
            assert(rest[0] == segs[0]);
        } else {
            assert(m == Map::<i32, u32>::empty());
        }
    } else {
        let m = diarization::with_fresh(Map::empty(), segs, next).0;
        assert forall|k: u32| !#[trigger] diarization::is_used(m, k) by {}
    }
}

proof fn nobody_votes(segs: Seq<(u64, u64, i32)>, id: i32, k: u32)
    ensures
        diarization::votes(Seq::empty(), segs, id, k) == 0,
    decreases segs.len(),
{
    if segs.len() > 0 {
        nobody_votes(segs.drop_last(), id, k);
    }
}

/// The first pass numbers the voices from one on, without a gap, and the voice that
/// is heard first is the first.
pub proof fn first_passes_number_the_voices(segs: Seq<(u64, u64, i32)>, m: Map<i32, u32>, k: u32)
    requires
        diarization::is_remapping(Seq::empty(), segs, m),
        1 + segs.len() <= u32::MAX,
    ensures
        segs.len() > 0 ==> m.contains_key(segs[0].2) && m[segs[0].2] == 1,
        diarization::is_used(m, k) ==> 1 <= k <= segs.len(),
        diarization::is_used(m, k) && k > 1 ==> diarization::is_used(m, (k - 1) as u32),
{
    let none = Seq::<SpeakerRange>::empty();
    let p = choose|p: Seq<(i32, u32)>|
        #[trigger] diarization::is_ranking(none, segs, p) && m == diarization::with_fresh(
            diarization::matched(p),
            segs,
            diarization::max_speaker(none) + 1,
        ).0;
    assert(p.len() == 0) by {
        if p.len() > 0 {
            let (id, k) = p[0];
            assert(p.contains((id, k)));
            nobody_votes(segs, id, k);
        }
    }
    fresh_has_no_gaps(segs, 1);
}

} // verus!
