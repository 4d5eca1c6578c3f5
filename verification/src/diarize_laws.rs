//! What holds of speaker identification as a whole.
use vstd::prelude::*;
use crate::audio::recorder;
use crate::diarize;
use crate::gemini::live;
use crate::store::TranscriptChunk;
use crate::text;
use crate::text_laws;

verus! {

/// The rows of the similarities mirror each other.
pub open spec fn symmetric(sims: Seq<Vec<i64>>) -> bool {
    forall|i: usize, j: usize|
        i < sims.len() && j < sims.len() ==> #[trigger] diarize::sim(sims, i, j) == diarize::sim(
            sims,
            j,
            i,
        )
}

/// No two voices of one group are less alike than `join`.
pub open spec fn tight(sims: Seq<Vec<i64>>, join: i64, groups: Seq<Seq<usize>>) -> bool {
    forall|c: int, k: int, l: int|
        #![trigger groups[c][k], groups[c][l]]
        0 <= c < groups.len() && 0 <= k < groups[c].len() && 0 <= l < groups[c].len() && k != l
            ==> diarize::sim(sims, groups[c][k], groups[c][l]) >= join
}

proof fn lemma_weakest(sims: Seq<Vec<i64>>, i: usize, b: Seq<usize>, l: int)
    requires
        0 <= l < b.len(),
    ensures
        diarize::weakest(sims, i, b) <= diarize::sim(sims, i, b[l]),
    decreases b.len(),
{
    if l < b.len() - 1 {
        lemma_weakest(sims, i, b.drop_last(), l);
    }
}

proof fn lemma_link(sims: Seq<Vec<i64>>, a: Seq<usize>, b: Seq<usize>, k: int, l: int)
    requires
        0 <= k < a.len(),
        0 <= l < b.len(),
    ensures
        diarize::link(sims, a, b) <= diarize::sim(sims, a[k], b[l]),
    decreases a.len(),
{
    if k < a.len() - 1 {
        lemma_link(sims, a.drop_last(), b, k, l);
    } else {
        lemma_weakest(sims, a.last(), b, l);
    }
}

proof fn lemma_weakest_is_met(sims: Seq<Vec<i64>>, i: usize, b: Seq<usize>)
    ensures
        diarize::weakest(sims, i, b) == i64::MAX || exists|l: int|
            0 <= l < b.len() && diarize::weakest(sims, i, b) == diarize::sim(
                sims,
                i,
                #[trigger] b[l],
            ),
    decreases b.len(),
{
    if b.len() > 0 {
        let rest = b.drop_last();
        lemma_weakest_is_met(sims, i, rest);
        if diarize::weakest(sims, i, b) == diarize::sim(sims, i, b.last()) {
            assert(b[b.len() - 1] == b.last());
        } else if diarize::weakest(sims, i, rest) != i64::MAX {
            let l = choose|l: int|
                0 <= l < rest.len() && diarize::weakest(sims, i, rest) == diarize::sim(
                    sims,
                    i,
                    #[trigger] rest[l],
                );
            assert(b[l] == rest[l]);
        }
    }
}

proof fn lemma_link_is_met(sims: Seq<Vec<i64>>, a: Seq<usize>, b: Seq<usize>)
    ensures
        diarize::link(sims, a, b) == i64::MAX || exists|k: int, l: int|
            0 <= k < a.len() && 0 <= l < b.len() && diarize::link(sims, a, b) == diarize::sim(
                sims,
                #[trigger] a[k],
                #[trigger] b[l],
            ),
    decreases a.len(),
{
    if a.len() > 0 {
        let rest = a.drop_last();
        lemma_link_is_met(sims, rest, b);
        lemma_weakest_is_met(sims, a.last(), b);
        if diarize::link(sims, a, b) != i64::MAX {
            if diarize::link(sims, a, b) == diarize::weakest(sims, a.last(), b) {
                let l = choose|l: int|
                    0 <= l < b.len() && diarize::weakest(sims, a.last(), b) == diarize::sim(
                        sims,
                        a.last(),
                        #[trigger] b[l],
                    );
                assert(a[a.len() - 1] == a.last());
                assert(diarize::link(sims, a, b) == diarize::sim(sims, a[a.len() - 1], b[l]));
            } else {
                let (k, l) = choose|k: int, l: int|
                    0 <= k < rest.len() && 0 <= l < b.len() && diarize::link(sims, rest, b)
                        == diarize::sim(sims, #[trigger] rest[k], #[trigger] b[l]);
                assert(a[k] == rest[k]);
                assert(diarize::link(sims, a, b) == diarize::sim(sims, a[k], b[l]));
            }
        }
    }
}


/// Of the pairs before `(a, b)` one is the closest, the first such.
proof fn lemma_closest_before(sims: Seq<Vec<i64>>, g: Seq<Seq<usize>>, a: int, b: int) -> (p: (
    int,
    int,
))
    requires
        0 <= a < b <= g.len(),
        a > 0 || b > 1,
    ensures
        0 <= p.0 < p.1 < g.len(),
        diarize::before(p.0, p.1, a, b),
        forall|x: int, y: int|
            #![trigger diarize::link(sims, g[x], g[y])]
            0 <= x < y < g.len() && diarize::before(x, y, a, b) ==> if diarize::before(
                x,
                y,
                p.0,
                p.1,
            ) {
                diarize::link(sims, g[x], g[y]) < diarize::link(sims, g[p.0], g[p.1])
            } else {
                diarize::link(sims, g[x], g[y]) <= diarize::link(sims, g[p.0], g[p.1])
            },
    decreases a, b,
{
    if b > a + 1 {
        if a == 0 && b == 2 {
            (a, b - 1)
        } else {
            let q = lemma_closest_before(sims, g, a, b - 1);
            if diarize::link(sims, g[a], g[b - 1]) > diarize::link(sims, g[q.0], g[q.1]) {
                (a, b - 1)
            } else {
                q
            }
        }
    } else {
        lemma_closest_before(sims, g, a - 1, g.len() as int)
    }
}

/// Where there are two groups, there is a closest pair.
proof fn lemma_closest_pair(sims: Seq<Vec<i64>>, g: Seq<Seq<usize>>)
    requires
        g.len() >= 2,
    ensures
        diarize::closest(sims, g, diarize::closest_pair(sims, g).0, diarize::closest_pair(sims, g).1),
{
    let p = lemma_closest_before(sims, g, g.len() - 1, g.len() as int);
    assert(diarize::closest(sims, g, p.0, p.1));
}

/// What the groups are in the end: few enough, and no two left to join.
pub open spec fn settled(sims: Seq<Vec<i64>>, join: i64, g: Seq<Seq<usize>>) -> bool {
    &&& g.len() <= diarize::MAX_SPEAKERS
    &&& forall|c: int, d: int|
        #![trigger diarize::link(sims, g[c], g[d])]
        0 <= c < d < g.len() ==> diarize::link(sims, g[c], g[d]) < join
}

proof fn lemma_grouped_settles(sims: Seq<Vec<i64>>, join: i64, g: Seq<Seq<usize>>)
    ensures
        settled(sims, join, diarize::grouped(sims, join, g)),
    decreases g.len(),
{
    let (a, b) = diarize::closest_pair(sims, g);
    if g.len() >= 2 {
        lemma_closest_pair(sims, g);
    }
    if !(0 <= a < b < g.len()) || (diarize::link(sims, g[a], g[b]) < join && g.len()
        <= diarize::MAX_SPEAKERS) {
    } else {
        lemma_grouped_settles(sims, join, diarize::joined_groups(g, a, b));
    }
}

proof fn lemma_grouped_is_tight(sims: Seq<Vec<i64>>, join: i64, g: Seq<Seq<usize>>)
    requires
        symmetric(sims),
        diarize::partition(g, sims.len()),
        tight(sims, join, g),
        g.len() <= diarize::MAX_SPEAKERS,
    ensures
        tight(sims, join, diarize::grouped(sims, join, g)),
    decreases g.len(),
{
    let (a, b) = diarize::closest_pair(sims, g);
    if !(0 <= a < b < g.len()) || (diarize::link(sims, g[a], g[b]) < join && g.len()
        <= diarize::MAX_SPEAKERS) {
    } else {
        let after = diarize::joined_groups(g, a, b);
        diarize::lemma_join_keeps_partition(g, a, b, sims.len());
        assert forall|c: int, k: int, l: int|
            #![trigger after[c][k], after[c][l]]
            0 <= c < after.len() && 0 <= k < after[c].len() && 0 <= l < after[c].len() && k
                != l implies diarize::sim(sims, after[c][k], after[c][l]) >= join by {
            let m = g[a].len() as int;
            if c == a {
                if k < m && l < m {
                    assert(after[c][k] == g[a][k] && after[c][l] == g[a][l]);
                } else if k >= m && l >= m {
                    assert(after[c][k] == g[b][k - m] && after[c][l] == g[b][l - m]);
                } else if k < m {
                    assert(after[c][k] == g[a][k] && after[c][l] == g[b][l - m]);
                    lemma_link(sims, g[a], g[b], k, l - m);
                } else {
                    assert(after[c][l] == g[a][l] && after[c][k] == g[b][k - m]);
                    lemma_link(sims, g[a], g[b], l, k - m);
                    assert(diarize::sim(sims, g[b][k - m], g[a][l]) == diarize::sim(
                        sims,
                        g[a][l],
                        g[b][k - m],
                    ));
                }
            } else if c < b {
                assert(after[c][k] == g[c][k] && after[c][l] == g[c][l]);
            } else {
                assert(after[c][k] == g[c + 1][k] && after[c][l] == g[c + 1][l]);
            }
        }
        lemma_grouped_is_tight(sims, join, after);
    }
}

/// There are never more than `MAX_SPEAKERS` groups.
pub proof fn speakers_are_capped(sims: Seq<Vec<i64>>, join: i64)
    ensures
        diarize::groups_of(sims, join).len() <= diarize::MAX_SPEAKERS,
{
    lemma_grouped_settles(sims, join, diarize::singles(sims.len()));
}

/// Two different groups hold two voices that are less alike than `join`: they
/// are not one speaker.
pub proof fn groups_are_apart(sims: Seq<Vec<i64>>, join: i64, c: int, d: int)
    requires
        0 <= c < d < diarize::groups_of(sims, join).len(),
    ensures
        exists|k: int, l: int|
            0 <= k < diarize::groups_of(sims, join)[c].len() && 0 <= l < diarize::groups_of(
                sims,
                join,
            )[d].len() && diarize::sim(
                sims,
                #[trigger] diarize::groups_of(sims, join)[c][k],
                #[trigger] diarize::groups_of(sims, join)[d][l],
            ) < join,
{
    let g = diarize::groups_of(sims, join);
    lemma_grouped_settles(sims, join, diarize::singles(sims.len()));
    assert(diarize::link(sims, g[c], g[d]) < join);
    lemma_link_is_met(sims, g[c], g[d]);
    let (k, l) = choose|k: int, l: int|
        0 <= k < g[c].len() && 0 <= l < g[d].len() && diarize::link(sims, g[c], g[d])
            == diarize::sim(sims, #[trigger] g[c][k], #[trigger] g[d][l]);
    assert(diarize::sim(sims, g[c][k], g[d][l]) < join);
}

/// While there are no more voices than speakers allowed, two voices in one
/// group are always alike: none is joined to another below `join`.
pub proof fn groups_are_alike(sims: Seq<Vec<i64>>, join: i64)
    requires
        symmetric(sims),
        sims.len() <= diarize::MAX_SPEAKERS,
    ensures
        tight(sims, join, diarize::groups_of(sims, join)),
{
    diarize::lemma_singles_partition(sims.len());
    lemma_grouped_is_tight(sims, join, diarize::singles(sims.len()));
}

/// Two entries get the same label exactly when their voices are in one group.
pub proof fn labels_follow_groups(labels: Seq<usize>, i: int, j: int)
    requires
        0 <= i < labels.len(),
        0 <= j < labels.len(),
    ensures
        diarize::label_of(labels, i) == diarize::label_of(labels, j) <==> labels[i] == labels[j],
{
    let order = diarize::appearances(labels);
    diarize::lemma_appearances(labels);
    assert(order.contains(labels[i]) && order.contains(labels[j]));
    let p = order.index_of(labels[i]);
    let q = order.index_of(labels[j]);
    assert(order[p] == labels[i] && order[q] == labels[j]);
    let head = "Speaker "@;
    if diarize::label_of(labels, i) == diarize::label_of(labels, j) {
        assert(diarize::label_of(labels, i).skip(head.len() as int) =~= text::decimal(
            (p + 1) as nat,
        ));
        assert(diarize::label_of(labels, j).skip(head.len() as int) =~= text::decimal(
            (q + 1) as nat,
        ));
        text_laws::decimal_injective((p + 1) as nat, (q + 1) as nat);
    }
}

/// The order of appearance begins as it began.
proof fn lemma_first_appearance(labels: Seq<usize>)
    requires
        labels.len() > 0,
    ensures
        diarize::appearances(labels).len() > 0,
        diarize::appearances(labels)[0] == labels[0],
    decreases labels.len(),
{
    if labels.len() > 1 {
        lemma_first_appearance(labels.drop_last());
    } else {
        assert(labels.drop_last() =~= Seq::empty());
        assert(diarize::appearances(labels.drop_last()) =~= Seq::empty());
    }
}

/// The voice that is heard first is "Speaker 1".
pub proof fn first_voice_is_first(labels: Seq<usize>)
    requires
        labels.len() > 0,
    ensures
        diarize::label_of(labels, 0) == "Speaker 1"@,
{
    lemma_first_appearance(labels);
    diarize::lemma_appearances(labels);
    let order = diarize::appearances(labels);
    assert(order.contains(labels[0]));
    assert(order.index_of(labels[0]) == 0);
    reveal_strlit("Speaker ");
    reveal_strlit("Speaker 1");
    reveal_with_fuel(text::decimal, 2);
    assert(text::decimal(1) =~= seq!['1']);
    assert(diarize::label_of(labels, 0) =~= "Speaker 1"@);
}

/// Only entries of the label "Meeting" are ever looked at: "You" keeps its
/// entries.
pub proof fn only_meeting_entries_are_heard(
    chunks: Seq<TranscriptChunk>,
    k: int,
    samples: nat,
    i: int,
)
    requires
        0 <= k <= chunks.len(),
        0 <= i < diarize::spans_of(chunks, k, samples).len(),
    ensures
        exists|j: int|
            0 <= j < k && (#[trigger] chunks[j]).speaker@ == "Meeting"@ && chunks[j].start_ms
                == diarize::spans_of(chunks, k, samples)[i].start_ms,
    decreases k,
{
    let rest = diarize::spans_of(chunks, k - 1, samples);
    if i < rest.len() {
        only_meeting_entries_are_heard(chunks, k - 1, samples, i);
    } else {
        assert(chunks[k - 1].speaker@ == "Meeting"@);
    }
}

/// A remote entry is looked at from its beginning up to the next entry, to the end
/// of the recording or for thirty seconds, whichever comes first, unless that is
/// less than 800 ms.
pub proof fn meeting_entries_are_heard(chunks: Seq<TranscriptChunk>, i: int, samples: nat)
    requires
        0 <= i < chunks.len(),
        chunks[i].speaker@ == "Meeting"@,
        samples <= usize::MAX,
    ensures
        ({
            let start = chunks[i].start_ms as int;
            let audio = (samples / 16) as int;
            let r = diarize::span_of(chunks, i, samples);
            let next = if i + 1 < chunks.len() {
                chunks[i + 1].start_ms as int
            } else {
                audio
            };
            &&& r is Some <==> next >= start + 800 && audio >= start + 800
            &&& r matches Some(s) ==> {
                &&& s.start_ms == start
                &&& s.lo == 16 * start
                &&& s.hi <= 16 * next && s.hi <= samples && s.hi <= 16 * (start + 30_000)
                &&& s.hi == 16 * next || s.hi == 16 * audio || s.hi == 16 * (start + 30_000)
            }
        }),
{
}

proof fn spans_keep_order(chunks: Seq<TranscriptChunk>, k: int, samples: nat, i: int) -> (p: int)
    requires
        0 <= i < k <= chunks.len(),
        diarize::span_of(chunks, i, samples) is Some,
    ensures
        0 <= p < diarize::spans_of(chunks, k, samples).len(),
        Some(diarize::spans_of(chunks, k, samples)[p]) == diarize::span_of(chunks, i, samples),
    decreases k,
{
    if i < k - 1 {
        spans_keep_order(chunks, k - 1, samples, i)
    } else {
        diarize::spans_of(chunks, k - 1, samples).len() as int
    }
}

/// No remote entry is passed over that has enough sound.
pub proof fn every_meeting_entry_is_heard(chunks: Seq<TranscriptChunk>, samples: nat, i: int) -> (p: int)
    requires
        0 <= i < chunks.len(),
        samples <= usize::MAX,
        chunks[i].speaker@ == "Meeting"@,
        samples / 16 >= chunks[i].start_ms + 800,
        i + 1 < chunks.len() ==> chunks[i + 1].start_ms >= chunks[i].start_ms + 800,
    ensures
        0 <= p < diarize::spans_of(chunks, chunks.len() as int, samples).len(),
        diarize::spans_of(chunks, chunks.len() as int, samples)[p].start_ms == chunks[i].start_ms,
{
    meeting_entries_are_heard(chunks, i, samples);
    spans_keep_order(chunks, chunks.len() as int, samples, i)
}

/// A recording in another format than PCM, mono, 16 kHz and 16 bits is refused,
/// and so is a file that is no recording at all.
pub proof fn other_formats_are_refused(b: Seq<u8>)
    requires
        b.len() < 12 || b.subrange(0, 4) != seq![0x52u8, 0x49, 0x46, 0x46] || b.subrange(8, 12)
            != seq![0x57u8, 0x41, 0x56, 0x45] || (b.len() >= 36 && b.subrange(12, 16) == seq![
            0x66u8,
            0x6d,
            0x74,
            0x20,
        ] && (diarize::num16(b, 20) != 1 || diarize::num16(b, 22) != 1 || diarize::num32(b, 24)
            != 16_000 || diarize::num16(b, 34) != 16)),
    ensures
        diarize::read_result(b) is Err,
{
    if diarize::is_wav(b) {
        assert(b.subrange(0, 4) =~= seq![0x52u8, 0x49, 0x46, 0x46]);
        assert(b.subrange(8, 12) =~= seq![0x57u8, 0x41, 0x56, 0x45]);
        let id = b.subrange(12, 16);
        assert(id[0] == 0x66 && id[1] == 0x6d && id[2] == 0x74 && id[3] == 0x20);
        assert(diarize::named(b, 12, 0x66, 0x6d, 0x74, 0x20));
    }
}

proof fn lemma_pcm_at(s: Seq<i16>, i: int)
    requires
        0 <= i < s.len(),
    ensures
        live::pcm_bytes(s).len() == 2 * s.len(),
        live::pcm_bytes(s)[2 * i] == live::sample_bytes(s[i])[0],
        live::pcm_bytes(s)[2 * i + 1] == live::sample_bytes(s[i])[1],
    decreases s.len(),
{
    if i < s.len() - 1 {
        lemma_pcm_at(s.drop_last(), i);
    } else if s.len() > 1 {
        lemma_pcm_at(s.drop_last(), 0);
    } else {
        assert(s.drop_last() =~= Seq::empty());
    }
}

/// The samples come back from their bytes.
proof fn lemma_samples_of_pcm(s: Seq<i16>)
    ensures
        live::pcm_bytes(s).len() == 2 * s.len(),
        diarize::samples_of(live::pcm_bytes(s)) == s,
{
    if s.len() > 0 {
        lemma_pcm_at(s, 0);
    }
    assert forall|i: int| 0 <= i < s.len() implies diarize::samples_of(live::pcm_bytes(s))[i]
        == s[i] by {
        lemma_pcm_at(s, i);
    }
    assert(diarize::samples_of(live::pcm_bytes(s)) =~= s);
}

/// The number in the bytes of a number.
proof fn lemma_le32(n: nat)
    requires
        n <= u32::MAX,
    ensures
        diarize::num32(recorder::le32(n), 0) == n,
{
}

/// What a header holds, place by place.
#[verifier::spinoff_prover]
#[verifier::rlimit(50)]
proof fn lemma_header(n: nat)
    requires
        n <= u32::MAX,
    ensures
        recorder::header_bytes(n).len() == 44,
        diarize::is_wav(recorder::header_bytes(n)),
        diarize::named(recorder::header_bytes(n), 12, 0x66, 0x6d, 0x74, 0x20),
        diarize::num32(recorder::header_bytes(n), 16) == 16,
        diarize::num16(recorder::header_bytes(n), 20) == 1,
        diarize::num16(recorder::header_bytes(n), 22) == 1,
        diarize::num32(recorder::header_bytes(n), 24) == 16_000,
        diarize::num16(recorder::header_bytes(n), 34) == 16,
        diarize::named(recorder::header_bytes(n), 36, 0x64, 0x61, 0x74, 0x61),
        diarize::num32(recorder::header_bytes(n), 40) == n,
{
    let h = recorder::header_bytes(n);
    lemma_le32(n);
    assert(h.skip(40) =~= recorder::le32(n));
    assert(h[40] == h.skip(40)[0] && h[41] == h.skip(40)[1] && h[42] == h.skip(40)[2] && h[43]
        == h.skip(40)[3]);
}

/// A recording is read back sample by sample, while its size fits its header.
#[verifier::spinoff_prover]
#[verifier::rlimit(50)]
pub proof fn recordings_are_read_back(s: Seq<i16>)
    requires
        36 + 2 * s.len() <= u32::MAX,
    ensures
        diarize::read_result(recorder::recording(s, s.len())) == Ok::<
            Seq<i16>,
            crate::error::ErrorModel,
        >(s),
{
    let b = recorder::recording(s, s.len());
    let n = 2 * s.len();
    let pcm = live::pcm_bytes(s);
    lemma_samples_of_pcm(s);
    let h = recorder::header_bytes(n);
    lemma_header(n);
    assert(b =~= h + pcm);
    assert(forall|i: int| 0 <= i < 44 ==> b[i] == #[trigger] h[i]);
    assert(diarize::is_wav(b));
    assert(diarize::named(b, 12, 0x66, 0x6d, 0x74, 0x20));
    assert(diarize::num32(b, 16) == 16);
    assert(diarize::num16(b, 20) == 1);
    assert(diarize::num16(b, 22) == 1);
    assert(diarize::num32(b, 24) == 16_000);
    assert(diarize::num16(b, 34) == 16);
    assert(diarize::named(b, 36, 0x64, 0x61, 0x74, 0x61));
    assert(diarize::num32(b, 40) == n);
    assert(b.subrange(44, 44 + n as int) =~= pcm);
    let end = 44 + n as int;
    assert(diarize::scanned(b, end, true, Some(pcm)) == diarize::Scan::Done {
        formatted: true,
        data: Some(pcm),
    });
    assert(diarize::scanned(b, 36, true, None) == diarize::scanned(b, end, true, Some(pcm)));
    assert(diarize::scanned(b, 12, false, None) == diarize::scanned(b, 36, true, None));
}

} // verus!
