//! Speaker identification over the saved recording of a finished meeting.
//!
//! The entries of the transcript are the segments: each "Meeting" entry is
//! (approximately) one voice. The matching span of the recording is turned
//! into a voice vector, and the vectors are grouped by complete-linkage
//! clustering of their similarities. Groups become "Speaker 1..N" labels;
//! "You" entries are never touched.
use vstd::prelude::*;
use crate::error::{ErrorModel, SallyError};
use crate::store::TranscriptChunk;
use crate::text;
use crate::text::same_text;

verus! {

pub const MODEL_FILE: &'static str = "speaker_embedding_campp.onnx";

/// Where the embedding model is downloaded from.
pub const MODEL_URL: &'static str =
    "https://github.com/thewh1teagle/pyannote-rs/releases/download/v0.1.0/wespeaker_en_voxceleb_CAM++.onnx";

/// Entries shorter than this carry too little voice; they keep the plain
/// "Meeting" label.
pub const MIN_SEGMENT_MS: u64 = 800;

/// Most of an entry that is looked at.
pub const MAX_SEGMENT_MS: u64 = 30_000;

/// Most distinct speakers.
pub const MAX_SPEAKERS: usize = 8;

/// The download address: `url_override` where one is configured.
pub fn model_url(url_override: &str) -> (r: &str)
    ensures
        r@ == if url_override@.len() == 0 {
            MODEL_URL@
        } else {
            url_override@
        },
{
    if url_override.is_empty() {
        MODEL_URL
    } else {
        url_override
    }
}

// ---------------------------------------------------------------------------
// Reading a recording
// ---------------------------------------------------------------------------

/// The number in two bytes, the lower one first.
pub open spec fn num16(b: Seq<u8>, at: int) -> nat {
    (b[at] + 256 * b[at + 1]) as nat
}

/// The number in four bytes, the lowest one first.
pub open spec fn num32(b: Seq<u8>, at: int) -> nat {
    (b[at] + 256 * b[at + 1] + 0x1_0000 * b[at + 2] + 0x100_0000 * b[at + 3]) as nat
}

/// The four bytes at `at` are these.
pub open spec fn named(b: Seq<u8>, at: int, w: u8, x: u8, y: u8, z: u8) -> bool {
    b[at] == w && b[at + 1] == x && b[at + 2] == y && b[at + 3] == z
}

/// The sample in two bytes.
pub open spec fn sample_of(lo: u8, hi: u8) -> i16 {
    let u = lo + 256 * hi;
    if u >= 0x8000 {
        (u - 0x1_0000) as i16
    } else {
        u as i16
    }
}

/// The samples in a list of bytes; an odd byte at the end is left out.
pub open spec fn samples_of(b: Seq<u8>) -> Seq<i16> {
    Seq::new(b.len() / 2, |i: int| sample_of(b[2 * i], b[2 * i + 1]))
}

/// The file begins like a WAV file.
pub open spec fn is_wav(b: Seq<u8>) -> bool {
    b.len() >= 12 && named(b, 0, 0x52, 0x49, 0x46, 0x46) && named(b, 8, 0x57, 0x41, 0x56, 0x45)
}

/// What the chunks of a file from some place on come to.
pub enum Scan {
    /// A format other than PCM, mono, 16 kHz, 16-bit.
    Unsupported { format: nat, channels: nat, rate: nat, bits: nat },
    /// Whether a format chunk was there, and what the last data chunk holds.
    Done { formatted: bool, data: Option<Seq<u8>> },
}

/// Goes through the chunks from `pos` on, with what was found before.
pub open spec fn scanned(b: Seq<u8>, pos: int, format: bool, data: Option<Seq<u8>>) -> Scan
    decreases
            (if pos < b.len() {
                b.len() - pos
            } else {
                0
            }),
{
    if pos < 0 || pos + 8 > b.len() {
        Scan::Done { formatted: format, data }
    } else {
        let size = num32(b, pos + 4) as int;
        let body = pos + 8;
        let next = body + size + size % 2;
        if named(b, pos, 0x66, 0x6d, 0x74, 0x20) && body + 16 <= b.len() {
            if num16(b, body) != 1 || num16(b, body + 2) != 1 || num32(b, body + 4) != 16_000
                || num16(b, body + 14) != 16 {
                Scan::Unsupported {
                    format: num16(b, body),
                    channels: num16(b, body + 2),
                    rate: num32(b, body + 4),
                    bits: num16(b, body + 14),
                }
            } else {
                scanned(b, next, true, data)
            }
        } else if named(b, pos, 0x64, 0x61, 0x74, 0x61) {
            let end = if body + size <= b.len() {
                body + size
            } else {
                b.len() as int
            };
            scanned(b, next, format, Some(b.subrange(body, end)))
        } else {
            scanned(b, next, format, data)
        }
    }
}

/// What is told of a format that is not supported.
pub open spec fn unsupported_text(format: nat, channels: nat, rate: nat, bits: nat) -> Seq<char> {
    "unsupported WAV format ("@ + text::decimal(format) + "/"@ + text::decimal(channels) + "ch/"@
        + text::decimal(rate) + "Hz/"@ + text::decimal(bits)
        + "bit); expected PCM mono 16 kHz 16-bit"@
}

/// The samples of a recording, or why there are none.
pub open spec fn read_result(b: Seq<u8>) -> Result<Seq<i16>, ErrorModel> {
    if !is_wav(b) {
        Err(ErrorModel::Storage("not a WAV file"@))
    } else {
        match scanned(b, 12, false, None) {
            Scan::Unsupported { format, channels, rate, bits } => Err(
                ErrorModel::Storage(unsupported_text(format, channels, rate, bits)),
            ),
            Scan::Done { formatted: true, data: Some(d) } => Ok(samples_of(d)),
            _ => Err(ErrorModel::Storage("WAV missing fmt/data chunk"@)),
        }
    }
}

fn get16(b: &Vec<u8>, at: usize) -> (r: u64)
    requires
        at + 2 <= b.len(),
    ensures
        r == num16(b@, at as int),
{
    b[at] as u64 + 256 * (b[at + 1] as u64)
}

fn get32(b: &Vec<u8>, at: usize) -> (r: u64)
    requires
        at + 4 <= b.len(),
    ensures
        r == num32(b@, at as int),
        r <= u32::MAX,
{
    b[at] as u64 + 256 * (b[at + 1] as u64) + 0x1_0000 * (b[at + 2] as u64) + 0x100_0000 * (
    b[at + 3] as u64)
}

fn has_name(b: &Vec<u8>, at: usize, w: u8, x: u8, y: u8, z: u8) -> (r: bool)
    requires
        at + 4 <= b.len(),
    ensures
        r == named(b@, at as int, w, x, y, z),
{
    b[at] == w && b[at + 1] == x && b[at + 2] == y && b[at + 3] == z
}

/// The samples in `b[lo..hi]`.
fn get_samples(b: &Vec<u8>, lo: usize, hi: usize) -> (r: Vec<i16>)
    requires
        lo <= hi <= b@.len(),
    ensures
        r@ == samples_of(b@.subrange(lo as int, hi as int)),
{
    let ghost d = b@.subrange(lo as int, hi as int);
    let n: usize = (hi - lo) / 2;
    let mut out: Vec<i16> = Vec::new();
    let mut i: usize = 0;
    while i < n
        invariant
            i <= n,
            n == (hi - lo) / 2,
            lo <= hi <= b@.len(),
            d == b@.subrange(lo as int, hi as int),
            out@ =~= samples_of(d).take(i as int),
        decreases n - i,
    {
        let x = b[lo + 2 * i];
        let y = b[lo + 2 * i + 1];
        assert(x == d[2 * i] && y == d[2 * i + 1]);
        let u: i32 = x as i32 + 256 * (y as i32);
        out.push(
            if u >= 0x8000 {
                (u - 0x1_0000) as i16
            } else {
                u as i16
            },
        );
        i += 1;
    }
    out
}

fn unsupported(format: u64, channels: u64, rate: u64, bits: u64) -> (r: String)
    ensures
        r@ == unsupported_text(format as nat, channels as nat, rate as nat, bits as nat),
{
    let mut m = text::owned("unsupported WAV format (");
    text::push_decimal(&mut m, format);
    m.push_str("/");
    text::push_decimal(&mut m, channels);
    m.push_str("ch/");
    text::push_decimal(&mut m, rate);
    m.push_str("Hz/");
    text::push_decimal(&mut m, bits);
    m.push_str("bit); expected PCM mono 16 kHz 16-bit");
    m
}

/// Reads the samples of a 16 kHz mono 16-bit PCM WAV file. The chunks are
/// scanned rather than assuming a 44-byte header, so that files from other
/// tools also load.
pub fn read_wav_16k_mono(b: &Vec<u8>) -> (r: Result<Vec<i16>, SallyError>)
    ensures
        match (r, read_result(b@)) {
            (Ok(v), Ok(s)) => v@ == s,
            (Err(e), Err(m)) => e@ == m,
            _ => false,
        },
{
    let n = b.len();
    if n < 12 || !has_name(b, 0, 0x52, 0x49, 0x46, 0x46) || !has_name(b, 8, 0x57, 0x41, 0x56, 0x45) {
        return Err(SallyError::Storage(text::owned("not a WAV file")));
    }
    let mut pos: usize = 12;
    let mut format = false;
    let mut data: Option<(usize, usize)> = None;
    while pos <= n - 8
        invariant
            12 <= pos,
            n >= 12,
            n == b@.len(),
            is_wav(b@),
            data matches Some((lo, hi)) ==> lo <= hi <= n,
            scanned(b@, 12, false, None) == scanned(
                b@,
                pos as int,
                format,
                match data {
                    Some((lo, hi)) => Some(b@.subrange(lo as int, hi as int)),
                    None => None,
                },
            ),
        decreases n + 12 - pos,
    {
        let size = get32(b, pos + 4);
        let body: usize = pos + 8;
        let ghost next = body + size + size % 2;
        if has_name(b, pos, 0x66, 0x6d, 0x74, 0x20) && n - body >= 16 {
            let f = get16(b, body);
            let channels = get16(b, body + 2);
            let rate = get32(b, body + 4);
            let bits = get16(b, body + 14);
            if f != 1 || channels != 1 || rate != 16_000 || bits != 16 {
                return Err(SallyError::Storage(unsupported(f, channels, rate, bits)));
            }
            format = true;
        } else if has_name(b, pos, 0x64, 0x61, 0x74, 0x61) {
            let end: usize = if size <= (n - body) as u64 {
                body + size as usize
            } else {
                n
            };
            data = Some((body, end));
        }
        let padded: u64 = size + size % 2;
        let found = match data {
            Some((lo, hi)) => Some((lo, hi)),
            None => None,
        };
        if padded > (n - body) as u64 {
            // Nothing can follow.
            assert(next + 8 > n);
            assert(scanned(
                b@,
                next,
                format,
                match found {
                    Some((lo, hi)) => Some(b@.subrange(lo as int, hi as int)),
                    None => None,
                },
            ) == scanned(
                b@,
                n as int,
                format,
                match found {
                    Some((lo, hi)) => Some(b@.subrange(lo as int, hi as int)),
                    None => None,
                },
            ));
            pos = n;
        } else {
            pos = body + padded as usize;
        }
    }
    match (format, data) {
        (true, Some((lo, hi))) => Ok(get_samples(b, lo, hi)),
        _ => Err(SallyError::Storage(text::owned("WAV missing fmt/data chunk"))),
    }
}


// ---------------------------------------------------------------------------
// The spans of the recording that are looked at
// ---------------------------------------------------------------------------

/// A part of the recording, in samples, and the start of the entry it is of.
#[derive(Clone, Copy, Debug, PartialEq, Eq, Structural)]
pub struct Span {
    pub start_ms: u64,
    pub lo: usize,
    pub hi: usize,
}

/// Where the look at the `i`-th entry ends: at the next entry, at the end of
/// the audio, or after the longest time that is looked at, whichever is first.
pub open spec fn span_end(chunks: Seq<TranscriptChunk>, i: int, audio_ms: int) -> int {
    let next = if i + 1 < chunks.len() {
        chunks[i + 1].start_ms as int
    } else {
        audio_ms
    };
    let within = if next <= audio_ms {
        next
    } else {
        audio_ms
    };
    if within <= chunks[i].start_ms + MAX_SEGMENT_MS {
        within
    } else {
        chunks[i].start_ms + MAX_SEGMENT_MS
    }
}

/// The span of the `i`-th entry: there is none for an entry of another label
/// than "Meeting" and for one that is too short.
pub open spec fn span_of(chunks: Seq<TranscriptChunk>, i: int, samples: nat) -> Option<Span> {
    let start = chunks[i].start_ms as int;
    let end = span_end(chunks, i, (samples / 16) as int);
    if chunks[i].speaker@ == "Meeting"@ && end >= start + MIN_SEGMENT_MS {
        Some(
            Span {
                start_ms: chunks[i].start_ms,
                lo: (16 * start) as usize,
                hi: (16 * end) as usize,
            },
        )
    } else {
        None
    }
}

/// The spans of the first `k` entries.
pub open spec fn spans_of(chunks: Seq<TranscriptChunk>, k: int, samples: nat) -> Seq<Span>
    decreases k,
{
    if k <= 0 {
        Seq::empty()
    } else {
        match span_of(chunks, k - 1, samples) {
            Some(s) => spans_of(chunks, k - 1, samples).push(s),
            None => spans_of(chunks, k - 1, samples),
        }
    }
}

/// The spans of a recording of `samples` samples that are looked at, in the
/// order of the entries. Each is a part of the recording.
pub fn meeting_spans(chunks: &Vec<TranscriptChunk>, samples: usize) -> (r: Vec<Span>)
    ensures
        r@ == spans_of(chunks@, chunks@.len() as int, samples as nat),
        forall|i: int| 0 <= i < r@.len() ==> (#[trigger] r@[i]).lo < r@[i].hi <= samples,
{
    let audio_ms: u64 = samples as u64 / 16;
    let mut out: Vec<Span> = Vec::new();
    let mut i: usize = 0;
    while i < chunks.len()
        invariant
            i <= chunks@.len(),
            audio_ms == samples as nat / 16,
            out@ == spans_of(chunks@, i as int, samples as nat),
            forall|j: int| 0 <= j < out@.len() ==> (#[trigger] out@[j]).lo < out@[j].hi <= samples,
        decreases chunks@.len() - i,
    {
        let start = chunks[i].start_ms;
        let next: u64 = if i + 1 < chunks.len() {
            chunks[i + 1].start_ms
        } else {
            audio_ms
        };
        let mut end: u64 = if next <= audio_ms {
            next
        } else {
            audio_ms
        };
        if end > start && end - start > MAX_SEGMENT_MS {
            end = start + MAX_SEGMENT_MS;
        }
        if same_text(chunks[i].speaker.as_str(), "Meeting") && end >= start && end - start
            >= MIN_SEGMENT_MS {
            let lo: usize = 16 * (start as usize);
            let hi: usize = 16 * (end as usize);
            out.push(Span { start_ms: start, lo, hi });
        }
        i += 1;
    }
    out
}

// ---------------------------------------------------------------------------
// Clustering
// ---------------------------------------------------------------------------

/// The similarities are a square: one row of numbers per voice, in order.
pub open spec fn square(sims: Seq<Vec<i64>>) -> bool {
    forall|i: int| 0 <= i < sims.len() ==> (#[trigger] sims[i])@.len() == sims.len()
}

/// How alike the voices `i` and `j` are.
pub open spec fn sim(sims: Seq<Vec<i64>>, i: usize, j: usize) -> i64 {
    sims[i as int]@[j as int]
}

/// The weakest similarity of one voice to those of `b`.
pub open spec fn weakest(sims: Seq<Vec<i64>>, i: usize, b: Seq<usize>) -> i64
    decreases b.len(),
{
    if b.len() == 0 {
        i64::MAX
    } else {
        let rest = weakest(sims, i, b.drop_last());
        if sim(sims, i, b.last()) < rest {
            sim(sims, i, b.last())
        } else {
            rest
        }
    }
}

/// Complete linkage: the weakest similarity across two groups.
pub open spec fn link(sims: Seq<Vec<i64>>, a: Seq<usize>, b: Seq<usize>) -> i64
    decreases a.len(),
{
    if a.len() == 0 {
        i64::MAX
    } else {
        let rest = link(sims, a.drop_last(), b);
        if weakest(sims, a.last(), b) < rest {
            weakest(sims, a.last(), b)
        } else {
            rest
        }
    }
}

/// One pair of groups comes before another.
pub open spec fn before(a: int, b: int, x: int, y: int) -> bool {
    a < x || (a == x && b < y)
}

/// The groups `a` and `b` are the closest pair, the first such.
pub open spec fn closest(sims: Seq<Vec<i64>>, groups: Seq<Seq<usize>>, a: int, b: int) -> bool {
    &&& 0 <= a < b < groups.len()
    &&& forall|x: int, y: int|
        #![trigger link(sims, groups[x], groups[y])]
        0 <= x < y < groups.len() ==> if before(x, y, a, b) {
            link(sims, groups[x], groups[y]) < link(sims, groups[a], groups[b])
        } else {
            link(sims, groups[x], groups[y]) <= link(sims, groups[a], groups[b])
        }
}

/// The pair of groups that is joined next.
pub open spec fn closest_pair(sims: Seq<Vec<i64>>, groups: Seq<Seq<usize>>) -> (int, int) {
    choose|p: (int, int)| closest(sims, groups, p.0, p.1)
}

/// The groups with the `b`-th joined to the `a`-th.
pub open spec fn joined_groups(groups: Seq<Seq<usize>>, a: int, b: int) -> Seq<Seq<usize>> {
    groups.remove(b).update(a, groups[a] + groups[b])
}

/// Closest pairs are joined while they clear `join`, and beyond that while
/// there are more groups than speakers allowed.
pub open spec fn grouped(sims: Seq<Vec<i64>>, join: i64, groups: Seq<Seq<usize>>) -> Seq<Seq<usize>>
    decreases groups.len(),
{
    let (a, b) = closest_pair(sims, groups);
    if !(0 <= a < b < groups.len()) || (link(sims, groups[a], groups[b]) < join && groups.len()
        <= MAX_SPEAKERS) {
        groups
    } else {
        grouped(sims, join, joined_groups(groups, a, b))
    }
}

/// Each voice in a group of its own.
pub open spec fn singles(n: nat) -> Seq<Seq<usize>> {
    Seq::new(n, |i: int| seq![i as usize])
}

/// The groups of all voices.
pub open spec fn groups_of(sims: Seq<Vec<i64>>, join: i64) -> Seq<Seq<usize>> {
    grouped(sims, join, singles(sims.len()))
}

/// Every voice below `n` is in exactly one group, once, and no group is empty.
pub open spec fn partition(groups: Seq<Seq<usize>>, n: nat) -> bool {
    &&& forall|c: int| 0 <= c < groups.len() ==> (#[trigger] groups[c]).len() > 0
    &&& forall|c: int, k: int|
        0 <= c < groups.len() && 0 <= k < groups[c].len() ==> (#[trigger] groups[c][k]) < n
    &&& forall|c: int, k: int, d: int, l: int|
        0 <= c < groups.len() && 0 <= k < groups[c].len() && 0 <= d < groups.len() && 0 <= l
            < groups[d].len() && #[trigger] groups[c][k] == #[trigger] groups[d][l] ==> c == d && k
            == l
    &&& forall|i: int| 0 <= i < n ==> #[trigger] held(groups, i)
}

/// Some group holds the voice.
pub open spec fn held(groups: Seq<Seq<usize>>, i: int) -> bool {
    exists|c: int, k: int|
        0 <= c < groups.len() && 0 <= k < groups[c].len() && #[trigger] groups[c][k] == i
}

/// The group that holds a voice.
pub open spec fn group_of(groups: Seq<Seq<usize>>, i: int) -> int {
    choose|c: int| 0 <= c < groups.len() && (#[trigger] groups[c]).contains(i as usize)
}

/// The number of the group of each voice.
pub open spec fn labels_of(groups: Seq<Seq<usize>>, n: nat) -> Seq<usize> {
    Seq::new(n, |i: int| group_of(groups, i) as usize)
}

/// In a partition the group of a voice is the one that it is found in.
pub proof fn lemma_group_of(groups: Seq<Seq<usize>>, n: nat, c: int, k: int)
    requires
        partition(groups, n),
        0 <= c < groups.len(),
        0 <= k < groups[c].len(),
    ensures
        group_of(groups, groups[c][k] as int) == c,
{
    let i = groups[c][k] as int;
    assert(groups[c].contains(i as usize));
    let d = group_of(groups, i);
    assert(0 <= d < groups.len() && groups[d].contains(i as usize));
    let l = choose|l: int| 0 <= l < groups[d].len() && groups[d][l] == i as usize;
    assert(groups[c][k] == groups[d][l]);
}


/// The groups in a list of lists.
pub open spec fn rows(v: Seq<Vec<usize>>) -> Seq<Seq<usize>> {
    Seq::new(v.len(), |i: int| v[i]@)
}

proof fn lemma_closest_unique(
    sims: Seq<Vec<i64>>,
    groups: Seq<Seq<usize>>,
    a: int,
    b: int,
    x: int,
    y: int,
)
    requires
        closest(sims, groups, a, b),
        closest(sims, groups, x, y),
    ensures
        a == x,
        b == y,
{
    let la = link(sims, groups[a], groups[b]);
    let lx = link(sims, groups[x], groups[y]);
    assert(la <= lx && lx <= la);
    if before(x, y, a, b) {
        assert(lx < la);
    }
    if before(a, b, x, y) {
        assert(la < lx);
    }
}

/// Joining two groups keeps every voice in exactly one.
pub proof fn lemma_join_keeps_partition(groups: Seq<Seq<usize>>, a: int, b: int, n: nat)
    requires
        partition(groups, n),
        0 <= a < b < groups.len(),
    ensures
        partition(joined_groups(groups, a, b), n),
{
    let after = joined_groups(groups, a, b);
    // Where a place in the new groups comes from.
    let from = |c: int, k: int|
        {
            if c == a {
                if k < groups[a].len() {
                    (a, k)
                } else {
                    (b, k - groups[a].len())
                }
            } else if c < b {
                (c, k)
            } else {
                (c + 1, k)
            }
        };
    assert forall|c: int, k: int|
        0 <= c < after.len() && 0 <= k < after[c].len() implies {
        let f = from(c, k);
        &&& 0 <= f.0 < groups.len()
        &&& 0 <= f.1 < groups[f.0].len()
        &&& #[trigger] after[c][k] == groups[f.0][f.1]
    } by {}
    assert forall|c: int| 0 <= c < after.len() implies (#[trigger] after[c]).len() > 0 by {
        assert(groups[a].len() > 0);
        if c < b {
            assert(groups[c].len() > 0);
        } else {
            assert(groups[c + 1].len() > 0);
        }
    }
    assert forall|c: int, k: int| 0 <= c < after.len() && 0 <= k < after[c].len() implies (
    #[trigger] after[c][k]) < n by {
        let f = from(c, k);
        assert(after[c][k] == groups[f.0][f.1]);
    }
    assert forall|c: int, k: int, d: int, l: int|
        0 <= c < after.len() && 0 <= k < after[c].len() && 0 <= d < after.len() && 0 <= l
            < after[d].len() && #[trigger] after[c][k] == #[trigger] after[d][l] implies c == d && k
        == l by {
        let f = from(c, k);
        let g = from(d, l);
        assert(groups[f.0][f.1] == groups[g.0][g.1]);
        assert(f.0 == g.0 && f.1 == g.1);
    }
    assert forall|i: int| 0 <= i < n implies #[trigger] held(after, i) by {
        assert(held(groups, i));
        let (c, k) = choose|c: int, k: int|
            0 <= c < groups.len() && 0 <= k < groups[c].len() && #[trigger] groups[c][k] == i;
        if c == b {
            assert(after[a][groups[a].len() + k] == i);
        } else if c < b {
            assert(after[c][k] == i);
        } else {
            assert(after[c - 1][k] == i);
        }
    }
}

pub proof fn lemma_singles_partition(n: nat)
    requires
        n <= usize::MAX,
    ensures
        partition(singles(n), n),
{
    let g = singles(n);
    assert forall|i: int| 0 <= i < n implies #[trigger] held(g, i) by {
        assert(g[i][0] == i);
    }
}

/// The weakest similarity across two groups.
fn find_link(sims: &Vec<Vec<i64>>, a: &Vec<usize>, b: &Vec<usize>) -> (r: i64)
    requires
        square(sims@),
        forall|k: int| 0 <= k < a@.len() ==> #[trigger] a@[k] < sims@.len(),
        forall|k: int| 0 <= k < b@.len() ==> #[trigger] b@[k] < sims@.len(),
    ensures
        r == link(sims@, a@, b@),
{
    let mut worst: i64 = i64::MAX;
    let mut i: usize = 0;
    while i < a.len()
        invariant
            i <= a@.len(),
            square(sims@),
            forall|k: int| 0 <= k < a@.len() ==> #[trigger] a@[k] < sims@.len(),
            forall|k: int| 0 <= k < b@.len() ==> #[trigger] b@[k] < sims@.len(),
            worst == link(sims@, a@.take(i as int), b@),
        decreases a@.len() - i,
    {
        let row = &sims[a[i]];
        let mut low: i64 = i64::MAX;
        let mut j: usize = 0;
        while j < b.len()
            invariant
                j <= b@.len(),
                i < a@.len(),
                a@[i as int] < sims@.len(),
                row@ == sims@[a@[i as int] as int]@,
                row@.len() == sims@.len(),
                forall|k: int| 0 <= k < b@.len() ==> #[trigger] b@[k] < sims@.len(),
                low == weakest(sims@, a@[i as int], b@.take(j as int)),
            decreases b@.len() - j,
        {
            let s: i64 = row[b[j]];
            assert(b@.take(j + 1).drop_last() == b@.take(j as int));
            if s < low {
                low = s;
            }
            j += 1;
        }
        assert(b@.take(j as int) == b@);
        assert(a@.take(i + 1).drop_last() == a@.take(i as int));
        if low < worst {
            worst = low;
        }
        i += 1;
    }
    assert(a@.take(i as int) == a@);
    worst
}

/// The closest pair of groups and its link; none where there is no pair.
fn find_closest(sims: &Vec<Vec<i64>>, groups: &Vec<Vec<usize>>) -> (r: Option<(usize, usize, i64)>)
    requires
        square(sims@),
        partition(rows(groups@), sims@.len()),
    ensures
        match r {
            Some((a, b, s)) => closest(sims@, rows(groups@), a as int, b as int) && s == link(
                sims@,
                rows(groups@)[a as int],
                rows(groups@)[b as int],
            ),
            None => groups@.len() < 2,
        },
{
    let ghost g = rows(groups@);
    let mut best: Option<(usize, usize, i64)> = None;
    let mut a: usize = 0;
    while a < groups.len()
        invariant
            a <= groups@.len(),
            g == rows(groups@),
            square(sims@),
            partition(g, sims@.len()),
            best is None ==> a == 0 || groups@.len() < 2,
            best matches Some((p, q, s)) ==> {
                &&& p < q < g.len()
                &&& p < a
                &&& s == link(sims@, g[p as int], g[q as int])
                &&& forall|x: int, y: int|
                    #![trigger link(sims@, g[x], g[y])]
                    0 <= x < y < g.len() && x < a ==> if before(x, y, p as int, q as int) {
                        link(sims@, g[x], g[y]) < s
                    } else {
                        link(sims@, g[x], g[y]) <= s
                    }
            },
        decreases groups@.len() - a,
    {
        let mut b: usize = a + 1;
        while b < groups.len()
            invariant
                a < b <= groups@.len(),
                g == rows(groups@),
                square(sims@),
                partition(g, sims@.len()),
                best is None ==> a == 0 && b == a + 1 || groups@.len() < 2,
                best matches Some((p, q, s)) ==> {
                    &&& p < q < g.len()
                    &&& p <= a
                    &&& p == a ==> q < b
                    &&& s == link(sims@, g[p as int], g[q as int])
                    &&& forall|x: int, y: int|
                        #![trigger link(sims@, g[x], g[y])]
                        0 <= x < y < g.len() && before(x, y, a as int, b as int) ==> if before(
                            x,
                            y,
                            p as int,
                            q as int,
                        ) {
                            link(sims@, g[x], g[y]) < s
                        } else {
                            link(sims@, g[x], g[y]) <= s
                        }
                },
            decreases groups@.len() - b,
        {
            assert(g[a as int] == groups@[a as int]@);
            assert(g[b as int] == groups@[b as int]@);
            assert forall|k: int| 0 <= k < groups@[a as int]@.len() implies
                #[trigger] groups@[a as int]@[k] < sims@.len() by {
                assert(g[a as int][k] < sims@.len());
            }
            assert forall|k: int| 0 <= k < groups@[b as int]@.len() implies
                #[trigger] groups@[b as int]@[k] < sims@.len() by {
                assert(g[b as int][k] < sims@.len());
            }
            let s = find_link(sims, &groups[a], &groups[b]);
            let better = match best {
                Some((p, q, t)) => s > t,
                None => true,
            };
            if better {
                best = Some((a, b, s));
            }
            b += 1;
        }
        a += 1;
    }
    best
}

/// Complete-linkage clustering of voices by how alike they are: groups are
/// joined, closest first, while even their weakest pair clears `join`, and
/// beyond that while there are more than `MAX_SPEAKERS`. Gives the number of
/// the group of each voice. The similarities are integers that are ordered
/// as the measured ones are.
pub fn cluster(sims: &Vec<Vec<i64>>, join: i64) -> (r: Vec<usize>)
    requires
        square(sims@),
    ensures
        r@.len() == sims@.len(),
        partition(groups_of(sims@, join), sims@.len()),
        r@ == labels_of(groups_of(sims@, join), sims@.len()),
{
    let n = sims.len();
    let mut groups: Vec<Vec<usize>> = Vec::new();
    let mut labels: Vec<usize> = Vec::new();
    let mut i: usize = 0;
    while i < n
        invariant
            i <= n,
            groups@.len() == i,
            labels@.len() == i,
            forall|j: int| 0 <= j < i ==> (#[trigger] groups@[j])@ == seq![j as usize],
        decreases n - i,
    {
        let mut one: Vec<usize> = Vec::new();
        one.push(i);
        groups.push(one);
        labels.push(0);
        i += 1;
    }
    proof {
        assert(rows(groups@) =~= singles(n as nat));
        lemma_singles_partition(n as nat);
    }
    loop
        invariant
            n == sims@.len(),
            square(sims@),
            partition(rows(groups@), n as nat),
            grouped(sims@, join, rows(groups@)) == groups_of(sims@, join),
        ensures
            rows(groups@) == groups_of(sims@, join),
        decreases groups@.len(),
    {
        let ghost g = rows(groups@);
        match find_closest(sims, &groups) {
            None => {
                break;
            },
            Some((a, b, s)) => {
                proof {
                    let p = (a as int, b as int);
                    assert(closest(sims@, g, p.0, p.1));
                    let c = closest_pair(sims@, g);
                    lemma_closest_unique(sims@, g, c.0, c.1, a as int, b as int);
                }
                if s < join && groups.len() <= MAX_SPEAKERS {
                    break;
                }
                let mut moved = groups.remove(b);
                groups[a].append(&mut moved);
                proof {
                    assert(rows(groups@) =~= joined_groups(g, a as int, b as int));
                    lemma_join_keeps_partition(g, a as int, b as int, n as nat);
                }
            },
        }
    }
    let ghost g = rows(groups@);
    let mut c: usize = 0;
    while c < groups.len()
        invariant
            c <= groups@.len(),
            g == rows(groups@),
            labels@.len() == n,
            partition(g, n as nat),
            forall|d: int, k: int|
                0 <= d < c && 0 <= k < g[d].len() ==> labels@[(#[trigger] g[d][k]) as int] == d,
        decreases groups@.len() - c,
    {
        let members = &groups[c];
        assert(members@ == g[c as int]);
        let mut k: usize = 0;
        while k < members.len()
            invariant
                c < groups@.len(),
                k <= members@.len(),
                g == rows(groups@),
                members@ == g[c as int],
                labels@.len() == n,
                partition(g, n as nat),
                forall|d: int, l: int|
                    0 <= d < c && 0 <= l < g[d].len() ==> labels@[(#[trigger] g[d][l]) as int] == d,
                forall|l: int|
                    0 <= l < k ==> labels@[(#[trigger] g[c as int][l]) as int] == c,
            decreases members@.len() - k,
        {
            assert(g[c as int][k as int] < n);
            labels[members[k]] = c;
            k += 1;
        }
        c += 1;
    }
    proof {
        assert forall|i: int| 0 <= i < n implies labels@[i] == #[trigger] labels_of(g, n as nat)[i] by {
            assert(held(g, i));
            let (d, k) = choose|d: int, k: int|
                0 <= d < g.len() && 0 <= k < g[d].len() && #[trigger] g[d][k] == i;
            lemma_group_of(g, n as nat, d, k);
            assert(labels@[g[d][k] as int] == d);
        }
    }
    labels
}

// ---------------------------------------------------------------------------
// Labels
// ---------------------------------------------------------------------------

/// One relabeling decision: the entry starting at `start_ms` becomes `label`.
#[derive(Debug)]
pub struct Assignment {
    pub start_ms: u64,
    pub label: String,
}

/// The groups in the order in which they first appear.
pub open spec fn appearances(labels: Seq<usize>) -> Seq<usize>
    decreases labels.len(),
{
    if labels.len() == 0 {
        Seq::empty()
    } else {
        let order = appearances(labels.drop_last());
        if order.contains(labels.last()) {
            order
        } else {
            order.push(labels.last())
        }
    }
}

/// The speaker with the number `n`, counted from zero.
pub open spec fn speaker_name(n: nat) -> Seq<char> {
    "Speaker "@ + text::decimal(n + 1)
}

/// The label of an entry: its speaker's number is the place of its group in
/// the order of appearance.
pub open spec fn label_of(labels: Seq<usize>, i: int) -> Seq<char> {
    speaker_name(appearances(labels).index_of(labels[i]) as nat)
}

pub proof fn lemma_appearances(labels: Seq<usize>)
    ensures
        appearances(labels).no_duplicates(),
        appearances(labels).len() <= labels.len(),
        forall|i: int|
            0 <= i < labels.len() ==> appearances(labels).contains(#[trigger] labels[i]),
        forall|p: int|
            0 <= p < appearances(labels).len() ==> labels.contains(
                #[trigger] appearances(labels)[p],
            ),
    decreases labels.len(),
{
    if labels.len() > 0 {
        let rest = labels.drop_last();
        lemma_appearances(rest);
        let order = appearances(rest);
        assert forall|i: int| 0 <= i < labels.len() implies appearances(labels).contains(
            #[trigger] labels[i],
        ) by {
            if i < rest.len() {
                assert(order.contains(rest[i]));
                let p = choose|p: int| 0 <= p < order.len() && order[p] == rest[i];
                assert(appearances(labels)[p] == labels[i]);
            } else if !order.contains(labels.last()) {
                assert(appearances(labels)[order.len() as int] == labels[i]);
            }
        }
        assert forall|p: int| 0 <= p < appearances(labels).len() implies labels.contains(
            #[trigger] appearances(labels)[p],
        ) by {
            if p < order.len() {
                assert(rest.contains(order[p]));
                let i = choose|i: int| 0 <= i < rest.len() && rest[i] == order[p];
                assert(labels[i] == order[p]);
            } else {
                assert(labels[labels.len() - 1] == appearances(labels)[p]);
            }
        }
    }
}

/// Numbers the groups of the entries by first appearance: "Speaker 1" is the
/// first voice that is heard.
pub fn number_speakers(starts: &Vec<u64>, labels: &Vec<usize>) -> (r: Vec<Assignment>)
    requires
        starts@.len() == labels@.len(),
    ensures
        r@.len() == starts@.len(),
        forall|i: int|
            0 <= i < r@.len() ==> (#[trigger] r@[i]).start_ms == starts@[i] && r@[i].label@ == label_of(
                labels@,
                i,
            ),
{
    let mut order: Vec<usize> = Vec::new();
    let mut out: Vec<Assignment> = Vec::new();
    let mut i: usize = 0;
    assert(labels@.take(0) =~= Seq::<usize>::empty());
    while i < labels.len()
        invariant
            i <= labels@.len(),
            starts@.len() == labels@.len(),
            out@.len() == i,
            order@ == appearances(labels@.take(i as int)),
            order@.len() <= i,
            order@.no_duplicates(),
            forall|j: int| 0 <= j < i ==> order@.contains(#[trigger] labels@[j]),
            forall|j: int|
                0 <= j < i ==> (#[trigger] out@[j]).start_ms == starts@[j] && out@[j].label@
                    == speaker_name(order@.index_of(labels@[j]) as nat),
        decreases labels@.len() - i,
    {
        let ghost earlier = order@;
        let c: usize = labels[i];
        let mut p: usize = 0;
        while p < order.len() && order[p] != c
            invariant
                p <= order@.len(),
                order@ == earlier,
                forall|q: int| 0 <= q < p ==> order@[q] != c,
            decreases order@.len() - p,
        {
            p += 1;
        }
        assert(labels@.take(i + 1).drop_last() == labels@.take(i as int));
        if p == order.len() {
            assert(!earlier.contains(c));
            order.push(c);
        } else {
            assert(earlier.contains(c)) by {
                assert(earlier[p as int] == c);
            }
        }
        let mut label = text::owned("Speaker ");
        text::push_decimal(&mut label, p as u64 + 1);
        out.push(Assignment { start_ms: starts[i], label });
        proof {
            assert(order@[p as int] == c);
            lemma_appearances(labels@.take(i + 1));
            assert(order@.index_of(c) == p);
            assert forall|j: int| 0 <= j < i implies order@.contains(#[trigger] labels@[j]) && order@.index_of(
                labels@[j],
            ) == earlier.index_of(labels@[j]) by {
                assert(earlier.contains(labels@[j]));
                let q = earlier.index_of(labels@[j]);
                assert(order@[q] == labels@[j]);
            }
        }
        i += 1;
    }
    assert(labels@.take(i as int) == labels@);
    out
}

/// Groups the voices of the entries that start at `starts` by how alike they
/// are, and gives each entry the label of its speaker.
pub fn assign_speakers(starts: &Vec<u64>, sims: &Vec<Vec<i64>>, join: i64) -> (r: Vec<Assignment>)
    requires
        starts@.len() == sims@.len(),
        square(sims@),
    ensures
        r@.len() == starts@.len(),
        forall|i: int|
            0 <= i < r@.len() ==> (#[trigger] r@[i]).start_ms == starts@[i] && r@[i].label@ == label_of(
                labels_of(groups_of(sims@, join), sims@.len()),
                i,
            ),
        partition(groups_of(sims@, join), sims@.len()),
{
    let labels = cluster(sims, join);
    number_speakers(starts, &labels)
}

} // verus!
