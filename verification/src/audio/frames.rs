//! Raw audio as devices hand it out: bytes that make up 32-bit samples, and
//! samples of several channels that belong to one moment.
use vstd::prelude::*;
use std::collections::VecDeque;

verus! {

// ---------------------------------------------------------------------------
// Bytes
// ---------------------------------------------------------------------------

/// The 32 bits of the sample that begins at `at`, the lowest byte first.
pub open spec fn word_at(bytes: Seq<u8>, at: int) -> u32 {
    (bytes[at] + 0x100 * bytes[at + 1] + 0x1_0000 * bytes[at + 2] + 0x100_0000 * bytes[at + 3]) as u32
}

/// The 32 bits of a sample, the lowest byte first.
fn word(a: u8, b: u8, c: u8, d: u8) -> (r: u32)
    ensures
        r == a + 0x100 * b + 0x1_0000 * c + 0x100_0000 * d,
{
    a as u32 + 0x100 * b as u32 + 0x1_0000 * c as u32 + 0x100_0000 * d as u32
}

/// Number of bytes in the whole frames among `len` bytes.
pub open spec fn whole_bytes(len: nat, channels: nat) -> nat {
    len / (4 * channels) * (4 * channels)
}

/// The samples in the whole frames among the bytes of a stream.
pub open spec fn whole_words(bytes: Seq<u8>, channels: nat) -> Seq<u32> {
    Seq::new(whole_bytes(bytes.len(), channels) / 4, |i: int| word_at(bytes, 4 * i))
}

proof fn lemma_whole(len: nat, channels: nat)
    requires
        channels > 0,
    ensures
        whole_bytes(len, channels) <= len < whole_bytes(len, channels) + 4 * channels,
        whole_bytes(len, channels) % 4 == 0,
        whole_bytes(len, channels) % (4 * channels) == 0,
{
    let block = 4 * channels;
    let q = len / block;
    assert(q * block <= len < q * block + block) by (nonlinear_arith)
        requires
            block > 0,
            q == len / block,
    ;
    assert(q * block == 4 * (q * channels)) by (nonlinear_arith)
        requires
            block == 4 * channels,
    ;
    assert((q * block) % block == 0) by (nonlinear_arith)
        requires
            block > 0,
    ;
}

/// Takes the whole frames out of the queue of a stream; what is left waits for
/// the bytes that complete it.
pub fn take_frames(queue: &mut VecDeque<u8>, channels: u16) -> (r: Vec<u32>)
    requires
        channels > 0,
    ensures
        r@ == whole_words(old(queue)@, channels as nat),
        final(queue)@ == old(queue)@.skip(whole_bytes(old(queue)@.len(), channels as nat) as int),
{
    let ghost bytes = queue@;
    let block: usize = 4 * channels as usize;
    let len: usize = queue.len();
    proof {
        lemma_whole(bytes.len(), channels as nat);
    }
    let rest: usize = len % block;
    assert(len - rest == whole_bytes(bytes.len(), channels as nat)) by (nonlinear_arith)
        requires
            block > 0,
            block == 4 * channels,
            rest == len % block,
            bytes.len() == len,
            whole_bytes(bytes.len(), channels as nat) == bytes.len() / (4 * channels as nat) * (4
                * channels as nat),
    ;
    let count: usize = (len - rest) / 4;
    let mut out: Vec<u32> = Vec::new();
    let mut i: usize = 0;
    assert(bytes.skip(0) =~= bytes);
    while i < count
        invariant
            i <= count,
            4 * count <= len,
            len == bytes.len(),
            queue@ == bytes.skip(4 * i),
            out@ =~= Seq::new(i as nat, |k: int| word_at(bytes, 4 * k)),
        decreases count - i,
    {
        let w = word(queue[0], queue[1], queue[2], queue[3]);
        let _ = queue.pop_front();
        let _ = queue.pop_front();
        let _ = queue.pop_front();
        let _ = queue.pop_front();
        assert(queue@ =~= bytes.skip(4 * (i + 1)));
        out.push(w);
        i += 1;
    }
    out
}

/// The complete samples in a buffer of one channel.
pub fn buffer_words(bytes: &Vec<u8>) -> (r: Vec<u32>)
    ensures
        r@ == whole_words(bytes@, 1),
{
    let len: usize = bytes.len();
    let count: usize = len / 4;
    let mut out: Vec<u32> = Vec::new();
    let mut i: usize = 0;
    while i < count
        invariant
            i <= count,
            4 * count <= len,
            len == bytes@.len(),
            out@ =~= Seq::new(i as nat, |k: int| word_at(bytes@, 4 * k)),
        decreases count - i,
    {
        let at: usize = 4 * i;
        out.push(word(bytes[at], bytes[at + 1], bytes[at + 2], bytes[at + 3]));
        i += 1;
    }
    proof {
        lemma_whole(bytes@.len(), 1);
    }
    out
}

// ---------------------------------------------------------------------------
// Channels
// ---------------------------------------------------------------------------

/// The length of the shortest of some lists.
pub open spec fn shortest<T>(lists: Seq<Seq<T>>) -> nat
    decreases lists.len(),
{
    if lists.len() == 0 {
        0
    } else if lists.len() == 1 {
        lists[0].len()
    } else {
        let rest = shortest(lists.drop_last());
        if lists.last().len() < rest {
            lists.last().len()
        } else {
            rest
        }
    }
}

/// The samples of one moment, with a list for each channel.
pub open spec fn across<T>(lists: Seq<Seq<T>>, f: int) -> Seq<T> {
    Seq::new(lists.len(), |c: int| lists[c][f])
}

/// The lists by their items.
pub open spec fn lists_of<T>(v: Seq<Vec<T>>) -> Seq<Seq<T>> {
    Seq::new(v.len(), |i: int| v[i]@)
}

/// The samples that belong together, moment by moment, with a list for each
/// channel.
pub open spec fn planar<T>(lists: Seq<Seq<T>>) -> Seq<Seq<T>> {
    Seq::new(shortest(lists), |f: int| across(lists, f))
}

/// The samples that belong together, moment by moment, where those of one
/// moment follow each other.
pub open spec fn interleaved<T>(samples: Seq<T>, channels: nat) -> Seq<Seq<T>> {
    Seq::new(
        samples.len() / channels,
        |f: int| samples.subrange(f * channels, f * channels + channels),
    )
}

proof fn lemma_shortest<T>(lists: Seq<Seq<T>>, c: int)
    requires
        0 <= c < lists.len(),
    ensures
        shortest(lists) <= lists[c].len(),
    decreases lists.len(),
{
    if lists.len() > 1 && c < lists.len() - 1 {
        lemma_shortest(lists.drop_last(), c);
        assert(lists.drop_last()[c] == lists[c]);
    }
}

/// The samples that belong together, with a list for each channel.
pub fn planar_frames<T: Copy>(lists: &Vec<Vec<T>>) -> (r: Vec<Vec<T>>)
    ensures
        lists_of(r@) == planar(lists_of(lists@)),
{
    let ghost all = lists_of(lists@);
    let mut out: Vec<Vec<T>> = Vec::new();
    if lists.len() == 0 {
        assert(lists_of(out@) =~= planar(all));
        return out;
    }
    let mut frames: usize = lists[0].len();
    let mut c: usize = 1;
    assert(all.take(1).len() == 1);
    while c < lists.len()
        invariant
            1 <= c <= lists@.len(),
            all == lists_of(lists@),
            frames == shortest(all.take(c as int)),
        decreases lists@.len() - c,
    {
        assert(all.take(c + 1).drop_last() =~= all.take(c as int));
        assert(all.take(c + 1).last() == lists@[c as int]@);
        if lists[c].len() < frames {
            frames = lists[c].len();
        }
        c += 1;
    }
    assert(all.take(c as int) =~= all);
    let mut f: usize = 0;
    while f < frames
        invariant
            f <= frames,
            all == lists_of(lists@),
            frames == shortest(all),
            out@.len() == f,
            forall|g: int| 0 <= g < f ==> (#[trigger] out@[g])@ == across(all, g),
        decreases frames - f,
    {
        let mut frame: Vec<T> = Vec::new();
        let mut k: usize = 0;
        while k < lists.len()
            invariant
                k <= lists@.len(),
                f < frames,
                all == lists_of(lists@),
                frames == shortest(all),
                frame@ =~= across(all, f as int).take(k as int),
            decreases lists@.len() - k,
        {
            proof {
                lemma_shortest(all, k as int);
            }
            frame.push(lists[k][f]);
            k += 1;
        }
        assert(across(all, f as int).take(k as int) =~= across(all, f as int));
        out.push(frame);
        f += 1;
    }
    assert(lists_of(out@) =~= planar(all));
    out
}

/// The samples that belong together, where those of one moment follow each
/// other; an incomplete moment at the end is left out.
pub fn interleaved_frames<T: Copy>(samples: &Vec<T>, channels: usize) -> (r: Vec<Vec<T>>)
    requires
        channels > 0,
    ensures
        lists_of(r@) == interleaved(samples@, channels as nat),
{
    let len: usize = samples.len();
    let frames: usize = len / channels;
    let mut out: Vec<Vec<T>> = Vec::new();
    let mut f: usize = 0;
    let mut at: usize = 0;
    assert(frames * channels <= len) by (nonlinear_arith)
        requires
            channels > 0,
            frames == len / channels,
    ;
    while f < frames
        invariant
            f <= frames,
            at == f * channels,
            frames * channels <= len,
            len == samples@.len(),
            out@.len() == f,
            forall|g: int|
                0 <= g < f ==> (#[trigger] out@[g])@ == samples@.subrange(
                    g * channels,
                    g * channels + channels,
                ),
        decreases frames - f,
    {
        assert((f + 1) * channels == f * channels + channels) by (nonlinear_arith);
        assert((f + 1) * channels <= frames * channels) by (nonlinear_arith)
            requires
                f + 1 <= frames,
        ;
        let mut frame: Vec<T> = Vec::new();
        let mut k: usize = 0;
        while k < channels
            invariant
                k <= channels,
                at + channels <= len,
                len == samples@.len(),
                frame@ =~= samples@.subrange(at as int, at + k),
            decreases channels - k,
        {
            frame.push(samples[at + k]);
            k += 1;
        }
        out.push(frame);
        at += channels;
        f += 1;
    }
    assert(lists_of(out@) =~= interleaved(samples@, channels as nat));
    out
}

// ---------------------------------------------------------------------------
// Buffers of a tap
// ---------------------------------------------------------------------------

/// One buffer of a tap: how many channels it interleaves, and its samples
/// where it has any.
pub struct TapBuffer<T> {
    pub channels: usize,
    pub samples: Option<Vec<T>>,
}

/// The buffers that carry audio, each cut to whole moments.
pub open spec fn usable<T>(buffers: Seq<TapBuffer<T>>) -> Seq<Seq<T>>
    decreases buffers.len(),
{
    if buffers.len() == 0 {
        Seq::empty()
    } else {
        let rest = usable(buffers.drop_last());
        let b = buffers.last();
        match b.samples {
            Some(v) if b.channels > 0 => rest.push(
                v@.take(v@.len() as int / b.channels as int * b.channels as int),
            ),
            _ => rest,
        }
    }
}

/// The samples that belong together in the buffers of a tap, if they carry
/// audio. Several buffers hold a channel each; a single one interleaves its
/// channels.
pub open spec fn tapped<T>(buffers: Seq<TapBuffer<T>>) -> Option<Seq<Seq<T>>> {
    let lists = usable(buffers);
    if lists.len() == 0 {
        None
    } else if buffers.len() > 1 {
        Some(planar(lists))
    } else {
        Some(interleaved(lists[0], buffers[0].channels as nat))
    }
}

/// The samples that belong together in the buffers of a tap, if they carry
/// audio.
pub fn tap_frames<T: Copy>(buffers: &Vec<TapBuffer<T>>) -> (r: Option<Vec<Vec<T>>>)
    ensures
        match r {
            Some(frames) => tapped(buffers@) == Some(lists_of(frames@)),
            None => tapped(buffers@) is None,
        },
{
    let mut lists: Vec<Vec<T>> = Vec::new();
    let mut i: usize = 0;
    assert(buffers@.take(0) =~= Seq::empty());
    assert(lists_of(lists@) =~= Seq::empty());
    while i < buffers.len()
        invariant
            i <= buffers@.len(),
            lists_of(lists@) == usable(buffers@.take(i as int)),
        decreases buffers@.len() - i,
    {
        assert(buffers@.take(i + 1).drop_last() =~= buffers@.take(i as int));
        let ghost before = lists_of(lists@);
        let channels = buffers[i].channels;
        if let Some(v) = &buffers[i].samples {
            if channels > 0 {
                let len: usize = v.len();
                assert(len % channels <= len) by (nonlinear_arith)
                    requires
                        channels > 0,
                ;
                let whole: usize = len - len % channels;
                assert(whole == len as int / channels as int * channels as int && whole <= len)
                    by (nonlinear_arith)
                    requires
                        channels > 0,
                        whole == len - len % channels,
                ;
                let mut cut: Vec<T> = Vec::new();
                let mut k: usize = 0;
                while k < whole
                    invariant
                        k <= whole <= v@.len(),
                        cut@ =~= v@.take(k as int),
                    decreases whole - k,
                {
                    cut.push(v[k]);
                    k += 1;
                }
                assert(lists_of(lists@.push(cut)) =~= before.push(v@.take(whole as int)));
                lists.push(cut);
            }
        }
        i += 1;
    }
    assert(buffers@.take(i as int) =~= buffers@);
    if lists.len() == 0 {
        return None;
    }
    assert(lists_of(lists@)[0] == lists@[0]@);
    if buffers.len() > 1 {
        Some(planar_frames(&lists))
    } else {
        proof {
            assert(buffers@.drop_last() =~= Seq::empty());
            assert(usable(buffers@.drop_last()).len() == 0);
        }
        Some(interleaved_frames(&lists[0], buffers[0].channels))
    }
}

// ---------------------------------------------------------------------------
// Laws
// ---------------------------------------------------------------------------

/// In whatever pieces the bytes of a stream arrive, the same samples come out:
/// what the first piece leaves over is completed by the next.
pub proof fn pieces_make_no_difference(a: Seq<u8>, b: Seq<u8>, channels: nat)
    requires
        channels > 0,
    ensures
        ({
            let taken = whole_bytes(a.len(), channels) as int;
            whole_words(a, channels) + whole_words(a.skip(taken) + b, channels) == whole_words(
                a + b,
                channels,
            )
        }),
{
    let block = (4 * channels) as int;
    let taken = whole_bytes(a.len(), channels) as int;
    let rest = a.skip(taken) + b;
    lemma_whole(a.len(), channels);
    lemma_whole(rest.len(), channels);
    lemma_whole((a + b).len(), channels);
    let q = a.len() as int / block;
    let n = rest.len() as int;
    assert((q * block + n) / block == q + n / block) by (nonlinear_arith)
        requires
            block > 0,
    ;
    assert((q + n / block) * block == q * block + n / block * block) by (nonlinear_arith);
    assert(whole_bytes((a + b).len(), channels) == taken + whole_bytes(rest.len(), channels));
    let left = whole_words(a, channels) + whole_words(rest, channels);
    let right = whole_words(a + b, channels);
    assert(left.len() == right.len());
    assert forall|i: int| 0 <= i < left.len() implies left[i] == right[i] by {
        let first = whole_words(a, channels).len() as int;
        if i < first {
            assert(4 * i + 3 < a.len());
        } else {
            let j = i - first;
            assert(4 * first == taken);
            assert(4 * i == taken + 4 * j);
            assert(4 * j + 3 < rest.len());
            assert forall|k: int| 0 <= k < rest.len() implies #[trigger] rest[k] == (a + b)[taken
                + k] by {}
            assert(rest[4 * j] == (a + b)[4 * i]);
            assert(rest[4 * j + 1] == (a + b)[4 * i + 1]);
            assert(rest[4 * j + 2] == (a + b)[4 * i + 2]);
            assert(rest[4 * j + 3] == (a + b)[4 * i + 3]);
        }
    }
    assert(left =~= right);
}

/// Each sample of a whole moment stands in that moment, at the place of its
/// channel.
pub proof fn moments_keep_samples<T>(samples: Seq<T>, channels: nat, i: int)
    requires
        channels > 0,
        0 <= i < samples.len() / channels * channels,
    ensures
        interleaved(samples, channels)[i / channels as int][i % channels as int] == samples[i],
{
    let f = i / channels as int;
    let c = i % channels as int;
    let n = (samples.len() / channels) as int;
    assert(0 <= f < n && 0 <= c < channels && f * channels + c == i) by (nonlinear_arith)
        requires
            channels > 0,
            0 <= i < n * channels,
            f == i / channels as int,
            c == i % channels as int,
    ;
    assert((f + 1) * channels <= n * channels) by (nonlinear_arith)
        requires
            f + 1 <= n,
    ;
    assert((f + 1) * channels == f * channels + channels) by (nonlinear_arith);
    assert(n * channels <= samples.len()) by (nonlinear_arith)
        requires
            channels > 0,
            n == samples.len() as int / channels as int,
    ;
}

} // verus!
