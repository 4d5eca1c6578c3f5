//! The recording of a meeting: a WAV file of 16 kHz mono samples.
//!
//! The file is padded with silence up to the session time of each chunk, so
//! that a timestamp of the transcript is the same position in the recording.
//! The sizes in the header are patched every few seconds, so that a crash
//! still leaves a playable file. Nothing here touches a disk: the functions
//! say what to write where.
use vstd::prelude::*;
use crate::gemini::live;
use crate::gemini::live::samples_to_bytes;

verus! {

pub const SAMPLES_PER_MS: u64 = 16;

/// The sizes are patched at most this often (in samples): about 5 s.
pub const PATCH_EVERY_SAMPLES: u64 = 80_000;

/// The four bytes of a number, the lowest one first, modulo their range.
pub open spec fn le32(n: nat) -> Seq<u8> {
    seq![
        (n % 256) as u8,
        ((n / 256) % 256) as u8,
        ((n / 0x1_0000) % 256) as u8,
        ((n / 0x100_0000) % 256) as u8,
    ]
}

/// The two bytes of a number, the lower one first.
pub open spec fn le16(n: nat) -> Seq<u8> {
    seq![(n % 256) as u8, ((n / 256) % 256) as u8]
}

/// The canonical header of a PCM WAV file: mono, 16-bit, 16 kHz.
pub open spec fn header_bytes(data_len: nat) -> Seq<u8> {
    seq![0x52u8, 0x49, 0x46, 0x46] + le32(36 + data_len) + seq![0x57u8, 0x41, 0x56, 0x45]
        + seq![0x66u8, 0x6d, 0x74, 0x20] + le32(16) + le16(1) + le16(1) + le32(16_000) + le32(
        32_000,
    ) + le16(2) + le16(16) + seq![0x64u8, 0x61, 0x74, 0x61] + le32(data_len)
}

/// The recording of `samples` in a file whose header tells of `told` samples.
pub open spec fn recording(samples: Seq<i16>, told: nat) -> Seq<u8> {
    header_bytes(2 * told) + live::pcm_bytes(samples)
}

/// `n` samples of silence.
pub open spec fn silence(n: nat) -> Seq<i16> {
    Seq::new(n, |i: int| 0i16)
}

/// The file with `bytes` in place of what it held at `at`.
pub open spec fn put(file: Seq<u8>, at: int, bytes: Seq<u8>) -> Seq<u8> {
    file.take(at) + bytes + file.skip(at + bytes.len())
}

/// What to do to the file: append silence, append `bytes`, then put the new
/// sizes in their places in the header, if there are new ones.
pub struct WavEdit {
    pub pad_bytes: u64,
    pub bytes: Vec<u8>,
    pub sizes: Option<WavSizes>,
}

/// The two sizes of a header: of the file and of its data. The first belongs
/// at byte 4, the second at byte 40.
pub struct WavSizes {
    pub riff: Vec<u8>,
    pub data: Vec<u8>,
}

/// The file after an edit.
pub open spec fn edited(file: Seq<u8>, e: WavEdit) -> Seq<u8> {
    let longer = file + Seq::new(e.pad_bytes as nat, |i: int| 0u8) + e.bytes@;
    match e.sizes {
        Some(s) => put(put(longer, 4, s.riff@), 40, s.data@),
        None => longer,
    }
}

/// The four bytes of a number, modulo their range.
fn bytes_of(n: u64) -> (r: Vec<u8>)
    ensures
        r@ == le32(n as nat),
{
    let mut r: Vec<u8> = Vec::new();
    r.push((n % 256) as u8);
    r.push(((n / 256) % 256) as u8);
    r.push(((n / 0x1_0000) % 256) as u8);
    r.push(((n / 0x100_0000) % 256) as u8);
    assert(r@ =~= le32(n as nat));
    r
}

fn put32(h: &mut Vec<u8>, n: u64)
    ensures
        final(h)@ == old(h)@ + le32(n as nat),
{
    h.push((n % 256) as u8);
    h.push(((n / 256) % 256) as u8);
    h.push(((n / 0x1_0000) % 256) as u8);
    h.push(((n / 0x100_0000) % 256) as u8);
    assert(h@ =~= old(h)@ + le32(n as nat));
}

fn put16(h: &mut Vec<u8>, n: u64)
    ensures
        final(h)@ == old(h)@ + le16(n as nat),
{
    h.push((n % 256) as u8);
    h.push(((n / 256) % 256) as u8);
    assert(h@ =~= old(h)@ + le16(n as nat));
}

fn put_name(h: &mut Vec<u8>, a: u8, b: u8, c: u8, d: u8)
    ensures
        final(h)@ == old(h)@ + seq![a, b, c, d],
{
    h.push(a);
    h.push(b);
    h.push(c);
    h.push(d);
    assert(h@ =~= old(h)@ + seq![a, b, c, d]);
}

/// The header of a file with `data_len` bytes of samples.
pub fn header(data_len: u32) -> (h: Vec<u8>)
    ensures
        h@ == header_bytes(data_len as nat),
        h@.len() == 44,
{
    let mut h: Vec<u8> = Vec::new();
    put_name(&mut h, 0x52, 0x49, 0x46, 0x46);
    assert(h@ =~= seq![0x52u8, 0x49, 0x46, 0x46]);
    put32(&mut h, 36 + data_len as u64);
    put_name(&mut h, 0x57, 0x41, 0x56, 0x45);
    put_name(&mut h, 0x66, 0x6d, 0x74, 0x20);
    put32(&mut h, 16);
    put16(&mut h, 1);
    put16(&mut h, 1);
    put32(&mut h, 16_000);
    put32(&mut h, 32_000);
    put16(&mut h, 2);
    put16(&mut h, 16);
    put_name(&mut h, 0x64, 0x61, 0x74, 0x61);
    put32(&mut h, data_len as u64);
    h
}

/// A recording in progress.
pub struct WavRecorder {
    samples_written: u64,
    last_patched: u64,
}

/// What a [`WavRecorder`] knows of its file: how many samples it holds, and
/// how many its header tells of.
pub struct RecorderModel {
    pub written: nat,
    pub told: nat,
}

impl View for WavRecorder {
    type V = RecorderModel;

    closed spec fn view(&self) -> RecorderModel {
        RecorderModel { written: self.samples_written as nat, told: self.last_patched as nat }
    }
}

impl RecorderModel {
    /// The header tells of no more than there is, and the size of the file can
    /// be counted.
    pub open spec fn wf(self) -> bool {
        self.told <= self.written && 2 * self.written + 36 <= u64::MAX
    }

    /// Silence before a chunk that begins at `t_ms`.
    pub open spec fn gap(self, t_ms: u64) -> nat {
        if t_ms * SAMPLES_PER_MS > self.written {
            (t_ms * SAMPLES_PER_MS - self.written) as nat
        } else {
            0
        }
    }

    /// A chunk of `len` samples at `t_ms` can be counted.
    pub open spec fn takes(self, t_ms: u64, len: nat) -> bool {
        2 * (self.written + self.gap(t_ms) + len) + 36 <= u64::MAX && t_ms * SAMPLES_PER_MS
            <= u64::MAX
    }
}

proof fn pcm_len(samples: Seq<i16>)
    ensures
        live::pcm_bytes(samples).len() == 2 * samples.len(),
    decreases samples.len(),
{
    if samples.len() > 0 {
        pcm_len(samples.drop_last());
    }
}

pub proof fn pcm_of_join(a: Seq<i16>, b: Seq<i16>)
    ensures
        live::pcm_bytes(a + b) == live::pcm_bytes(a) + live::pcm_bytes(b),
    decreases b.len(),
{
    if b.len() == 0 {
        assert(a + b =~= a);
        assert(live::pcm_bytes(a) + live::pcm_bytes(b) =~= live::pcm_bytes(a));
    } else {
        pcm_of_join(a, b.drop_last());
        assert((a + b).drop_last() =~= a + b.drop_last());
        assert(live::pcm_bytes(a + b) =~= live::pcm_bytes(a) + live::pcm_bytes(b));
    }
}

proof fn pcm_of_silence(n: nat)
    ensures
        live::pcm_bytes(silence(n)) == Seq::new(2 * n, |i: int| 0u8),
    decreases n,
{
    if n > 0 {
        pcm_of_silence((n - 1) as nat);
        assert(silence(n).drop_last() =~= silence((n - 1) as nat));
        assert(live::sample_bytes(0i16) =~= seq![0u8, 0u8]);
        assert(live::pcm_bytes(silence(n)) =~= Seq::new(2 * n, |i: int| 0u8));
    } else {
        assert(live::pcm_bytes(silence(n)) =~= Seq::new(2 * n, |i: int| 0u8));
    }
}

/// Patching the two sizes turns the header of one length into the header of
/// another.
proof fn patch_is_header(old_len: nat, new_len: nat, rest: Seq<u8>)
    ensures
        put(put(header_bytes(old_len) + rest, 4, le32(36 + new_len)), 40, le32(new_len))
            == header_bytes(new_len) + rest,
{
    let a = header_bytes(old_len) + rest;
    let b = put(a, 4, le32(36 + new_len));
    let c = put(b, 40, le32(new_len));
    let d = header_bytes(new_len) + rest;
    assert(a.len() == 44 + rest.len());
    assert(b.len() == a.len());
    assert(c.len() == a.len());
    assert forall|i: int| 0 <= i < c.len() implies c[i] == d[i] by {
        if i < 4 {
            assert(c[i] == a[i]);
        } else if i < 8 {
            assert(c[i] == le32(36 + new_len)[i - 4]);
            assert(d[i] == le32(36 + new_len)[i - 4]);
        } else if i < 40 {
            assert(c[i] == a[i]);
            assert(a[i] == header_bytes(old_len)[i]);
            assert(d[i] == header_bytes(new_len)[i]);
        } else if i < 44 {
            assert(c[i] == le32(new_len)[i - 40]);
            assert(d[i] == le32(new_len)[i - 40]);
        } else {
            assert(c[i] == a[i]);
        }
    }
    assert(c =~= d);
}

impl WavRecorder {
    /// A new recording, and the bytes that its file begins with.
    pub fn create() -> (r: (Self, Vec<u8>))
        ensures
            r.0@ == (RecorderModel { written: 0, told: 0 }),
            r.0@.wf(),
            r.1@ == recording(Seq::empty(), 0),
    {
        let h = header(0);
        assert(h@ + live::pcm_bytes(Seq::empty()) =~= h@);
        (WavRecorder { samples_written: 0, last_patched: 0 }, h)
    }

    /// Whether a chunk of `len` samples at `t_ms` can be counted.
    pub fn can_take(&self, t_ms: u64, len: usize) -> (r: bool)
        ensures
            r == self@.takes(t_ms, len as nat),
    {
        if t_ms > u64::MAX / SAMPLES_PER_MS {
            return false;
        }
        let expected: u64 = t_ms * SAMPLES_PER_MS;
        let base: u64 = if expected > self.samples_written {
            expected
        } else {
            self.samples_written
        };
        2 * (base as u128 + len as u128) + 36 <= u64::MAX as u128
    }

    /// Appends one chunk that begins at `t_ms` on the session clock. A gap
    /// since the last chunk is filled with silence, so that timestamps stay
    /// aligned.
    pub fn write(&mut self, t_ms: u64, samples: &Vec<i16>) -> (e: WavEdit)
        requires
            old(self)@.wf(),
            old(self)@.takes(t_ms, samples@.len()),
        ensures
            final(self)@.wf(),
            final(self)@.written == old(self)@.written + old(self)@.gap(t_ms) + samples@.len(),
            final(self)@.told == if final(self)@.written - old(self)@.told
                >= PATCH_EVERY_SAMPLES {
                final(self)@.written
            } else {
                old(self)@.told
            },
            forall|before: Seq<i16>|
                before.len() == old(self)@.written ==> #[trigger] edited(
                    recording(before, old(self)@.told),
                    e,
                ) == recording(
                    before + silence(old(self)@.gap(t_ms)) + samples@,
                    final(self)@.told,
                ),
    {
        let ghost m = self@;
        let expected: u64 = t_ms * SAMPLES_PER_MS;
        let pad: u64 = expected.saturating_sub(self.samples_written);
        let bytes = samples_to_bytes(samples);
        self.samples_written = self.samples_written + pad + samples.len() as u64;
        let e = WavEdit {
            pad_bytes: 2 * pad,
            bytes,
            sizes: if self.samples_written - self.last_patched >= PATCH_EVERY_SAMPLES {
                Some(self.patch_sizes())
            } else {
                None
            },
        };
        proof {
            let n = self@;
            assert forall|before: Seq<i16>| before.len() == m.written implies #[trigger] edited(
                recording(before, m.told),
                e,
            ) == recording(before + silence(m.gap(t_ms)) + samples@, n.told) by {
                let gap = silence(m.gap(t_ms));
                pcm_of_silence(m.gap(t_ms));
                pcm_of_join(before, gap);
                pcm_of_join(before + gap, samples@);
                let zeros = Seq::new(e.pad_bytes as nat, |i: int| 0u8);
                let rest = live::pcm_bytes(before + gap + samples@);
                assert(recording(before, m.told) + zeros + e.bytes@ =~= header_bytes(2 * m.told)
                    + rest);
                if e.sizes is Some {
                    patch_is_header(2 * m.told, 2 * n.told, rest);
                }
            }
        }
        e
    }

    /// The recording ends: the sizes to put into the header.
    pub fn finalize(&mut self) -> (s: WavSizes)
        requires
            old(self)@.wf(),
        ensures
            final(self)@.wf(),
            final(self)@ == (RecorderModel {
                written: old(self)@.written,
                told: old(self)@.written,
            }),
            forall|samples: Seq<i16>|
                samples.len() == old(self)@.written ==> put(
                    put(#[trigger] recording(samples, old(self)@.told), 4, s.riff@),
                    40,
                    s.data@,
                ) == recording(samples, old(self)@.written),
    {
        let ghost m = self@;
        let s = self.patch_sizes();
        proof {
            assert forall|samples: Seq<i16>| samples.len() == m.written implies put(
                put(#[trigger] recording(samples, m.told), 4, s.riff@),
                40,
                s.data@,
            ) == recording(samples, m.written) by {
                patch_is_header(2 * m.told, 2 * m.written, live::pcm_bytes(samples));
            }
        }
        s
    }

    fn patch_sizes(&mut self) -> (s: WavSizes)
        requires
            2 * old(self)@.written + 36 <= u64::MAX,
        ensures
            final(self)@ == (RecorderModel {
                written: old(self)@.written,
                told: old(self)@.written,
            }),
            s.riff@ == le32(36 + 2 * old(self)@.written),
            s.data@ == le32(2 * old(self)@.written),
    {
        let data: u64 = self.samples_written * 2;
        self.last_patched = self.samples_written;
        WavSizes { riff: bytes_of(36 + data), data: bytes_of(data) }
    }
}

/// A position in the recording is a time of the session: a chunk that begins
/// at `t_ms` begins at the sample of that time, unless the recording is already
/// past it.
pub proof fn positions_are_session_times(m: RecorderModel, t_ms: u64)
    ensures
        m.written <= SAMPLES_PER_MS * t_ms ==> m.written + m.gap(t_ms) == SAMPLES_PER_MS * t_ms,
        m.written > SAMPLES_PER_MS * t_ms ==> m.gap(t_ms) == 0,
{
}

} // verus!
