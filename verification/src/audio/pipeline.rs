//! Chunks out of two lanes: bounded buffers for the microphone and for system
//! audio, both at 16 kHz mono, from which whole chunks are taken together.
//!
//! What a sample is, the pipeline does not ask: it moves samples and pads with
//! the silence it is given.
use std::collections::VecDeque;
use vstd::prelude::*;
use crate::audio::{AudioSource, CHUNK_SAMPLES};
use crate::split;

verus! {

/// Most samples that a lane holds: 10 s. If a consumer stalls, the oldest
/// audio is dropped.
pub const MAX_BUFFERED_SAMPLES: usize = 160_000;

/// Length of a chunk in milliseconds.
pub const CHUNK_MS: u64 = 50;

/// One chunk: both lanes over the same 50 ms.
pub struct LaneChunk<T> {
    /// Counts the chunks, from zero.
    pub seq: u64,
    /// Session time at which the chunk begins.
    pub t_ms: u64,
    pub mic: Vec<T>,
    pub system: Vec<T>,
}

/// The two lanes.
pub struct Pipeline<T> {
    mic: VecDeque<T>,
    system: VecDeque<T>,
    dropped: bool,
    seq: u64,
    start_t_ms: Option<u64>,
}

/// What a [`Pipeline`] holds.
#[verifier::ext_equal]
pub struct PipelineModel<T> {
    pub mic: Seq<T>,
    pub system: Seq<T>,
    /// Audio was dropped since this was last asked.
    pub dropped: bool,
    /// Chunks taken so far.
    pub seq: nat,
    /// Session time of the first audio.
    pub start: Option<u64>,
}

impl<T> View for Pipeline<T> {
    type V = PipelineModel<T>;

    closed spec fn view(&self) -> PipelineModel<T> {
        PipelineModel {
            mic: self.mic@,
            system: self.system@,
            dropped: self.dropped,
            seq: self.seq as nat,
            start: self.start_t_ms,
        }
    }
}

/// The first chunk of a lane, with silence for what is missing.
pub open spec fn padded<T>(lane: Seq<T>, silence: T) -> Seq<T> {
    Seq::new(
        CHUNK_SAMPLES as nat,
        |i: int|
            if i < lane.len() {
                lane[i]
            } else {
                silence
            },
    )
}

/// A lane without its first chunk.
pub open spec fn rest<T>(lane: Seq<T>) -> Seq<T> {
    if lane.len() <= CHUNK_SAMPLES {
        Seq::empty()
    } else {
        lane.skip(CHUNK_SAMPLES as int)
    }
}

impl<T> PipelineModel<T> {
    pub open spec fn initial() -> PipelineModel<T> {
        PipelineModel {
            mic: Seq::empty(),
            system: Seq::empty(),
            dropped: false,
            seq: 0,
            start: None,
        }
    }

    /// The lanes are bounded.
    pub open spec fn wf(self) -> bool {
        self.mic.len() <= MAX_BUFFERED_SAMPLES && self.system.len() <= MAX_BUFFERED_SAMPLES
    }

    /// The state after audio came in.
    pub open spec fn pushed(self, source: AudioSource, t_ms: u64, samples: Seq<T>) -> PipelineModel<
        T,
    > {
        let start = match self.start {
            Some(t) => Some(t),
            None => Some(t_ms),
        };
        let cap = MAX_BUFFERED_SAMPLES as nat;
        match source {
            AudioSource::Microphone => PipelineModel {
                mic: split::newest_items(self.mic + samples, cap),
                dropped: self.dropped || self.mic.len() + samples.len() > cap,
                start,
                ..self
            },
            AudioSource::System => PipelineModel {
                system: split::newest_items(self.system + samples, cap),
                dropped: self.dropped || self.system.len() + samples.len() > cap,
                start,
                ..self
            },
        }
    }

    /// Both lanes can fill a chunk, or one is a whole chunk ahead: the other
    /// is then stalled or absent, and gets silence. To wait for a lane that
    /// is merely late keeps silence out of continuous audio.
    pub open spec fn ready(self) -> bool {
        ||| self.mic.len() >= CHUNK_SAMPLES && self.system.len() >= CHUNK_SAMPLES
        ||| self.mic.len() >= 2 * CHUNK_SAMPLES
        ||| self.system.len() >= 2 * CHUNK_SAMPLES
    }

    /// Session time of the next chunk.
    pub open spec fn next_t_ms(self) -> int {
        (match self.start {
            Some(t) => t as int,
            None => 0,
        }) + self.seq * CHUNK_MS
    }

    /// The next chunk can be counted and its time be told.
    pub open spec fn roomy(self) -> bool {
        self.seq < u64::MAX && self.next_t_ms() <= u64::MAX
    }

    /// The state after a chunk was taken.
    pub open spec fn taken(self) -> PipelineModel<T> {
        PipelineModel {
            mic: rest(self.mic),
            system: rest(self.system),
            seq: self.seq + 1,
            ..self
        }
    }
}

/// Appends samples to a lane; the oldest leave when it is full. Tells whether
/// any did.
fn push_lane<T: Copy>(lane: &mut VecDeque<T>, samples: &Vec<T>) -> (dropped: bool)
    requires
        old(lane)@.len() <= MAX_BUFFERED_SAMPLES,
    ensures
        final(lane)@ == split::newest_items(old(lane)@ + samples@, MAX_BUFFERED_SAMPLES as nat),
        dropped == (old(lane)@.len() + samples@.len() > MAX_BUFFERED_SAMPLES),
{
    let ghost start = lane@;
    let mut dropped = false;
    let mut i: usize = 0;
    assert(start + samples@.take(0) =~= start);
    while i < samples.len()
        invariant
            i <= samples@.len(),
            start.len() <= MAX_BUFFERED_SAMPLES,
            lane@ == split::newest_items(
                start + samples@.take(i as int),
                MAX_BUFFERED_SAMPLES as nat,
            ),
            dropped == (start.len() + i > MAX_BUFFERED_SAMPLES),
        decreases samples@.len() - i,
    {
        let ghost before = start + samples@.take(i as int);
        assert(start + samples@.take(i + 1) =~= before.push(samples@[i as int]));
        if lane.len() >= MAX_BUFFERED_SAMPLES {
            let _ = lane.pop_front();
            dropped = true;
        }
        lane.push_back(samples[i]);
        assert(lane@ =~= split::newest_items(
            before.push(samples@[i as int]),
            MAX_BUFFERED_SAMPLES as nat,
        ));
        i += 1;
    }
    assert(samples@.take(i as int) =~= samples@);
    dropped
}

/// Takes exactly one chunk, with silence for what is missing.
fn take_chunk<T: Copy>(lane: &mut VecDeque<T>, silence: T) -> (out: Vec<T>)
    ensures
        out@ == padded(old(lane)@, silence),
        final(lane)@ == rest(old(lane)@),
{
    let ghost start = lane@;
    let mut out: Vec<T> = Vec::new();
    let mut i: usize = 0;
    assert(start.skip(0) =~= start);
    while i < CHUNK_SAMPLES
        invariant
            i <= CHUNK_SAMPLES,
            out@ =~= padded(start, silence).take(i as int),
            lane@ == if i <= start.len() {
                start.skip(i as int)
            } else {
                Seq::empty()
            },
        decreases CHUNK_SAMPLES - i,
    {
        let ghost before = lane@;
        match lane.pop_front() {
            Some(s) => {
                out.push(s);
            },
            None => {
                out.push(silence);
            },
        }
        assert(i < start.len() ==> before.skip(1) =~= start.skip(i + 1));
        i += 1;
    }
    assert(lane@ =~= rest(start));
    out
}

impl<T: Copy> Pipeline<T> {
    pub fn new() -> (p: Self)
        ensures
            p@ == PipelineModel::<T>::initial(),
            p@.wf(),
    {
        Pipeline {
            mic: VecDeque::new(),
            system: VecDeque::new(),
            dropped: false,
            seq: 0,
            start_t_ms: None,
        }
    }

    /// Takes in audio of one lane.
    pub fn push(&mut self, source: AudioSource, t_ms: u64, samples: &Vec<T>)
        requires
            old(self)@.wf(),
        ensures
            final(self)@.wf(),
            final(self)@ == old(self)@.pushed(source, t_ms, samples@),
    {
        if self.start_t_ms.is_none() {
            self.start_t_ms = Some(t_ms);
        }
        let dropped = match source {
            AudioSource::Microphone => push_lane(&mut self.mic, samples),
            AudioSource::System => push_lane(&mut self.system, samples),
        };
        if dropped {
            self.dropped = true;
        }
    }

    /// Samples that a lane holds.
    pub fn available(&self, source: AudioSource) -> (n: usize)
        ensures
            n == match source {
                AudioSource::Microphone => self@.mic.len(),
                AudioSource::System => self@.system.len(),
            },
    {
        match source {
            AudioSource::Microphone => self.mic.len(),
            AudioSource::System => self.system.len(),
        }
    }

    /// Whether a chunk can be taken.
    pub fn chunk_ready(&self) -> (r: bool)
        ensures
            r == self@.ready(),
    {
        let mic = self.mic.len();
        let system = self.system.len();
        (mic >= CHUNK_SAMPLES && system >= CHUNK_SAMPLES) || mic >= 2 * CHUNK_SAMPLES || system >= 2
            * CHUNK_SAMPLES
    }

    /// Whether the next chunk can be counted and its time be told.
    pub fn has_room(&self) -> (r: bool)
        ensures
            r == self@.roomy(),
    {
        if self.seq == u64::MAX {
            return false;
        }
        let start: u64 = match self.start_t_ms {
            Some(t) => t,
            None => 0,
        };
        self.seq <= (u64::MAX - start) / CHUNK_MS
    }

    /// The next chunk, once it is ready. `silence` stands where a lane that is
    /// left behind has no samples.
    pub fn next_chunk(&mut self, silence: T) -> (r: Option<LaneChunk<T>>)
        requires
            old(self)@.wf(),
            old(self)@.roomy(),
        ensures
            final(self)@.wf(),
            r is Some <==> old(self)@.ready(),
            r is None ==> final(self)@ == old(self)@,
            r matches Some(c) ==> {
                &&& c.seq == old(self)@.seq
                &&& c.t_ms == old(self)@.next_t_ms()
                &&& c.mic@ == padded(old(self)@.mic, silence)
                &&& c.system@ == padded(old(self)@.system, silence)
                &&& final(self)@ == old(self)@.taken()
            },
    {
        if !self.chunk_ready() {
            return None;
        }
        let mic = take_chunk(&mut self.mic, silence);
        let system = take_chunk(&mut self.system, silence);
        let start: u64 = match self.start_t_ms {
            Some(t) => t,
            None => 0,
        };
        let chunk = LaneChunk { seq: self.seq, t_ms: start + self.seq * CHUNK_MS, mic, system };
        self.seq = self.seq + 1;
        Some(chunk)
    }

    /// Whether audio was dropped since this was last asked.
    pub fn take_drop_flag(&mut self) -> (dropped: bool)
        ensures
            dropped == old(self)@.dropped,
            final(self)@ == (PipelineModel { dropped: false, ..old(self)@ }),
    {
        let dropped = self.dropped;
        self.dropped = false;
        dropped
    }
}

impl<T: Copy> Default for Pipeline<T> {
    fn default() -> (p: Self)
        ensures
            p@ == PipelineModel::<T>::initial(),
            p@.wf(),
    {
        Pipeline::new()
    }
}

/// While both lanes flow no silence is put into either: a chunk is padded only
/// when the other lane is a whole chunk ahead.
pub proof fn late_lanes_are_waited_for<T>(p: PipelineModel<T>, silence: T)
    requires
        p.ready(),
    ensures
        p.mic.len() >= CHUNK_SAMPLES || p.system.len() >= 2 * CHUNK_SAMPLES,
        p.system.len() >= CHUNK_SAMPLES || p.mic.len() >= 2 * CHUNK_SAMPLES,
        p.mic.len() >= CHUNK_SAMPLES ==> padded(p.mic, silence) == p.mic.take(CHUNK_SAMPLES as int),
        p.system.len() >= CHUNK_SAMPLES ==> padded(p.system, silence) == p.system.take(
            CHUNK_SAMPLES as int,
        ),
{
    if p.mic.len() >= CHUNK_SAMPLES {
        assert(padded(p.mic, silence) =~= p.mic.take(CHUNK_SAMPLES as int));
    }
    if p.system.len() >= CHUNK_SAMPLES {
        assert(padded(p.system, silence) =~= p.system.take(CHUNK_SAMPLES as int));
    }
}

/// Chunks follow each other without a gap: each has the next number and begins
/// where the one before ended.
pub proof fn chunks_are_consecutive<T>(p: PipelineModel<T>)
    ensures
        p.taken().seq == p.seq + 1,
        p.taken().next_t_ms() == p.next_t_ms() + CHUNK_MS,
{
    assert((p.seq + 1) * CHUNK_MS == p.seq * CHUNK_MS + CHUNK_MS) by (nonlinear_arith);
}

/// What comes out of a lane is what went in: a chunk and what stays behind it
/// are the lane.
pub proof fn chunks_keep_the_audio<T>(lane: Seq<T>, silence: T)
    requires
        lane.len() >= CHUNK_SAMPLES,
    ensures
        padded(lane, silence) + rest(lane) == lane,
{
    assert(padded(lane, silence) + rest(lane) =~= lane);
}

/// Audio is dropped only from a full lane, and that is told.
pub proof fn drops_are_told<T>(
    p: PipelineModel<T>,
    source: AudioSource,
    t_ms: u64,
    samples: Seq<T>,
)
    requires
        p.wf(),
        !p.pushed(source, t_ms, samples).dropped,
    ensures
        match source {
            AudioSource::Microphone => p.pushed(source, t_ms, samples).mic == p.mic + samples,
            AudioSource::System => p.pushed(source, t_ms, samples).system == p.system + samples,
        },
{
}

} // verus!
