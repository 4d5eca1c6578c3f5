//! Readout: decides, turn by turn, whether translated audio is played
//! aloud. Playback happens only for passages whose detected source language
//! differs from the target language.
//!
//! Audio for a turn arrives before enough original text exists to classify the
//! source language, so early chunks are buffered until that is known,
//! then either flushed to the player or dropped.
use vstd::prelude::*;
use crate::lang;
use crate::lang::should_read_out;
use crate::split;
use crate::text;
use crate::text::to_chars;

verus! {

/// Length of original text (in characters) that is enough to classify a turn.
pub const DECIDE_AFTER_CHARS: usize = 6;

/// Bound of the undecided buffer: 30 s of 24 kHz mono.
pub const MAX_BUFFERED_SAMPLES: usize = 720_000;

pub struct ReadoutGate {
    target_code: String,
    /// `None` while the current turn is undecided.
    decision: Option<bool>,
    buffer: Vec<i16>,
}

/// What a [`ReadoutGate`] holds.
pub struct GateModel {
    pub target_code: Seq<char>,
    pub decision: Option<bool>,
    pub buffer: Seq<i16>,
}

impl View for ReadoutGate {
    type V = GateModel;

    closed spec fn view(&self) -> GateModel {
        GateModel {
            target_code: self.target_code@,
            decision: self.decision,
            buffer: self.buffer@,
        }
    }
}

impl GateModel {
    pub open spec fn initial(target_code: Seq<char>) -> GateModel {
        GateModel { target_code, decision: None, buffer: Seq::empty() }
    }

    /// The buffer is bounded, and empty once the turn is decided.
    pub open spec fn wf(self) -> bool {
        &&& self.buffer.len() <= MAX_BUFFERED_SAMPLES
        &&& self.decision is Some ==> self.buffer.len() == 0
    }

    /// The turn is decided by its original text; what comes out is played.
    pub open spec fn decided(self, original: Seq<char>) -> (GateModel, Seq<i16>) {
        let play = lang::differs_from_target(original, self.target_code);
        (
            GateModel { decision: Some(play), buffer: Seq::empty(), ..self },
            if play {
                self.buffer
            } else {
                Seq::empty()
            },
        )
    }

    pub open spec fn pushed(self, samples: Seq<i16>, original: Seq<char>) -> (GateModel, Seq<i16>) {
        match self.decision {
            Some(true) => (self, samples),
            Some(false) => (self, Seq::empty()),
            None => {
                let m = GateModel {
                    buffer: split::newest_items(
                        self.buffer + samples,
                        MAX_BUFFERED_SAMPLES as nat,
                    ),
                    ..self
                };
                if original.len() >= DECIDE_AFTER_CHARS {
                    m.decided(original)
                } else {
                    (m, Seq::empty())
                }
            },
        }
    }

    pub open spec fn ended(self, original: Seq<char>) -> (GateModel, Seq<i16>) {
        (
            GateModel::initial(self.target_code),
            if self.decision is None && self.buffer.len() > 0 {
                self.decided(original).1
            } else {
                Seq::empty()
            },
        )
    }
}

impl ReadoutGate {
    pub fn new(target_code: &str) -> (g: Self)
        ensures
            g@ == GateModel::initial(target_code@),
            g@.wf(),
    {
        ReadoutGate { target_code: text::owned(target_code), decision: None, buffer: Vec::new() }
    }

    /// Number of samples that wait for a decision.
    pub fn buffered(&self) -> (n: usize)
        ensures
            n == self@.buffer.len(),
    {
        self.buffer.len()
    }

    /// Translated audio for the current turn came in, together with the
    /// original text so far. Returns the samples to play now.
    pub fn push_audio(&mut self, samples: Vec<i16>, original_so_far: &str) -> (out: Vec<i16>)
        requires
            old(self)@.wf(),
        ensures
            final(self)@.wf(),
            (final(self)@, out@) == old(self)@.pushed(samples@, original_so_far@),
    {
        match self.decision {
            Some(true) => samples,
            Some(false) => Vec::new(),
            None => {
                let have = self.buffer.len();
                let new = samples.len();
                // The new samples push out the oldest ones.
                let from: usize = if new >= MAX_BUFFERED_SAMPLES {
                    have
                } else if have > MAX_BUFFERED_SAMPLES - new {
                    have - (MAX_BUFFERED_SAMPLES - new)
                } else {
                    0
                };
                let skip: usize = if new > MAX_BUFFERED_SAMPLES {
                    new - MAX_BUFFERED_SAMPLES
                } else {
                    0
                };
                let ghost all = self.buffer@ + samples@;
                let mut kept: Vec<i16> = Vec::new();
                let mut i: usize = from;
                while i < have
                    invariant
                        from <= i <= have,
                        have == self.buffer.len(),
                        kept@ =~= self.buffer@.subrange(from as int, i as int),
                    decreases have - i,
                {
                    kept.push(self.buffer[i]);
                    i += 1;
                }
                let mut k: usize = skip;
                while k < new
                    invariant
                        skip <= k <= new,
                        new == samples.len(),
                        from <= have,
                        have == self.buffer.len(),
                        kept@ =~= self.buffer@.subrange(from as int, have as int)
                            + samples@.subrange(skip as int, k as int),
                    decreases new - k,
                {
                    kept.push(samples[k]);
                    k += 1;
                }
                assert(kept@ =~= split::newest_items(all, MAX_BUFFERED_SAMPLES as nat));
                self.buffer = kept;
                if to_chars(original_so_far).len() >= DECIDE_AFTER_CHARS {
                    self.decide(original_so_far)
                } else {
                    Vec::new()
                }
            },
        }
    }

    /// The turn ended. Decides with whatever text exists, returns the
    /// remaining samples to play, and starts over for the next turn.
    pub fn end_turn(&mut self, original_text: &str) -> (out: Vec<i16>)
        requires
            old(self)@.wf(),
        ensures
            final(self)@.wf(),
            (final(self)@, out@) == old(self)@.ended(original_text@),
    {
        let out = if self.decision.is_none() && self.buffer.len() > 0 {
            self.decide(original_text)
        } else {
            Vec::new()
        };
        self.decision = None;
        self.buffer = Vec::new();
        out
    }

    fn decide(&mut self, original_text: &str) -> (out: Vec<i16>)
        ensures
            (final(self)@, out@) == old(self)@.decided(original_text@),
    {
        let play = should_read_out(original_text, &self.target_code);
        self.decision = Some(play);
        let mut out: Vec<i16> = Vec::new();
        std::mem::swap(&mut out, &mut self.buffer);
        if play {
            out
        } else {
            Vec::new()
        }
    }
}

/// Nothing is played while a turn is undecided, and once it is decided
/// against playback nothing of it is played at all.
pub proof fn target_language_is_never_read_out(g: GateModel, samples: Seq<i16>, original: Seq<char>)
    requires
        !lang::differs_from_target(original, g.target_code),
        g.decision != Some(true),
    ensures
        g.pushed(samples, original).1.len() == 0,
        g.pushed(samples, original).0.decision != Some(true),
        g.ended(original).1.len() == 0,
{
}

/// A turn that is read out loses no audio while it waits, up to the bound of
/// the buffer: what came in before the decision comes out with it, in order.
pub proof fn waiting_audio_is_played(g: GateModel, samples: Seq<i16>, original: Seq<char>)
    requires
        g.decision is None,
        g.buffer.len() + samples.len() <= MAX_BUFFERED_SAMPLES,
        original.len() >= DECIDE_AFTER_CHARS,
        lang::differs_from_target(original, g.target_code),
    ensures
        g.pushed(samples, original).1 == g.buffer + samples,
        g.pushed(samples, original).0.decision == Some(true),
{
}

} // verus!
