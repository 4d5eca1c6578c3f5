//! The queue of translated speech between the network and the output device.
use std::collections::VecDeque;
use vstd::prelude::*;
use crate::split;

verus! {

/// Sample rate of the translated speech.
pub const SOURCE_RATE: u32 = 24_000;

/// Most seconds of device-rate audio that are queued: a long backlog is worse
/// than dropping stale audio.
pub const MAX_QUEUED_SECONDS: u64 = 15;

/// Capture keeps hearing the tail of played audio for a moment after the queue
/// has drained.
pub const ACTIVE_TAIL_MS: u64 = 500;

/// What waits to be played, and when something last did.
pub struct Player<T> {
    queue: VecDeque<T>,
    device_rate: u32,
    last_active_ms: Option<u64>,
}

/// What a [`Player`] holds.
#[verifier::ext_equal]
pub struct PlayerModel<T> {
    pub queue: Seq<T>,
    pub device_rate: u32,
    pub last_active: Option<u64>,
}

impl<T> View for Player<T> {
    type V = PlayerModel<T>;

    closed spec fn view(&self) -> PlayerModel<T> {
        PlayerModel {
            queue: self.queue@,
            device_rate: self.device_rate,
            last_active: self.last_active_ms,
        }
    }
}

/// Most samples that are queued for a device. One always fits.
pub open spec fn queue_cap(device_rate: u32) -> nat {
    if device_rate == 0 {
        1
    } else {
        (device_rate * MAX_QUEUED_SECONDS) as nat
    }
}

impl<T> PlayerModel<T> {
    /// The queue is bounded.
    pub open spec fn wf(self) -> bool {
        self.queue.len() <= queue_cap(self.device_rate)
    }

    /// Something is being played, or was a moment ago.
    pub open spec fn active(self, now_ms: u64) -> bool {
        ||| self.queue.len() > 0
        ||| self.last_active matches Some(t) && now_ms - t < ACTIVE_TAIL_MS
    }
}

impl<T: Copy> Player<T> {
    /// An empty queue for a device of that rate.
    pub fn new(device_rate: u32) -> (p: Self)
        ensures
            p@ == (PlayerModel::<T> { queue: Seq::empty(), device_rate, last_active: None }),
            p@.wf(),
    {
        Player { queue: VecDeque::new(), device_rate, last_active_ms: None }
    }

    /// Queues samples at the device's rate; the oldest leave a full queue.
    pub fn push(&mut self, samples: &Vec<T>, now_ms: u64)
        requires
            old(self)@.wf(),
        ensures
            final(self)@.wf(),
            final(self)@ == (PlayerModel {
                queue: split::newest_items(
                    old(self)@.queue + samples@,
                    queue_cap(old(self)@.device_rate),
                ),
                last_active: Some(now_ms),
                ..old(self)@
            }),
    {
        let ghost start = self.queue@;
        let ghost limit = queue_cap(self.device_rate);
        let cap: u64 = if self.device_rate == 0 {
            1
        } else {
            self.device_rate as u64 * MAX_QUEUED_SECONDS
        };
        let mut i: usize = 0;
        assert(start + samples@.take(0) =~= start);
        while i < samples.len()
            invariant
                i <= samples@.len(),
                cap == limit,
                cap >= 1,
                start.len() <= limit,
                self.queue@ == split::newest_items(start + samples@.take(i as int), limit),
                self.device_rate == old(self).device_rate,
            decreases samples@.len() - i,
        {
            let ghost before = start + samples@.take(i as int);
            assert(start + samples@.take(i + 1) =~= before.push(samples@[i as int]));
            if self.queue.len() as u64 >= cap {
                let _ = self.queue.pop_front();
            }
            self.queue.push_back(samples[i]);
            assert(self.queue@ =~= split::newest_items(before.push(samples@[i as int]), limit));
            i += 1;
        }
        assert(samples@.take(i as int) =~= samples@);
        self.last_active_ms = Some(now_ms);
    }

    /// The next sample for the device; `silence` when nothing waits.
    pub fn pull(&mut self, silence: T) -> (s: T)
        requires
            old(self)@.wf(),
        ensures
            final(self)@.wf(),
            old(self)@.queue.len() == 0 ==> s == silence && final(self)@ == old(self)@,
            old(self)@.queue.len() > 0 ==> s == old(self)@.queue[0] && final(self)@ == (
            PlayerModel { queue: old(self)@.queue.skip(1), ..old(self)@ }),
    {
        match self.queue.pop_front() {
            Some(s) => {
                assert(self.queue@ =~= old(self)@.queue.skip(1));
                s
            },
            None => silence,
        }
    }

    /// Whether queued audio is playing or its tail may still be heard. While it
    /// does, only the microphone is sent on, so that the spoken translation is
    /// not captured and translated again.
    pub fn is_active(&mut self, now_ms: u64) -> (r: bool)
        requires
            old(self)@.wf(),
        ensures
            final(self)@.wf(),
            r == old(self)@.active(now_ms),
            final(self)@ == if old(self)@.queue.len() > 0 {
                PlayerModel { last_active: Some(now_ms), ..old(self)@ }
            } else {
                old(self)@
            },
    {
        if self.queue.len() > 0 {
            self.last_active_ms = Some(now_ms);
            return true;
        }
        match self.last_active_ms {
            Some(t) => now_ms <= t || now_ms - t < ACTIVE_TAIL_MS,
            None => false,
        }
    }

    /// Drops what is queued.
    pub fn clear(&mut self)
        ensures
            final(self)@ == (PlayerModel { queue: Seq::empty(), ..old(self)@ }),
            final(self)@.wf(),
    {
        self.queue.clear();
    }
}

/// After the queue has drained the player stays active for the tail and no
/// longer.
pub proof fn playback_has_a_tail<T>(p: PlayerModel<T>, drained_ms: u64, now_ms: u64)
    requires
        p.queue.len() == 0,
        p.last_active == Some(drained_ms),
    ensures
        p.active(now_ms) <==> now_ms < drained_ms + ACTIVE_TAIL_MS,
{
}

} // verus!
