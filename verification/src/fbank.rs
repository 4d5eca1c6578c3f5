//! Framing for log-mel features: 25 ms frames every 10 ms, and only frames
//! that lie wholly within the samples. What is computed from a frame belongs
//! to whoever runs the voice models.
use vstd::prelude::*;

verus! {

/// Sample rate of the features.
pub const SAMPLE_RATE: usize = 16_000;

/// Mel bins of a frame.
pub const NUM_BINS: usize = 80;

/// Samples of a frame: 25 ms.
pub const FRAME_LEN: usize = 400;

/// Samples from one frame to the next: 10 ms.
pub const FRAME_SHIFT: usize = 160;

/// A window of a voice profile: 25 ms.
pub const PROFILE_WINDOW: usize = 400;

/// Number of frames in `len` samples.
pub open spec fn frames_in(len: nat) -> nat {
    if len < FRAME_LEN {
        0
    } else {
        1 + (len - FRAME_LEN as nat) as nat / FRAME_SHIFT as nat
    }
}

/// Where each frame begins.
pub fn frame_starts(len: usize) -> (r: Vec<usize>)
    ensures
        r@.len() == frames_in(len as nat),
        forall|t: int| 0 <= t < r@.len() ==> #[trigger] r@[t] == t * FRAME_SHIFT,
{
    let mut out: Vec<usize> = Vec::new();
    if len < FRAME_LEN {
        return out;
    }
    let last: usize = (len - FRAME_LEN) / FRAME_SHIFT;
    let mut t: usize = 0;
    while t <= last
        invariant
            t <= last + 1,
            last * FRAME_SHIFT + FRAME_LEN <= len,
            out@.len() == t,
            forall|s: int| 0 <= s < t ==> #[trigger] out@[s] == s * FRAME_SHIFT,
        decreases last + 1 - t,
    {
        out.push(t * FRAME_SHIFT);
        t += 1;
    }
    out
}

/// Frames lie within the samples, and one more would not.
pub proof fn frames_fit(len: nat, t: nat)
    ensures
        t < frames_in(len) <==> t * FRAME_SHIFT + FRAME_LEN <= len,
{
}

/// The window of a voice profile that begins at `from`: it ends where the
/// samples do, and one of less than half its length does not count.
pub open spec fn profile_end(len: nat, from: nat) -> nat {
    if from + PROFILE_WINDOW <= len {
        from + PROFILE_WINDOW as nat
    } else {
        len
    }
}

/// Number of windows of a voice profile in `len` samples: a shorter one at the
/// end counts from half its length on.
pub open spec fn profile_count(len: nat) -> nat {
    len / PROFILE_WINDOW as nat + if len % PROFILE_WINDOW as nat >= PROFILE_WINDOW as nat / 2 {
        1nat
    } else {
        0
    }
}

/// The windows of a voice profile: where each begins and ends.
pub fn profile_windows(len: usize) -> (r: Vec<(usize, usize)>)
    ensures
        r@.len() == profile_count(len as nat),
        forall|i: int|
            0 <= i < r@.len() ==> (#[trigger] r@[i]).0 == i * PROFILE_WINDOW && r@[i].1 == profile_end(
                len as nat,
                (i * PROFILE_WINDOW) as nat,
            ),
{
    let mut out: Vec<(usize, usize)> = Vec::new();
    let whole: usize = len / PROFILE_WINDOW;
    let mut i: usize = 0;
    while i < whole
        invariant
            i <= whole,
            whole * PROFILE_WINDOW <= len,
            out@.len() == i,
            forall|k: int|
                0 <= k < i ==> (#[trigger] out@[k]).0 == k * PROFILE_WINDOW && out@[k].1
                    == profile_end(len as nat, (k * PROFILE_WINDOW) as nat),
        decreases whole - i,
    {
        out.push((i * PROFILE_WINDOW, i * PROFILE_WINDOW + PROFILE_WINDOW));
        i += 1;
    }
    if len % PROFILE_WINDOW >= PROFILE_WINDOW / 2 {
        out.push((whole * PROFILE_WINDOW, len));
    }
    out
}

} // verus!
