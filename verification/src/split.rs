//! Speaker-change line splitting (segmentation only, no identity).
//!
//! A segmentation model looks at a sliding window of the system-audio lane and
//! tells, frame by frame, who speaks. The functions here keep the window,
//! clean up what the model says and find *boundaries*: moments where one
//! remote voice hands off to another. There are no persistent speaker
//! identities; the local voices of one window are used only to answer "did the
//! voice change here".
use vstd::prelude::*;
use std::collections::VecDeque;
use crate::path::FilePath;

verus! {

pub const MODEL_FILE: &'static str = "segmentation_pyannote3.onnx";

/// Where the segmentation model is downloaded from.
pub const MODEL_URL: &'static str =
    "https://huggingface.co/csukuangfj/sherpa-onnx-pyannote-segmentation-3-0/resolve/main/model.onnx";

/// Length of the window that the model sees.
pub const WINDOW_MS: u64 = 10_000;

/// The same in samples, at 16 kHz.
pub const WINDOW_SAMPLES: usize = 160_000;

/// The model runs again after this many new samples (half a second).
pub const HOP_SAMPLES: usize = 8_000;

/// Both sides of a boundary must be a single sustained voice this long. Short
/// interjections stay inside the current line.
pub const MIN_RUN_MS: u64 = 800;

/// Silence or overlapped speech allowed between the two voices; longer pauses
/// are left to the turn handling of the live model.
pub const MAX_GAP_MS: u64 = 900;

/// Minimum spacing between boundaries. It also drops a boundary that later
/// windows detect again.
pub const REFRACTORY_MS: u64 = 2_500;

/// Width of the majority filter in frames.
pub const SMOOTH_FRAMES: usize = 9;

pub fn models_dir(data_dir: &FilePath) -> (r: FilePath)
    ensures
        r@ == data_dir@.joined("models"@),
{
    data_dir.join("models")
}

/// The download address: `url_override` where one is configured.
pub fn model_url(url_override: &str) -> (r: &str)
    ensures
        r@ == if url_override@.len() == 0 {
            MODEL_URL@
        } else {
            url_override@
        },
{
    if url_override.is_empty() {
        MODEL_URL
    } else {
        url_override
    }
}

/// Local speaker state of one frame.
#[derive(Debug, Clone, Copy, PartialEq, Eq, Structural)]
pub enum FrameState {
    Silence,
    /// One voice active: local index 0 to 2, consistent within a window only.
    Solo(u8),
    Overlap,
}

// ---------------------------------------------------------------------------
// Decoding
// ---------------------------------------------------------------------------

/// The state that a class of the model stands for. The classes are: nobody,
/// one of three voices, one of three pairs of voices.
pub open spec fn state_of(class: nat) -> FrameState {
    if class == 0 {
        FrameState::Silence
    } else if class <= 3 {
        FrameState::Solo((class - 1) as u8)
    } else {
        FrameState::Overlap
    }
}

/// Number of classes of the model.
pub const CLASSES: usize = 7;

/// No class has a higher rank than `c`, and of the highest ones `c` is the
/// first.
pub open spec fn is_top(ranks: Seq<i64>, c: int) -> bool {
    &&& 0 <= c < ranks.len()
    &&& forall|j: int| 0 <= j < ranks.len() ==> #[trigger] ranks[j] <= ranks[c]
    &&& forall|j: int| 0 <= j < c ==> #[trigger] ranks[j] < ranks[c]
}

/// The most likely class of a frame.
pub open spec fn most_likely(ranks: Seq<i64>) -> int {
    choose|c: int| is_top(ranks, c)
}

/// The states of a window, from the ranks of the classes in each frame.
pub open spec fn decoded(frames: Seq<[i64; 7]>) -> Seq<FrameState> {
    Seq::new(frames.len(), |i: int| state_of(most_likely(frames[i]@) as nat))
}

/// The states of a window, from the ranks of the classes in each frame: the
/// higher the rank, the more likely the class.
pub fn decode(frames: &Vec<[i64; 7]>) -> (r: Vec<FrameState>)
    ensures
        r@ == decoded(frames@),
{
    let mut out: Vec<FrameState> = Vec::new();
    let mut i: usize = 0;
    while i < frames.len()
        invariant
            i <= frames.len(),
            out.len() == i,
            forall|k: int| 0 <= k < i ==> out[k] == state_of(most_likely(frames@[k]@) as nat),
        decreases frames.len() - i,
    {
        let ghost row = frames@[i as int]@;
        let mut best: usize = 0;
        let mut c: usize = 1;
        while c < CLASSES
            invariant
                i < frames.len(),
                row == frames@[i as int]@,
                best < c <= CLASSES,
                forall|j: int| 0 <= j < c ==> #[trigger] row[j] <= row[best as int],
                forall|j: int| 0 <= j < best ==> #[trigger] row[j] < row[best as int],
            decreases CLASSES - c,
        {
            if frames[i][c] > frames[i][best] {
                best = c;
            }
            c += 1;
        }
        assert(is_top(row, best as int));
        let top = best;
        assert(most_likely(row) == top) by {
            let m = most_likely(row);
            assert(is_top(row, m));
            assert(row[m] <= row[top as int] && row[top as int] <= row[m]);
        }
        out.push(
            if top == 0 {
                FrameState::Silence
            } else if top <= 3 {
                FrameState::Solo((top - 1) as u8)
            } else {
                FrameState::Overlap
            },
        );
        i += 1;
    }
    out
}

/// The ranks of one frame in what the model put out, frame by frame. Classes
/// that the model does not have rank as nought.
pub open spec fn frame_ranks(out: Seq<i64>, classes: int, frame: int) -> Seq<i64> {
    Seq::new(
        CLASSES as nat,
        |c: int|
            if c < classes {
                out[frame * classes + c]
            } else {
                0
            },
    )
}

/// The ranks of each frame in what the model put out, frame by frame.
pub fn model_frames(out: &Vec<i64>, frames: usize, classes: usize) -> (r: Vec<[i64; 7]>)
    requires
        frames * classes <= out@.len(),
    ensures
        r@.len() == frames,
        forall|f: int|
            0 <= f < frames ==> (#[trigger] r@[f])@ == frame_ranks(out@, classes as int, f),
{
    let mut rows: Vec<[i64; 7]> = Vec::new();
    let len: usize = out.len();
    let mut f: usize = 0;
    let mut at: usize = 0;
    while f < frames
        invariant
            f <= frames,
            at == f * classes,
            frames * classes <= len,
            len == out@.len(),
            rows@.len() == f,
            forall|g: int|
                0 <= g < f ==> (#[trigger] rows@[g])@ == frame_ranks(out@, classes as int, g),
        decreases frames - f,
    {
        assert((f + 1) * classes == f * classes + classes) by (nonlinear_arith);
        assert((f + 1) * classes <= frames * classes) by (nonlinear_arith)
            requires
                f + 1 <= frames,
        ;
        let mut row: [i64; 7] = [0, 0, 0, 0, 0, 0, 0];
        let mut c: usize = 0;
        while c < CLASSES && c < classes
            invariant
                c <= CLASSES,
                c <= classes,
                at == f * classes,
                at + classes <= len,
                len == out@.len(),
                row@.len() == CLASSES,
                forall|k: int|
                    0 <= k < CLASSES ==> #[trigger] row@[k] == if k < c {
                        out@[at + k]
                    } else {
                        0
                    },
            decreases CLASSES - c,
        {
            row[c] = out[at + c];
            c += 1;
        }
        assert(row@ =~= frame_ranks(out@, classes as int, f as int));
        rows.push(row);
        at += classes;
        f += 1;
    }
    rows
}

// ---------------------------------------------------------------------------
// Smoothing
// ---------------------------------------------------------------------------

/// Number of frames of `w` in state `s`.
pub open spec fn count(w: Seq<FrameState>, s: FrameState) -> nat
    decreases w.len(),
{
    if w.len() == 0 {
        0
    } else {
        count(w.drop_last(), s) + if w.last() == s {
            1nat
        } else {
            0
        }
    }
}

/// `w` is in state `s` at `k` for the first time.
pub open spec fn first_at(w: Seq<FrameState>, s: FrameState, k: int) -> bool {
    0 <= k < w.len() && w[k] == s && forall|j: int| 0 <= j < k ==> w[j] != s
}

/// `r` is the most frequent state of `w`; of several, `center` if it is one of
/// them, else the one that appears last for the first time.
pub open spec fn is_majority(w: Seq<FrameState>, center: FrameState, r: FrameState) -> bool {
    &&& forall|s: FrameState| #[trigger] count(w, s) <= count(w, r)
    &&& if count(w, center) == count(w, r) {
        r == center
    } else {
        exists|k: int|
            {
                &&& #[trigger] first_at(w, r, k)
                &&& forall|s: FrameState, j: int| #[trigger]
                    first_at(w, s, j) && count(w, s) == count(w, r) ==> j <= k
            }
    }
}

/// First frame of the filter window around frame `i`.
pub open spec fn window_from(win: nat, i: int) -> int {
    if i >= win / 2 {
        i - win / 2
    } else {
        0
    }
}

/// One past the last frame of the filter window around frame `i`.
pub open spec fn window_to(n: nat, win: nat, i: int) -> int {
    if i + win / 2 + 1 <= n {
        i + win / 2 + 1
    } else {
        n as int
    }
}

/// `r` is `states` after the majority filter of width `win`.
pub open spec fn is_smoothed(states: Seq<FrameState>, win: nat, r: Seq<FrameState>) -> bool {
    if win <= 1 {
        r == states
    } else {
        &&& r.len() == states.len()
        &&& forall|i: int|
            0 <= i < states.len() ==> is_majority(
                states.subrange(window_from(win, i), window_to(states.len(), win, i)),
                states[i],
                #[trigger] r[i],
            )
    }
}

proof fn count_bound(w: Seq<FrameState>, s: FrameState)
    ensures
        count(w, s) <= w.len(),
        count(w, s) > 0 <==> exists|k: int| first_at(w, s, k),
    decreases w.len(),
{
    if w.len() > 0 {
        let v = w.drop_last();
        count_bound(v, s);
        if count(v, s) > 0 {
            let k = choose|k: int| first_at(v, s, k);
            assert forall|j: int| 0 <= j < k implies w[j] != s by {
                assert(v[j] != s);
            }
            assert(first_at(w, s, k));
        } else if w.last() == s {
            assert forall|j: int| 0 <= j < v.len() implies w[j] != s by {
                if w[j] == s {
                    assert(exists|k: int| first_at(v, s, k)) by {
                        has_first(v, s, j);
                    }
                }
            }
            assert(first_at(w, s, w.len() - 1));
        }
        if exists|k: int| first_at(w, s, k) {
            let k = choose|k: int| first_at(w, s, k);
            if k < v.len() {
                assert(first_at(v, s, k));
            }
        }
    }
}

proof fn has_first(w: Seq<FrameState>, s: FrameState, j: int)
    requires
        0 <= j < w.len(),
        w[j] == s,
    ensures
        exists|k: int| first_at(w, s, k),
    decreases j,
{
    if first_at(w, s, j) {
    } else {
        let i = choose|i: int| 0 <= i < j && w[i] == s;
        has_first(w, s, i);
    }
}

/// Number of frames of `states[lo..hi]` in state `s`.
fn count_in(states: &Vec<FrameState>, lo: usize, hi: usize, s: FrameState) -> (n: usize)
    requires
        lo <= hi <= states.len(),
    ensures
        n == count(states@.subrange(lo as int, hi as int), s),
{
    let mut n: usize = 0;
    let mut k: usize = lo;
    while k < hi
        invariant
            lo <= k <= hi <= states.len(),
            n <= k - lo,
            n == count(states@.subrange(lo as int, k as int), s),
        decreases hi - k,
    {
        assert(states@.subrange(lo as int, k + 1).drop_last() =~= states@.subrange(
            lo as int,
            k as int,
        ));
        if states[k] == s {
            n += 1;
        }
        k += 1;
    }
    n
}

/// The majority of `states[lo..hi]`, where `i` is the frame in the middle.
fn majority(states: &Vec<FrameState>, lo: usize, hi: usize, i: usize) -> (r: FrameState)
    requires
        lo <= i < hi <= states.len(),
    ensures
        is_majority(states@.subrange(lo as int, hi as int), states@[i as int], r),
{
    let ghost w = states@.subrange(lo as int, hi as int);
    let center = states[i];
    let mut best = center;
    let mut best_n: usize = 0;
    let ghost mut best_k: int = -1;
    let mut k: usize = lo;
    while k < hi
        invariant
            lo <= k <= hi <= states.len(),
            w == states@.subrange(lo as int, hi as int),
            k == lo ==> best_n == 0,
            k > lo ==> best_n == count(w, best) && first_at(w, best, best_k) && best_k < k - lo,
            forall|s: FrameState, j: int| #[trigger]
                first_at(w, s, j) && j < k - lo ==> count(w, s) < best_n || (count(w, s) == best_n
                    && j <= best_k),
        decreases hi - k,
    {
        let s = states[k];
        let mut fresh = true;
        let mut j: usize = lo;
        while j < k && fresh
            invariant
                lo <= j <= k < hi <= states.len(),
                w == states@.subrange(lo as int, hi as int),
                s == states@[k as int],
                fresh ==> forall|x: int| 0 <= x < j - lo ==> w[x] != s,
                !fresh ==> exists|x: int| 0 <= x < k - lo && w[x] == s,
            decreases k - j,
        {
            if states[j] == s {
                assert(w[j - lo] == s);
                fresh = false;
            }
            j += 1;
        }
        let n = count_in(states, lo, hi, s);
        assert(w[k - lo] == s);
        if fresh {
            assert(first_at(w, s, k - lo));
            proof {
                count_bound(w, s);
            }
        } else {
            assert(!first_at(w, s, k - lo));
        }
        let ghost old_k = best_k;
        let ghost old_n = best_n;
        if fresh && n >= best_n {
            best = s;
            best_n = n;
            proof {
                best_k = k - lo;
            }
        }
        proof {
            assert forall|t: FrameState, j: int| #[trigger]
                first_at(w, t, j) && j < k + 1 - lo implies count(w, t) < best_n || (count(w, t)
                == best_n && j <= best_k) by {
                if j == k - lo {
                    assert(t == s);
                }
            }
        }
        k += 1;
    }
    let center_n = count_in(states, lo, hi, center);
    proof {
        assert forall|s: FrameState| #[trigger] count(w, s) <= best_n by {
            count_bound(w, s);
            if count(w, s) > 0 {
                let j = choose|j: int| first_at(w, s, j);
                assert(first_at(w, s, j));
            }
        }
    }
    if center_n == best_n {
        center
    } else {
        best
    }
}

/// Majority filter: removes single-frame flicker that would otherwise make up
/// tiny runs. Ties keep the frame in the middle.
pub fn smooth(states: &Vec<FrameState>, win: usize) -> (r: Vec<FrameState>)
    ensures
        is_smoothed(states@, win as nat, r@),
{
    let n = states.len();
    let half: usize = win / 2;
    let mut out: Vec<FrameState> = Vec::new();
    let mut i: usize = 0;
    while i < n
        invariant
            i <= n,
            n == states.len(),
            half == win / 2,
            out.len() == i,
            win <= 1 ==> forall|k: int| 0 <= k < i ==> out[k] == states[k],
            win > 1 ==> forall|k: int|
                0 <= k < i ==> is_majority(
                    states@.subrange(window_from(win as nat, k), window_to(n as nat, win as nat, k)),
                    states@[k],
                    #[trigger] out@[k],
                ),
        decreases n - i,
    {
        if win <= 1 {
            out.push(states[i]);
        } else {
            let lo: usize = if i >= half {
                i - half
            } else {
                0
            };
            let hi: usize = if half < n - i {
                i + half + 1
            } else {
                n
            };
            out.push(majority(states, lo, hi, i));
        }
        i += 1;
    }
    assert(win <= 1 ==> out@ =~= states@);
    out
}

proof fn count_constant(w: Seq<FrameState>, s: FrameState, t: FrameState)
    requires
        forall|k: int| 0 <= k < w.len() ==> w[k] == s,
    ensures
        count(w, s) == w.len(),
        t != s ==> count(w, t) == 0,
    decreases w.len(),
{
    if w.len() > 0 {
        count_constant(w.drop_last(), s, t);
    }
}

proof fn count_all_but_one(w: Seq<FrameState>, s: FrameState, c: int)
    requires
        0 <= c < w.len(),
        w[c] != s,
        forall|k: int| 0 <= k < w.len() && k != c ==> w[k] == s,
    ensures
        count(w, s) == w.len() - 1,
        count(w, w[c]) == 1,
    decreases w.len(),
{
    let v = w.drop_last();
    if c == w.len() - 1 {
        count_constant(v, s, w[c]);
    } else {
        count_all_but_one(v, s, c);
    }
}

/// A single frame that flickers inside a steady state is outvoted.
pub proof fn lone_frame_is_outvoted(w: Seq<FrameState>, s: FrameState, c: int, r: FrameState)
    requires
        w.len() >= 3,
        0 <= c < w.len(),
        w[c] != s,
        forall|k: int| 0 <= k < w.len() && k != c ==> w[k] == s,
        is_majority(w, w[c], r),
    ensures
        r == s,
{
    count_all_but_one(w, s, c);
    assert(count(w, s) <= count(w, r));
    count_bound(w, r);
    let k = choose|k: int| first_at(w, r, k);
    if r != s {
        assert(k == c);
    }
}

// ---------------------------------------------------------------------------
// Boundaries
// ---------------------------------------------------------------------------

/// `frames` frames last `ms` milliseconds.
#[derive(Debug, Clone, Copy, PartialEq, Eq, Structural)]
pub struct Step {
    pub ms: u64,
    pub frames: u64,
}

impl Step {
    /// `n` frames last at least `ms` milliseconds.
    pub open spec fn at_least(self, n: int, ms: int) -> bool {
        n * self.ms >= ms * self.frames
    }

    /// `n` frames last at most `ms` milliseconds.
    pub open spec fn at_most(self, n: int, ms: int) -> bool {
        n * self.ms <= ms * self.frames
    }

    /// Whole milliseconds before frame `n`.
    pub open spec fn before(self, n: int) -> int {
        (n * self.ms) / self.frames as int
    }
}

/// Exactly one voice is active.
pub open spec fn is_solo(s: FrameState) -> bool {
    s is Solo
}

/// `states[from..to]` is a run of identical states that does not go on at
/// either end.
pub open spec fn is_run(states: Seq<FrameState>, from: int, to: int) -> bool {
    &&& 0 <= from < to <= states.len()
    &&& forall|k: int| from <= k < to ==> states[k] == states[from]
    &&& from > 0 ==> states[from - 1] != states[from]
    &&& to < states.len() ==> states[to] != states[from]
}

/// A sustained voice in `a0..a1`, at most a short pause or overlap, then a
/// different sustained voice in `b0..b1`.
pub open spec fn handoff(
    states: Seq<FrameState>,
    step: Step,
    a0: int,
    a1: int,
    b0: int,
    b1: int,
) -> bool {
    &&& is_run(states, a0, a1)
    &&& is_run(states, b0, b1)
    &&& a1 <= b0
    &&& is_solo(states[a0])
    &&& is_solo(states[b0])
    &&& states[a0] != states[b0]
    &&& step.at_least(a1 - a0, MIN_RUN_MS as int)
    &&& step.at_least(b1 - b0, MIN_RUN_MS as int)
    &&& step.at_most(b0 - a1, MAX_GAP_MS as int)
    &&& forall|k: int| a1 <= k < b0 ==> !is_solo(states[k])
}

/// A new voice takes over at frame `b`.
pub open spec fn takes_over(states: Seq<FrameState>, step: Step, b: int) -> bool {
    exists|a0: int, a1: int, b1: int| handoff(states, step, a0, a1, b, b1)
}

/// The newest frame before `n` at which a new voice takes over.
pub open spec fn newest(states: Seq<FrameState>, step: Step, n: int) -> Option<int>
    decreases n,
{
    if n <= 0 {
        None
    } else if takes_over(states, step, n - 1) {
        Some(n - 1)
    } else {
        newest(states, step, n - 1)
    }
}

/// Session time of the newest boundary of a window, unless it follows the last
/// one too closely.
pub open spec fn boundary_of(
    states: Seq<FrameState>,
    step: Step,
    window_start_ms: u64,
    last_ms: Option<u64>,
) -> Option<int> {
    match newest(states, step, states.len() as int) {
        None => None,
        Some(b) => {
            let t = window_start_ms + step.before(b);
            if last_ms matches Some(l) && t < l + REFRACTORY_MS {
                None
            } else {
                Some(t)
            }
        },
    }
}

/// Whether exactly one voice is active.
fn solo(s: FrameState) -> (r: bool)
    ensures
        r == is_solo(s),
{
    match s {
        FrameState::Solo(_) => true,
        _ => false,
    }
}

/// Beginning of the run that ends before `to`.
fn run_start(states: &Vec<FrameState>, to: usize) -> (from: usize)
    requires
        0 < to <= states.len(),
    ensures
        from < to,
        forall|k: int| from <= k < to ==> states@[k] == states@[from as int],
        from > 0 ==> states@[from - 1] != states@[from as int],
{
    let mut from: usize = to - 1;
    while from > 0 && states[from - 1] == states[from]
        invariant
            from < to <= states.len(),
            forall|k: int| from <= k < to ==> states@[k] == states@[from as int],
        decreases from,
    {
        from -= 1;
    }
    from
}

/// The two runs of a handoff are determined by where the second begins.
proof fn same_handoff(
    states: Seq<FrameState>,
    step: Step,
    a0: int,
    a1: int,
    b: int,
    b1: int,
    c0: int,
    c1: int,
    d1: int,
)
    requires
        is_run(states, a0, a1),
        is_run(states, b, b1),
        a1 <= b,
        is_solo(states[a0]),
        forall|k: int| a1 <= k < b ==> !is_solo(states[k]),
        handoff(states, step, c0, c1, b, d1),
    ensures
        c0 == a0,
        c1 == a1,
        d1 == b1,
{
    if d1 < b1 {
        assert(states[d1] == states[b]);
    }
    if b1 < d1 {
        assert(states[b1] == states[b]);
    }
    assert(states[c1 - 1] == states[c0]);
    assert(states[a1 - 1] == states[a0]);
    if c1 < a1 {
        assert(!is_solo(states[a1 - 1]));
    }
    if a1 < c1 {
        assert(!is_solo(states[c1 - 1]));
    }
    if c0 < a0 {
        assert(states[a0 - 1] == states[c0]);
        assert(states[a0] == states[c0]);
    }
    if a0 < c0 {
        assert(states[c0 - 1] == states[a0]);
        assert(states[c0] == states[a0]);
    }
}

/// Latest speaker-to-speaker handoff in the window, if any qualifies: a
/// sustained solo voice, at most a short gap (silence or overlap), then a
/// different sustained solo voice. Returns the session time of the new voice's
/// first frame.
pub fn find_boundary(
    states: &Vec<FrameState>,
    step: Step,
    window_start_ms: u64,
    last_boundary_ms: Option<u64>,
) -> (r: Option<u64>)
    requires
        step.frames > 0,
        window_start_ms + step.before(states.len() as int) <= u64::MAX,
    ensures
        match (r, boundary_of(states@, step, window_start_ms, last_boundary_ms)) {
            (Some(t), Some(b)) => t == b,
            (None, None) => true,
            _ => false,
        },
{
    let ms = step.ms as u128;
    let min_run = MIN_RUN_MS as u128 * step.frames as u128;
    let max_gap = MAX_GAP_MS as u128 * step.frames as u128;
    let n = states.len();
    let mut e: usize = n;
    while e > 0
        invariant
            e <= n,
            n == states.len(),
            ms == step.ms,
            step.frames > 0,
            min_run == MIN_RUN_MS * step.frames,
            max_gap == MAX_GAP_MS * step.frames,
            window_start_ms + step.before(n as int) <= u64::MAX,
            0 < e < n ==> states@[e as int] != states@[e - 1],
            newest(states@, step, n as int) == newest(states@, step, e as int),
        decreases e,
    {
        let s = run_start(states, e);
        assert(is_run(states@, s as int, e as int));
        let ghost inner = forall|k: int| s < k < e ==> !takes_over(states@, step, k);
        assert(inner) by {
            assert forall|k: int| s < k < e implies !takes_over(states@, step, k) by {
                if takes_over(states@, step, k) {
                    let (a0, a1, b1) = choose|a0: int, a1: int, b1: int|
                        handoff(states@, step, a0, a1, k, b1);
                    assert(states@[k - 1] == states@[k]);
                }
            }
        }
        proof {
            skip_frames(states@, step, s as int, e as int);
        }
        assert(((e - s) as u128) * ms <= u64::MAX * u64::MAX) by (nonlinear_arith)
            requires
                ms <= u64::MAX,
                0 <= e - s <= u64::MAX,
        ;
        if solo(states[s]) && (e - s) as u128 * ms >= min_run {
            let mut g: usize = s;
            while g > 0 && !solo(states[g - 1])
                invariant
                    g <= s < e <= n,
                    n == states.len(),
                    forall|k: int| g <= k < s ==> !is_solo(states@[k]),
                decreases g,
            {
                g -= 1;
            }
            assert(((s - g) as u128) * ms <= u64::MAX * u64::MAX) by (nonlinear_arith)
                requires
                    ms <= u64::MAX,
                    0 <= s - g <= u64::MAX,
            ;
            if g > 0 && (s - g) as u128 * ms <= max_gap {
                let a = run_start(states, g);
                assert(is_solo(states@[g - 1]));
                assert(is_run(states@, a as int, g as int)) by {
                    if g < n {
                        if g == s {
                            assert(states@[s - 1] != states@[s as int]);
                        } else {
                            assert(!is_solo(states@[g as int]));
                        }
                    }
                }
                assert(((g - a) as u128) * ms <= u64::MAX * u64::MAX) by (nonlinear_arith)
                    requires
                        ms <= u64::MAX,
                        0 <= g - a <= u64::MAX,
                ;
                if states[a] != states[s] && (g - a) as u128 * ms >= min_run {
                    assert(handoff(states@, step, a as int, g as int, s as int, e as int));
                    assert(takes_over(states@, step, s as int));
                    assert((s as u128) * ms <= u64::MAX * u64::MAX) by (nonlinear_arith)
                        requires
                            ms <= u64::MAX,
                            0 <= s <= u64::MAX,
                    ;
                    let offset = (s as u128 * ms) / step.frames as u128;
                    assert(offset == step.before(s as int));
                    assert(step.before(s as int) <= step.before(n as int)) by (nonlinear_arith)
                        requires
                            step.frames > 0,
                            s <= n,
                            step.before(s as int) == (s as int * step.ms) / step.frames as int,
                            step.before(n as int) == (n as int * step.ms) / step.frames as int,
                    ;
                    let boundary = window_start_ms + offset as u64;
                    if let Some(last) = last_boundary_ms {
                        if (boundary as u128) < last as u128 + REFRACTORY_MS as u128 {
                            // Older handoffs are older still.
                            return None;
                        }
                    }
                    return Some(boundary);
                }
                proof {
                    if takes_over(states@, step, s as int) {
                        let (c0, c1, d1) = choose|c0: int, c1: int, d1: int|
                            handoff(states@, step, c0, c1, s as int, d1);
                        same_handoff(
                            states@,
                            step,
                            a as int,
                            g as int,
                            s as int,
                            e as int,
                            c0,
                            c1,
                            d1,
                        );
                    }
                }
            } else {
                proof {
                    if takes_over(states@, step, s as int) {
                        let (c0, c1, d1) = choose|c0: int, c1: int, d1: int|
                            handoff(states@, step, c0, c1, s as int, d1);
                        assert(states@[c1 - 1] == states@[c0]);
                        if c1 < g {
                            assert(!is_solo(states@[g - 1]));
                        }
                        if g < c1 {
                            assert(!is_solo(states@[c1 - 1]));
                        }
                        assert(false);
                    }
                }
            }
        } else {
            proof {
                if takes_over(states@, step, s as int) {
                    let (c0, c1, d1) = choose|c0: int, c1: int, d1: int|
                        handoff(states@, step, c0, c1, s as int, d1);
                    if d1 < e {
                        assert(states@[d1] == states@[s as int]);
                    }
                    if e < d1 {
                        assert(states@[e as int] == states@[s as int]);
                    }
                    assert(false);
                }
            }
        }
        assert(newest(states@, step, s + 1) == newest(states@, step, s as int));
        e = s;
    }
    None
}

/// Frames at which no voice takes over do not matter.
proof fn skip_frames(states: Seq<FrameState>, step: Step, from: int, to: int)
    requires
        0 <= from < to <= states.len(),
        forall|k: int| from < k < to ==> !takes_over(states, step, k),
    ensures
        newest(states, step, to) == newest(states, step, from + 1),
    decreases to - from,
{
    if to > from + 1 {
        skip_frames(states, step, from, to - 1);
    }
}

/// A boundary comes at least the refractory time after the one before it, so
/// the same boundary is never reported twice.
pub proof fn boundaries_are_spaced(
    states: Seq<FrameState>,
    step: Step,
    window_start_ms: u64,
    last_ms: u64,
)
    ensures
        boundary_of(states, step, window_start_ms, Some(last_ms)) matches Some(t) ==> t >= last_ms
            + REFRACTORY_MS,
        boundary_of(states, step, window_start_ms, None) == Some(last_ms as int) ==> boundary_of(
            states,
            step,
            window_start_ms,
            Some(last_ms),
        ) is None,
{
}

// ---------------------------------------------------------------------------
// Window
// ---------------------------------------------------------------------------

/// One slice of the system lane. `suppress` replaces the samples with silence
/// (used while readout playback is audible, so that the spoken translation in
/// the loopback is never mistaken for a new speaker).
pub struct Feed<T> {
    pub samples: Vec<T>,
    pub t_ms: u64,
    pub suppress: bool,
}

/// A full window for the model, with the session time at which it ends.
pub struct FullWindow<T> {
    pub samples: Vec<T>,
    pub end_ms: u64,
}

/// The sliding window over the system lane and the last boundary found in it.
pub struct SplitWindow<T> {
    ring: VecDeque<T>,
    since_infer: usize,
    last_boundary_ms: Option<u64>,
}

/// What a [`SplitWindow`] holds.
pub struct WindowModel<T> {
    pub ring: Seq<T>,
    pub since: nat,
    pub last: Option<u64>,
}

impl<T> View for SplitWindow<T> {
    type V = WindowModel<T>;

    closed spec fn view(&self) -> WindowModel<T> {
        WindowModel {
            ring: self.ring@,
            since: self.since_infer as nat,
            last: self.last_boundary_ms,
        }
    }
}

/// The last `n` items of `s`, or all of them.
pub open spec fn newest_items<T>(s: Seq<T>, n: nat) -> Seq<T> {
    if s.len() > n {
        s.skip(s.len() - n)
    } else {
        s
    }
}

impl<T> WindowModel<T> {
    pub open spec fn initial() -> WindowModel<T> {
        WindowModel { ring: Seq::empty(), since: 0, last: None }
    }

    /// The window is never longer than the model wants, and until it is full
    /// nothing has been handed to the model.
    pub open spec fn wf(self) -> bool {
        &&& self.ring.len() <= WINDOW_SAMPLES
        &&& self.ring.len() < WINDOW_SAMPLES ==> self.since == self.ring.len()
        &&& self.ring.len() == WINDOW_SAMPLES ==> self.since < HOP_SAMPLES
    }

    /// The window after a slice.
    pub open spec fn slid(self, samples: Seq<T>, silence: T, suppress: bool) -> Seq<T> {
        let added = if suppress {
            Seq::new(samples.len(), |i: int| silence)
        } else {
            samples
        };
        newest_items(self.ring + added, WINDOW_SAMPLES as nat)
    }

    /// After a slice of `n` samples the model is to run again.
    pub open spec fn is_due(self, n: nat) -> bool {
        self.ring.len() + n >= WINDOW_SAMPLES && self.since + n >= HOP_SAMPLES
    }

    /// The state after a slice.
    pub open spec fn fed(self, samples: Seq<T>, silence: T, suppress: bool) -> WindowModel<T> {
        WindowModel {
            ring: self.slid(samples, silence, suppress),
            since: if self.is_due(samples.len()) {
                0
            } else {
                self.since + samples.len()
            },
            last: self.last,
        }
    }
}

/// Start of a window that ends at `end_ms`.
pub open spec fn window_start(end_ms: u64) -> u64 {
    if end_ms >= WINDOW_MS {
        (end_ms - WINDOW_MS) as u64
    } else {
        0
    }
}

/// The frames of a window share its length evenly.
pub open spec fn step_of(frames: nat) -> Step {
    Step {
        ms: WINDOW_MS,
        frames: if frames == 0 {
            1
        } else {
            frames as u64
        },
    }
}

/// `t` is the boundary in a window for which the model ranked the classes of
/// each frame.
pub open spec fn is_boundary(
    frames: Seq<[i64; 7]>,
    end_ms: u64,
    last_ms: Option<u64>,
    t: Option<u64>,
) -> bool {
    exists|states: Seq<FrameState>|
        {
            &&& #[trigger] is_smoothed(decoded(frames), SMOOTH_FRAMES as nat, states)
            &&& boundary_of(states, step_of(frames.len()), window_start(end_ms), last_ms)
                == match t {
                Some(t) => Some(t as int),
                None => None,
            }
        }
}

impl<T: Copy> SplitWindow<T> {
    pub fn new() -> (w: Self)
        ensures
            w@ == WindowModel::<T>::initial(),
            w@.wf(),
    {
        SplitWindow { ring: VecDeque::new(), since_infer: 0, last_boundary_ms: None }
    }

    /// Takes one slice, and gives the window to run the model on when enough
    /// new audio has come in.
    pub fn feed(&mut self, feed: &Feed<T>, silence: T) -> (r: Option<FullWindow<T>>)
        requires
            old(self)@.wf(),
            feed.samples@.len() + WINDOW_SAMPLES <= usize::MAX,
            feed.t_ms + feed.samples@.len() / 16 <= u64::MAX,
        ensures
            final(self)@.wf(),
            final(self)@ == old(self)@.fed(feed.samples@, silence, feed.suppress),
            r is Some <==> old(self)@.is_due(feed.samples@.len()),
            r matches Some(w) ==> {
                &&& w.samples@ == final(self)@.ring
                &&& w.samples@.len() == WINDOW_SAMPLES
                &&& w.end_ms == feed.t_ms + feed.samples@.len() / 16
            },
    {
        let len = feed.samples.len();
        let ghost start = self.ring@;
        let ghost added = if feed.suppress {
            Seq::new(feed.samples@.len(), |i: int| silence)
        } else {
            feed.samples@
        };
        let mut i: usize = 0;
        assert(start + added.take(0) =~= start);
        while i < len
            invariant
                i <= len,
                len == feed.samples.len(),
                added == if feed.suppress {
                    Seq::new(feed.samples@.len(), |i: int| silence)
                } else {
                    feed.samples@
                },
                start.len() <= WINDOW_SAMPLES,
                self.ring@ == newest_items(start + added.take(i as int), WINDOW_SAMPLES as nat),
                self.since_infer == old(self).since_infer,
                self.last_boundary_ms == old(self).last_boundary_ms,
            decreases len - i,
        {
            let s = if feed.suppress {
                silence
            } else {
                feed.samples[i]
            };
            let ghost before = start + added.take(i as int);
            assert(start + added.take(i + 1) =~= before.push(s));
            self.ring.push_back(s);
            if self.ring.len() > WINDOW_SAMPLES {
                let _ = self.ring.pop_front();
            }
            assert(self.ring@ =~= newest_items(before.push(s), WINDOW_SAMPLES as nat));
            i += 1;
        }
        assert(added.take(len as int) =~= added);
        self.since_infer = self.since_infer + len;
        if self.ring.len() < WINDOW_SAMPLES || self.since_infer < HOP_SAMPLES {
            return None;
        }
        self.since_infer = 0;
        let mut samples: Vec<T> = Vec::new();
        let mut k: usize = 0;
        while k < self.ring.len()
            invariant
                k <= self.ring@.len(),
                samples@ =~= self.ring@.take(k as int),
            decreases self.ring@.len() - k,
        {
            samples.push(self.ring[k]);
            k += 1;
        }
        assert(self.ring@.take(k as int) =~= self.ring@);
        Some(FullWindow { samples, end_ms: feed.t_ms + (len / 16) as u64 })
    }

    /// The new boundary, if there is one, in the window that ends at `end_ms`,
    /// from the ranks of the classes in each of its frames.
    pub fn boundary(&mut self, frames: &Vec<[i64; 7]>, end_ms: u64) -> (r: Option<u64>)
        requires
            old(self)@.wf(),
        ensures
            final(self)@.wf(),
            is_boundary(frames@, end_ms, old(self)@.last, r),
            final(self)@ == (WindowModel {
                last: match r {
                    Some(t) => Some(t),
                    None => old(self)@.last,
                },
                ..old(self)@
            }),
    {
        let states = smooth(&decode(frames), SMOOTH_FRAMES);
        let n = states.len();
        let step = Step {
            ms: WINDOW_MS,
            frames: if n == 0 {
                1
            } else {
                n as u64
            },
        };
        let start: u64 = end_ms.saturating_sub(WINDOW_MS);
        assert(step.before(n as int) <= WINDOW_MS) by (nonlinear_arith)
            requires
                step.ms == WINDOW_MS,
                n > 0 ==> step.frames == n,
                n == 0 ==> step.frames == 1,
                step.before(n as int) == (n as int * step.ms) / step.frames as int,
        ;
        let r = find_boundary(&states, step, start, self.last_boundary_ms);
        if r.is_some() {
            self.last_boundary_ms = r;
        }
        r
    }
}

} // verus!
