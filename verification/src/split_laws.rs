//! What holds of speaker changes: which voices are told apart, and where one
//! hands over to another.
use vstd::prelude::*;
use crate::split;
use crate::split::{FrameState, Step, WindowModel};

verus! {

// ---------------------------------------------------------------------------
// Classes
// ---------------------------------------------------------------------------

/// Class `c` is the likeliest of a frame, and of equally likely ones the first.
pub open spec fn leads(ranks: Seq<i64>, c: int) -> bool {
    &&& 0 <= c < 7
    &&& forall|k: int| 0 <= k < 7 ==> #[trigger] ranks[k] <= ranks[c]
    &&& forall|k: int| 0 <= k < c ==> #[trigger] ranks[k] < ranks[c]
}

proof fn leader_is_likeliest(ranks: Seq<i64>, c: int)
    requires
        ranks.len() == 7,
        leads(ranks, c),
    ensures
        split::most_likely(ranks) == c,
{
    assert(split::is_top(ranks, c));
    let m = split::most_likely(ranks);
    assert(split::is_top(ranks, m));
    assert(ranks[m] <= ranks[c] && ranks[c] <= ranks[m]);
}

/// A frame is silent, one voice or an overlap as its likeliest class is nobody,
/// one of the three voices or one of the three pairs.
pub proof fn frames_are_of_their_kind(frames: Seq<[i64; 7]>, i: int, c: int)
    requires
        0 <= i < frames.len(),
        leads(frames[i]@, c),
    ensures
        split::decoded(frames).len() == frames.len(),
        split::decoded(frames)[i] is Silence <==> c == 0,
        split::decoded(frames)[i] is Solo <==> 1 <= c <= 3,
        split::decoded(frames)[i] is Overlap <==> 4 <= c <= 6,
{
    leader_is_likeliest(frames[i]@, c);
}

/// Two frames with one voice have the same voice exactly when their likeliest
/// class is the same: no two of the three voices are taken for one.
pub proof fn voices_are_told_apart(frames: Seq<[i64; 7]>, i: int, c: int, j: int, d: int)
    requires
        0 <= i < frames.len(),
        0 <= j < frames.len(),
        leads(frames[i]@, c),
        leads(frames[j]@, d),
        1 <= c <= 3,
        1 <= d <= 3,
    ensures
        split::decoded(frames)[i] is Solo,
        split::decoded(frames)[j] is Solo,
        split::decoded(frames)[i] == split::decoded(frames)[j] <==> c == d,
{
    leader_is_likeliest(frames[i]@, c);
    leader_is_likeliest(frames[j]@, d);
}

// ---------------------------------------------------------------------------
// Handoffs
// ---------------------------------------------------------------------------

/// `n` frames in state `a`, then `g` frames in state `p`, then `m` frames in
/// state `b`.
pub open spec fn phases(a: FrameState, n: nat, p: FrameState, g: nat, b: FrameState, m: nat) -> Seq<
    FrameState,
> {
    Seq::new(
        n + g + m,
        |i: int|
            if i < n {
                a
            } else if i < n + g {
                p
            } else {
                b
            },
    )
}

proof fn newest_is_only(states: Seq<FrameState>, step: Step, b: int, n: int)
    requires
        0 <= b < n,
        split::takes_over(states, step, b),
        forall|k: int| b < k < n ==> !split::takes_over(states, step, k),
    ensures
        split::newest(states, step, n) == Some(b),
    decreases n,
{
    if n - 1 > b {
        newest_is_only(states, step, b, n - 1);
    }
}

proof fn newest_is_none(states: Seq<FrameState>, step: Step, n: int)
    requires
        forall|k: int| 0 <= k < n ==> !split::takes_over(states, step, k),
    ensures
        split::newest(states, step, n) is None,
    decreases n,
{
    if n > 0 {
        newest_is_none(states, step, n - 1);
    }
}

/// Only the beginning of the second voice can be a takeover.
proof fn other_frames(
    a: FrameState,
    n: nat,
    p: FrameState,
    g: nat,
    b: FrameState,
    m: nat,
    step: Step,
    k: int,
)
    requires
        n > 0,
        m > 0,
        !(p is Solo),
        a != b,
        split::takes_over(phases(a, n, p, g, b, m), step, k),
    ensures
        k == n + g,
{
    let s = phases(a, n, p, g, b, m);
    let (a0, a1, b1) = choose|a0: int, a1: int, b1: int| split::handoff(s, step, a0, a1, k, b1);
    assert(split::handoff(s, step, a0, a1, k, b1));
    assert(k > 0);
    if k < n {
        assert(s[k - 1] == a && s[k] == a);
    } else if k < n + g {
        assert(s[k] == p);
    } else if k > n + g {
        assert(s[k - 1] == b && s[k] == b);
    }
}

/// One voice hands over to another exactly where the second begins, if both last
/// long enough (800 ms) and what lies between them, silence or overlap, is short
/// enough (900 ms). Otherwise there is no boundary.
pub proof fn handoffs_are_found(
    a: u8,
    n: nat,
    p: FrameState,
    g: nat,
    b: u8,
    m: nat,
    step: Step,
    window_start_ms: u64,
)
    requires
        n > 0,
        m > 0,
        a != b,
        !(p is Solo),
        step.frames > 0,
    ensures
        split::boundary_of(
            phases(FrameState::Solo(a), n, p, g, FrameState::Solo(b), m),
            step,
            window_start_ms,
            None,
        ) == if n * step.ms >= 800 * step.frames && m * step.ms >= 800 * step.frames && g * step.ms
            <= 900 * step.frames {
            Some(window_start_ms + ((n + g) * step.ms) / step.frames as int)
        } else {
            None
        },
{
    let x = FrameState::Solo(a);
    let y = FrameState::Solo(b);
    let s = phases(x, n, p, g, y, m);
    let len = s.len() as int;
    let start: int = (n + g) as int;
    assert forall|k: int| k != start implies !split::takes_over(s, step, k) by {
        if split::takes_over(s, step, k) {
            other_frames(x, n, p, g, y, m, step, k);
        }
    }
    assert(split::is_run(s, 0, n as int)) by {
        assert(g == 0 ==> s[n as int] == y);
        assert(g > 0 ==> s[n as int] == p);
    }
    assert(split::is_run(s, start, len)) by {
        assert(g == 0 ==> s[start - 1] == x);
        assert(g > 0 ==> s[start - 1] == p);
    }
    if n * step.ms >= 800 * step.frames && m * step.ms >= 800 * step.frames && g * step.ms <= 900
        * step.frames {
        assert(split::handoff(s, step, 0, n as int, start, len));
        assert(split::takes_over(s, step, start));
        newest_is_only(s, step, start, len);
    } else {
        if split::takes_over(s, step, start) {
            let (a0, a1, b1) = choose|a0: int, a1: int, b1: int|
                split::handoff(s, step, a0, a1, start, b1);
            assert(split::handoff(s, step, a0, a1, start, b1));
            assert(b1 == len) by {
                if b1 < len {
                    assert(s[b1] == y);
                }
            }
            assert(a1 == n) by {
                assert(s[a1 - 1] == s[a0]);
                if a1 > n {
                    assert(s[a1 - 1] == p);
                }
                if a1 < n {
                    assert(s[n - 1] == x);
                    assert(!split::is_solo(s[n - 1]));
                }
            }
            assert(a0 == 0) by {
                if a0 > 0 {
                    assert(s[a0 - 1] == x && s[a0] == x);
                }
            }
        }
        newest_is_none(s, step, len);
    }
}

/// A window in which at most one voice is heard has no boundary.
pub proof fn one_voice_never_hands_over(
    states: Seq<FrameState>,
    voice: FrameState,
    step: Step,
    window_start_ms: u64,
    last_ms: Option<u64>,
)
    requires
        forall|i: int| 0 <= i < states.len() ==> (#[trigger] states[i] is Solo ==> states[i] == voice),
    ensures
        split::boundary_of(states, step, window_start_ms, last_ms) is None,
{
    assert forall|k: int| 0 <= k < states.len() implies !split::takes_over(states, step, k) by {
        if split::takes_over(states, step, k) {
            let (a0, a1, b1) = choose|a0: int, a1: int, b1: int|
                split::handoff(states, step, a0, a1, k, b1);
            assert(split::handoff(states, step, a0, a1, k, b1));
            assert(states[a0] is Solo && states[k] is Solo);
        }
    }
    newest_is_none(states, step, states.len() as int);
}

proof fn newest_is_found(states: Seq<FrameState>, step: Step, b: int, n: int) -> (r: int)
    requires
        0 <= b < n,
        split::takes_over(states, step, b),
    ensures
        split::newest(states, step, n) == Some(r),
        b <= r < n,
        split::takes_over(states, step, r),
    decreases n,
{
    if split::takes_over(states, step, n - 1) {
        n - 1
    } else {
        newest_is_found(states, step, b, n - 1)
    }
}

/// Of several handoffs in a window the latest counts: no voice takes over after
/// the boundary that is told.
pub proof fn the_latest_handoff_counts(
    states: Seq<FrameState>,
    step: Step,
    window_start_ms: u64,
    a0: int,
    a1: int,
    b0: int,
    b1: int,
) -> (r: int)
    requires
        split::handoff(states, step, a0, a1, b0, b1),
        step.frames > 0,
    ensures
        b0 <= r < states.len(),
        split::boundary_of(states, step, window_start_ms, None) == Some(
            window_start_ms + (r * step.ms) / (step.frames as int),
        ),
{
    assert(split::takes_over(states, step, b0));
    newest_is_found(states, step, b0, states.len() as int)
}

/// A boundary that comes 2.5 s or more after the last one is told as if there had
/// been none before; an earlier one is not told.
pub proof fn boundaries_count_from_the_last(
    states: Seq<FrameState>,
    step: Step,
    window_start_ms: u64,
    last_ms: u64,
)
    ensures
        ({
            let first = split::boundary_of(states, step, window_start_ms, None);
            split::boundary_of(states, step, window_start_ms, Some(last_ms)) == match first {
                Some(t) if t >= last_ms + 2_500 => Some(t),
                _ => None,
            }
        }),
{
}

// ---------------------------------------------------------------------------
// Smoothing
// ---------------------------------------------------------------------------

proof fn count_phases(w: Seq<FrameState>, a: FrameState, b: FrameState, k: int)
    requires
        0 <= k <= w.len(),
        a != b,
        forall|i: int| 0 <= i < k ==> w[i] == a,
        forall|i: int| k <= i < w.len() ==> w[i] == b,
    ensures
        split::count(w, a) == k,
        split::count(w, b) == w.len() - k,
        forall|s: FrameState| s != a && s != b ==> #[trigger] split::count(w, s) == 0,
    decreases w.len(),
{
    if w.len() > 0 {
        let v = w.drop_last();
        if k == w.len() {
            count_phases(v, a, b, k - 1);
        } else {
            count_phases(v, a, b, k);
        }
        assert forall|s: FrameState| s != a && s != b implies #[trigger] split::count(w, s) == 0 by {
            assert(split::count(v, s) == 0);
            assert(w.last() == a || w.last() == b);
        }
    }
}

/// Smoothing does not move a clean change from one state to another, when both
/// last at least five frames.
pub proof fn clean_changes_stay(
    a: FrameState,
    n: nat,
    b: FrameState,
    m: nat,
    r: Seq<FrameState>,
)
    requires
        a != b,
        n >= 5,
        m >= 5,
        split::is_smoothed(phases(a, n, a, 0, b, m), 9, r),
    ensures
        r == phases(a, n, a, 0, b, m),
{
    let s = phases(a, n, a, 0, b, m);
    assert forall|i: int| 0 <= i < s.len() implies r[i] == s[i] by {
        let lo = split::window_from(9, i);
        let hi = split::window_to(s.len(), 9, i);
        let w = s.subrange(lo, hi);
        assert(split::is_majority(w, s[i], r[i]));
        let k = if n <= lo {
            0
        } else if n >= hi {
            hi - lo
        } else {
            n - lo
        };
        count_phases(w, a, b, k);
        assert(split::count(w, s[i]) <= split::count(w, r[i]));
    }
    assert(r =~= s);
}

/// The model that hears one voice and then another tells a boundary where the
/// second begins: `n` frames with class `c` in the lead, then `m` frames with
/// class `d`, both single voices, and each at least 800 ms of the ten seconds.
pub proof fn heard_handoffs_are_boundaries(
    frames: Seq<[i64; 7]>,
    n: nat,
    m: nat,
    c: int,
    d: int,
    end_ms: u64,
    t: Option<u64>,
)
    requires
        frames.len() == n + m,
        n + m <= u64::MAX,
        n >= 5,
        m >= 5,
        1 <= c <= 3,
        1 <= d <= 3,
        c != d,
        forall|i: int| 0 <= i < n ==> leads(#[trigger] frames[i]@, c),
        forall|i: int| n <= i < n + m ==> leads(#[trigger] frames[i]@, d),
        n * 10_000 >= 800 * (n + m),
        m * 10_000 >= 800 * (n + m),
        end_ms >= 10_000,
        split::is_boundary(frames, end_ms, None, t),
    ensures
        t matches Some(at) && at == end_ms - 10_000 + ((n * 10_000) as int) / ((n + m) as int),
{
    let a = split::decoded(frames)[0];
    let b = split::decoded(frames)[n as int];
    let s = split::decoded(frames);
    assert(leads(frames[0]@, c));
    assert(leads(frames[n as int]@, d));
    voices_are_told_apart(frames, 0, c, n as int, d);
    assert forall|i: int| 0 <= i < s.len() implies s[i] == if i < n {
        a
    } else {
        b
    } by {
        if i < n {
            assert(leads(frames[i]@, c));
            voices_are_told_apart(frames, 0, c, i, c);
        } else {
            assert(leads(frames[i]@, d));
            voices_are_told_apart(frames, n as int, d, i, d);
        }
    }
    assert(s =~= phases(a, n, a, 0, b, m));
    let states = choose|states: Seq<FrameState>|
        {
            &&& #[trigger] split::is_smoothed(s, split::SMOOTH_FRAMES as nat, states)
            &&& split::boundary_of(
                states,
                split::step_of(frames.len()),
                split::window_start(end_ms),
                None,
            ) == match t {
                Some(t) => Some(t as int),
                None => None,
            }
        };
    clean_changes_stay(a, n, b, m, states);
    let x = a->Solo_0;
    let y = b->Solo_0;
    assert(phases(a, n, a, 0, b, m) =~= phases(
        FrameState::Solo(x),
        n,
        FrameState::Silence,
        0,
        FrameState::Solo(y),
        m,
    ));
    handoffs_are_found(
        x,
        n,
        FrameState::Silence,
        0,
        y,
        m,
        split::step_of(frames.len()),
        split::window_start(end_ms),
    );
}

// ---------------------------------------------------------------------------
// Window
// ---------------------------------------------------------------------------

/// Of a list that is too long the newest items stay, in order.
pub proof fn the_newest_stay<T>(s: Seq<T>, n: nat, back: int)
    ensures
        split::newest_items(s, n).len() == if s.len() > n {
            n
        } else {
            s.len()
        },
        0 <= back < s.len() && back < n ==> split::newest_items(s, n)[split::newest_items(
            s,
            n,
        ).len() - 1 - back] == s[s.len() - 1 - back],
{
}

/// The window holds the newest ten seconds of what was heard; what was
/// suppressed is silence in it.
pub proof fn windows_hold_the_newest_audio<T>(
    w: WindowModel<T>,
    samples: Seq<T>,
    silence: T,
    suppress: bool,
    back: int,
)
    requires
        0 <= back < 160_000,
        back < w.ring.len() + samples.len(),
    ensures
        ({
            let ring = w.fed(samples, silence, suppress).ring;
            &&& ring.len() == if w.ring.len() + samples.len() > 160_000 {
                160_000
            } else {
                w.ring.len() + samples.len()
            }
            &&& ring[ring.len() - 1 - back] == if back >= samples.len() {
                w.ring[w.ring.len() - 1 - (back - samples.len())]
            } else if suppress {
                silence
            } else {
                samples[samples.len() - 1 - back]
            }
        }),
{
}

/// The model runs as soon as the window is full and half a second is new, and
/// the count begins anew then.
pub proof fn the_model_runs_every_half_second<T>(
    w: WindowModel<T>,
    samples: Seq<T>,
    silence: T,
    suppress: bool,
)
    ensures
        w.is_due(samples.len()) <==> w.ring.len() + samples.len() >= 160_000 && w.since
            + samples.len() >= 8_000,
        w.fed(samples, silence, suppress).since == if w.is_due(samples.len()) {
            0
        } else {
            w.since + samples.len()
        },
        w.fed(samples, silence, suppress).last == w.last,
{
}

/// The ranks of a frame are its row in what the model put out, in order.
pub proof fn frames_are_rows(out: Seq<i64>, classes: int, frame: int, c: int)
    requires
        0 <= c < 7,
        c < classes,
    ensures
        split::frame_ranks(out, classes, frame).len() == 7,
        split::frame_ranks(out, classes, frame)[c] == out[frame * classes + c],
{
}

/// Where two states are equally frequent around a frame, the frame keeps its own.
pub proof fn ties_change_nothing(states: Seq<FrameState>, r: Seq<FrameState>, i: int)
    requires
        split::is_smoothed(states, 9, r),
        0 <= i < states.len(),
        forall|s: FrameState| #[trigger]
            split::count(
                states.subrange(
                    split::window_from(9, i),
                    split::window_to(states.len(), 9, i),
                ),
                s,
            ) <= split::count(
                states.subrange(split::window_from(9, i), split::window_to(states.len(), 9, i)),
                states[i],
            ),
    ensures
        r[i] == states[i],
{
    let w = states.subrange(split::window_from(9, i), split::window_to(states.len(), 9, i));
    assert(split::is_majority(w, states[i], r[i]));
    assert(split::count(w, states[i]) <= split::count(w, r[i]));
    assert(split::count(w, r[i]) <= split::count(w, states[i]));
}

// ---------------------------------------------------------------------------
// Voices in between
// ---------------------------------------------------------------------------

/// A third voice between two others, too short to count, is no pause: the second
/// does not take over from the first across it.
pub proof fn voices_in_between_are_no_pause(
    a: u8,
    n: nat,
    c: u8,
    g: nat,
    b: u8,
    m: nat,
    step: Step,
    window_start_ms: u64,
)
    requires
        n > 0,
        g > 0,
        m > 0,
        a != c,
        c != b,
        g * step.ms < 800 * step.frames,
        step.frames > 0,
    ensures
        split::boundary_of(
            phases(FrameState::Solo(a), n, FrameState::Solo(c), g, FrameState::Solo(b), m),
            step,
            window_start_ms,
            None,
        ) is None,
{
    let x = FrameState::Solo(a);
    let z = FrameState::Solo(c);
    let y = FrameState::Solo(b);
    let s = phases(x, n, z, g, y, m);
    assert forall|k: int| 0 <= k < s.len() implies !split::takes_over(s, step, k) by {
        if split::takes_over(s, step, k) {
            let (a0, a1, b1) = choose|a0: int, a1: int, b1: int|
                split::handoff(s, step, a0, a1, k, b1);
            assert(split::handoff(s, step, a0, a1, k, b1));
            assert(k > 0);
            assert(a1 == k) by {
                if a1 < k {
                    assert(split::is_solo(s[a1]));
                }
            }
            if k < n {
                assert(s[k - 1] == x && s[k] == x);
            } else if k == n {
                assert(b1 <= n + g) by {
                    if b1 > n + g {
                        assert(s[n as int + g] == y && s[k] == z);
                    }
                }
                short_run(step, b1 - k, g as int);
            } else if k < n + g {
                assert(s[k - 1] == z && s[k] == z);
            } else if k == n + g {
                assert(s[k - 1] == z);
                assert(a0 >= n) by {
                    if a0 < n {
                        assert(s[a0] == x && s[k - 1] == s[a0]);
                    }
                }
                short_run(step, a1 - a0, g as int);
            } else {
                assert(s[k - 1] == y && s[k] == y);
            }
        }
    }
    newest_is_none(s, step, s.len() as int);
}

/// What is no longer than a short run is short.
proof fn short_run(step: Step, k: int, g: int)
    requires
        k <= g,
        g * step.ms < 800 * step.frames,
    ensures
        !step.at_least(k, 800),
{
    assert(k * step.ms <= g * step.ms) by (nonlinear_arith)
        requires
            k <= g,
            step.ms >= 0,
    ;
}

} // verus!
