//! What holds of lanes, devices, applications and raw frames.
use vstd::prelude::*;
use crate::audio::app_capture;
use crate::audio::app_capture::{AppModel, AudioSession};
use crate::audio::capture;
use crate::audio::capture::CaptureWay;
use crate::audio::frames;
use crate::audio::frames::TapBuffer;
use crate::audio::pipeline;
use crate::audio::pipeline::PipelineModel;
use crate::audio::playback;
use crate::audio::playback::PlayerModel;
use crate::audio::tap;
use crate::audio::tap::TapPart;
use crate::audio::AudioSource;
use crate::fbank;
use crate::order;
use crate::split;
use crate::split_laws;
use crate::text;
use crate::text_laws;

verus! {

// ---------------------------------------------------------------------------
// Lanes and playback
// ---------------------------------------------------------------------------

/// Audio goes to the end of its own lane and leaves the other alone. A lane keeps
/// the newest ten seconds.
pub proof fn lanes_do_not_mix<T>(p: PipelineModel<T>, t_ms: u64, samples: Seq<T>, back: int)
    requires
        0 <= back < 160_000,
    ensures
        ({
            let n = p.pushed(AudioSource::Microphone, t_ms, samples);
            let all = p.mic + samples;
            &&& n.system == p.system
            &&& n.seq == p.seq
            &&& back < all.len() ==> back < n.mic.len() && n.mic[n.mic.len() - 1 - back]
                == all[all.len() - 1 - back]
        }),
        ({
            let n = p.pushed(AudioSource::System, t_ms, samples);
            let all = p.system + samples;
            &&& n.mic == p.mic
            &&& n.seq == p.seq
            &&& back < all.len() ==> back < n.system.len() && n.system[n.system.len() - 1 - back]
                == all[all.len() - 1 - back]
        }),
{
    split_laws::the_newest_stay(p.mic + samples, 160_000, back);
    split_laws::the_newest_stay(p.system + samples, 160_000, back);
}

/// That audio was dropped stays told until someone asks, whatever comes in
/// meanwhile; without a full lane nothing is told.
pub proof fn drops_stay_told<T>(
    p: PipelineModel<T>,
    source: AudioSource,
    t_ms: u64,
    samples: Seq<T>,
)
    ensures
        p.dropped ==> p.pushed(source, t_ms, samples).dropped && p.taken().dropped,
        !p.dropped && p.mic.len() + samples.len() <= 160_000 && p.system.len() + samples.len()
            <= 160_000 ==> !p.pushed(source, t_ms, samples).dropped,
        source == AudioSource::Microphone && p.mic.len() + samples.len() > 160_000 ==> p.pushed(
            source,
            t_ms,
            samples,
        ).dropped,
        source == AudioSource::System && p.system.len() + samples.len() > 160_000 ==> p.pushed(
            source,
            t_ms,
            samples,
        ).dropped,
{
}

/// A chunk is ready as soon as both lanes have 50 ms, and also when one lane has
/// 100 ms and the other lags behind.
pub proof fn stalled_lanes_do_not_block<T>(p: PipelineModel<T>)
    ensures
        p.ready() <==> (p.mic.len() >= 800 && p.system.len() >= 800) || p.mic.len() >= 1_600
            || p.system.len() >= 1_600,
{
}

/// A chunk of a lane has 50 ms: the oldest audio of the lane in order, and silence
/// only after it.
pub proof fn chunks_are_the_oldest_audio<T>(lane: Seq<T>, silence: T, i: int)
    requires
        0 <= i < 800,
    ensures
        pipeline::padded(lane, silence).len() == 800,
        i < lane.len() ==> pipeline::padded(lane, silence)[i] == lane[i],
        i >= lane.len() ==> pipeline::padded(lane, silence)[i] == silence,
        pipeline::rest(lane).len() == if lane.len() > 800 {
            lane.len() - 800
        } else {
            0
        },
{
}

/// The first audio of either lane sets the time of the first chunk, and each chunk
/// begins 50 ms after the one before.
pub proof fn the_first_audio_sets_the_clock<T>(
    p: PipelineModel<T>,
    source: AudioSource,
    t_ms: u64,
    samples: Seq<T>,
)
    ensures
        p.start is None ==> p.pushed(source, t_ms, samples).start == Some(t_ms),
        p.start is Some ==> p.pushed(source, t_ms, samples).start == p.start,
        p.start matches Some(t) ==> p.next_t_ms() == t + 50 * p.seq,
        p.taken().start == p.start,
{
}

/// Fifteen seconds wait for a device of a known rate, and the player is active as
/// long as anything waits and for half a second after.
pub proof fn waiting_speech_is_active<T>(p: PlayerModel<T>, now_ms: u64)
    ensures
        p.device_rate > 0 ==> playback::queue_cap(p.device_rate) == 15 * p.device_rate,
        p.queue.len() > 0 ==> p.active(now_ms),
        p.queue.len() == 0 && p.last_active is None ==> !p.active(now_ms),
        p.queue.len() == 0 && p.last_active is Some ==> (p.active(now_ms) <==> now_ms
            < p.last_active->0 + 500),
{
}

// ---------------------------------------------------------------------------
// Devices
// ---------------------------------------------------------------------------

proof fn first_is_found(
    names: Seq<Option<String>>,
    from: int,
    wanted: spec_fn(Seq<char>) -> bool,
    i: int,
)
    requires
        0 <= from <= i < names.len(),
        names[i] is Some,
        wanted(names[i]->0@),
    ensures
        capture::first_device(names, from, wanted) matches Some(j) && from <= j <= i && names[j]
            is Some && wanted(names[j]->0@),
    decreases i - from,
{
    if !(names[from] is Some && wanted(names[from]->0@)) {
        first_is_found(names, from + 1, wanted, i);
    }
}

proof fn found_is_wanted(
    names: Seq<Option<String>>,
    from: int,
    wanted: spec_fn(Seq<char>) -> bool,
)
    requires
        0 <= from,
        capture::first_device(names, from, wanted) is Some,
    ensures
        ({
            let j = capture::first_device(names, from, wanted)->0;
            from <= j < names.len() && names[j] is Some && wanted(names[j]->0@)
        }),
    decreases names.len() - from,
{
    if from < names.len() && !(names[from] is Some && wanted(names[from]->0@)) {
        found_is_wanted(names, from + 1, wanted);
    }
}

/// A device of the chosen name is found wherever it stands in the list, and of
/// several the first; what is found has the name.
pub proof fn named_devices_are_found(names: Seq<Option<String>>, name: Seq<char>, i: int)
    ensures
        0 <= i < names.len() && names[i] is Some && names[i]->0@ == name
            ==> capture::named_device(names, name) is Some && capture::named_device(names, name)->0
            <= i,
        capture::named_device(names, name) matches Some(j) ==> 0 <= j < names.len() && names[j]
            is Some && names[j]->0@ == name,
{
    let wanted = capture::called(name);
    if 0 <= i < names.len() && names[i] is Some && names[i]->0@ == name {
        first_is_found(names, 0, wanted, i);
    }
    if capture::named_device(names, name) is Some {
        found_is_wanted(names, 0, wanted);
    }
}

/// A name that holds the name of a loopback driver is taken for one, and only such
/// a name is.
pub proof fn loopback_drivers_are_recognized(before: Seq<char>, after: Seq<char>)
    ensures
        capture::names_loopback(before + "blackhole"@ + after),
        capture::names_loopback(before + "loopback"@ + after),
        capture::names_loopback(before + "soundflower"@ + after),
        capture::names_loopback(before) ==> text::occurs(before, "blackhole"@) || text::occurs(
            before,
            "loopback"@,
        ) || text::occurs(before, "soundflower"@),
{
    middle_occurs(before, "blackhole"@, after);
    middle_occurs(before, "loopback"@, after);
    middle_occurs(before, "soundflower"@, after);
}

proof fn middle_occurs(before: Seq<char>, part: Seq<char>, after: Seq<char>)
    ensures
        text::occurs(before + part + after, part),
{
    let s = before + part + after;
    let from = before.len() as int;
    assert(s.subrange(from, from + part.len()) =~= part);
    assert(text::occurs_at(s, part, from));
}

// ---------------------------------------------------------------------------
// Versions
// ---------------------------------------------------------------------------

proof fn decimal_is_read(n: nat)
    ensures
        capture::digits_value(text::decimal(n)) == Some(n as int),
        text::decimal(n).len() > 0,
        '0' <= text::decimal(n)[0] <= '9',
        forall|i: int| 0 <= i < text::decimal(n).len() ==> '0' <= #[trigger] text::decimal(n)[i] <= '9',
    decreases n,
{
    let d = text::decimal(n);
    if n >= 10 {
        decimal_is_read(n / 10);
        assert(d.drop_last() =~= text::decimal(n / 10));
        assert(d.last() == text::digit((n % 10) as int));
        assert forall|i: int| 0 <= i < d.len() implies '0' <= #[trigger] d[i] <= '9' by {
            if i < d.len() - 1 {
                assert(d[i] == text::decimal(n / 10)[i]);
            }
        }
    } else {
        assert(d.drop_last() =~= Seq::empty());
        assert(capture::digits_value(d.drop_last()) == Some(0int));
        assert(d.last() == text::digit(n as int));
    }
}

/// The version that a system tells of itself is read back, whatever follows the
/// second number.
pub proof fn versions_are_read_back(major: u32, minor: u32, rest: Seq<char>)
    requires
        rest.len() == 0 || (rest[0] == '.' && !text::is_white_space(rest.last())),
    ensures
        capture::version_of(text::decimal(major as nat) + "."@ + text::decimal(minor as nat) + rest)
            == Some((major, minor)),
{
    reveal_strlit(".");
    let a = text::decimal(major as nat);
    let b = text::decimal(minor as nat);
    let s = a + "."@ + b + rest;
    decimal_is_read(major as nat);
    decimal_is_read(minor as nat);
    assert(s[0] == a[0]);
    assert(!text::is_white_space(s[0]));
    assert(!text::is_white_space(s.last())) by {
        if rest.len() == 0 {
            assert(s.last() == b[b.len() - 1]);
        } else {
            assert(s.last() == rest.last());
        }
    }
    text_laws::trimmed_fixed(s);
    let dot = a.len() as int;
    assert forall|k: int| 0 <= k < dot implies s[k] != '.' by {
        assert(s[k] == a[k]);
    }
    assert(s[dot] == '.');
    text::lemma_position_is(s, '.', dot);
    assert(s.take(dot) =~= a);
    assert(capture::number_of(a) == Some(major));
    let tail = s.skip(dot + 1);
    assert(tail =~= b + rest);
    let end = b.len() as int;
    assert forall|k: int| 0 <= k < end implies tail[k] != '.' by {
        assert(tail[k] == b[k]);
    }
    if rest.len() > 0 {
        assert(tail[end] == '.');
    }
    text::lemma_position_is(tail, '.', end);
    assert(tail.take(end) =~= b);
    assert(capture::number_of(b) == Some(minor));
}

// ---------------------------------------------------------------------------
// Ways of capturing
// ---------------------------------------------------------------------------

/// A tap is tried first where it is wanted, on the application where one is
/// chosen; after any tap comes the screen capture, and after that the loopback
/// device.
pub proof fn ways_are_tried_in_turn(want_app: bool)
    ensures
        capture::first_way(want_app, true) == if want_app {
            CaptureWay::AppTap
        } else {
            CaptureWay::Tap
        },
        capture::first_way(want_app, false) == CaptureWay::ScreenCapture,
        capture::way_after(capture::first_way(want_app, true)) == CaptureWay::ScreenCapture,
        capture::way_after(CaptureWay::ScreenCapture) == CaptureWay::Loopback,
        capture::isolates(capture::first_way(want_app, true), want_app) == want_app,
        capture::isolates(CaptureWay::ScreenCapture, want_app) == want_app,
        !capture::isolates(CaptureWay::Loopback, want_app),
{
}

/// When nothing works every failure is told.
pub proof fn every_failure_is_told(attempts: Seq<Seq<char>>, i: int)
    requires
        0 <= i < attempts.len(),
    ensures
        text::occurs(capture::no_capture_text(attempts), attempts[i]),
{
    let all = text::joined(attempts, "\n"@);
    text_laws::joined_parts_are_kept(attempts, "\n"@, i);
    let k = choose|k: int| text::occurs_at(all, attempts[i], k);
    let t = capture::no_capture_text(attempts);
    let at = capture::NO_CAPTURE_HEAD@.len() + k;
    assert(t.subrange(at, at + attempts[i].len()) =~= all.subrange(k, k + attempts[i].len()));
    assert(text::occurs_at(t, attempts[i], at));
}

/// A failed way is noted with what went wrong.
pub proof fn failures_are_noted(way: CaptureWay, failure: Seq<char>)
    ensures
        text::ends(capture::attempt_text(way, failure), failure),
        way != CaptureWay::Loopback ==> capture::attempt_text(way, failure).len() > failure.len(),
{
    reveal_strlit("Core Audio tap (per-app): ");
    reveal_strlit("Core Audio tap: ");
    reveal_strlit("ScreenCaptureKit: ");
    let t = capture::attempt_text(way, failure);
    assert(t.subrange(t.len() - failure.len(), t.len() as int) =~= failure);
}

/// The parts of a tap are made in the order in which they need each other, and
/// each once.
pub proof fn taps_are_built_in_order()
    ensures
        tap::parts().no_duplicates(),
        tap::parts().len() == 5,
        tap::parts()[0] == TapPart::Tap,
        tap::parts()[1] == TapPart::Aggregate,
        tap::parts()[2] == TapPart::Context,
        tap::parts()[3] == TapPart::Callback,
        tap::parts()[4] == TapPart::Running,
{
}

/// A part that cannot be made is told with the status of the system.
pub proof fn tap_failures_tell_the_status(part: TapPart, status: i32)
    ensures
        text::occurs(tap::failed_text(part, status), tap::status_text(status)),
        status >= 0 ==> tap::status_text(status) == text::decimal(status as nat),
        status < 0 ==> tap::status_text(status) == "-"@ + text::decimal((-status) as nat),
{
    let end = if part == TapPart::Tap {
        " (Screen Recording / audio capture permission may be required)"@
    } else {
        ""@
    };
    middle_occurs(tap::maker(part) + " failed: OSStatus "@, tap::status_text(status), end);
}

// ---------------------------------------------------------------------------
// Applications
// ---------------------------------------------------------------------------

/// Every session whose process has a name is offered, except the sounds of the
/// system itself, and with the process that was found first.
pub proof fn every_application_is_offered(sessions: Seq<AudioSession>, k: int, i: int) -> (p: int)
    requires
        0 <= i < k <= sessions.len(),
        sessions[i].pid != 0,
        sessions[i].name is Some,
    ensures
        0 <= p < app_capture::apps_of(sessions, k).len(),
        text::ascii_lowered(app_capture::apps_of(sessions, k)[p].name) == text::ascii_lowered(
            sessions[i].name->0@,
        ),
        (forall|j: int|
            0 <= j < i && (#[trigger] sessions[j]).name is Some && sessions[j].pid != 0
                ==> text::ascii_lowered(sessions[j].name->0@) != text::ascii_lowered(
                sessions[i].name->0@,
            )) ==> app_capture::apps_of(sessions, k)[p] == (AppModel {
            pid: sessions[i].pid,
            name: sessions[i].name->0@,
        }),
    decreases k,
{
    let rest = app_capture::apps_of(sessions, k - 1);
    let name = sessions[i].name->0@;
    if i < k - 1 {
        every_application_is_offered(sessions, k - 1, i)
    } else if app_capture::is_listed(rest, name) {
        let p = choose|p: int|
            0 <= p < rest.len() && text::ascii_lowered((#[trigger] rest[p]).name)
                == text::ascii_lowered(name);
        let j = offered_is_a_session(sessions, k - 1, p);
        assert(sessions[j].name is Some);
        p
    } else {
        rest.len() as int
    }
}

/// What is offered is a session of a process of its own.
pub proof fn offered_is_a_session(sessions: Seq<AudioSession>, k: int, p: int) -> (j: int)
    requires
        0 <= k <= sessions.len(),
        0 <= p < app_capture::apps_of(sessions, k).len(),
    ensures
        0 <= j < k,
        sessions[j].pid != 0,
        sessions[j].name is Some,
        app_capture::apps_of(sessions, k)[p] == (AppModel {
            pid: sessions[j].pid,
            name: sessions[j].name->0@,
        }),
    decreases k,
{
    let rest = app_capture::apps_of(sessions, k - 1);
    if p < rest.len() {
        offered_is_a_session(sessions, k - 1, p)
    } else {
        k - 1
    }
}

/// Sorting the applications loses none of them.
pub proof fn sorted_applications_are_all(out: Seq<AppModel>, apps: Seq<AppModel>, i: int) -> (p: int)
    requires
        app_capture::is_sorted_by_name(out, apps),
        0 <= i < apps.len(),
    ensures
        out.len() == apps.len(),
        0 <= p < out.len(),
        out[p] == apps[i],
{
    let keys = choose|keys: Seq<String>| #[trigger]
        app_capture::are_name_keys(keys, apps) && app_capture::is_sorted_by(out, apps, keys);
    let places = choose|places: Seq<usize>|
        {
            &&& #[trigger] order::is_stable_order(keys, places)
            &&& out == Seq::new(apps.len(), |i: int| apps[places[i] as int])
        };
    order::sorting_loses_nothing(keys, places, i)
}

/// The name of a program is what follows the last separator of its path, of
/// either kind.
pub proof fn programs_are_named_by_their_file(folder: Seq<char>, name: Seq<char>)
    requires
        !name.contains('/'),
        !name.contains('\\'),
    ensures
        ({
            let path = folder.push('/') + name;
            path.skip(app_capture::file_start(path) as int) == name
        }),
        ({
            let path = folder.push('\\') + name;
            path.skip(app_capture::file_start(path) as int) == name
        }),
        name.skip(app_capture::file_start(name) as int) == name,
{
    file_starts_at(folder.push('/'), name);
    file_starts_at(folder.push('\\'), name);
    let none = Seq::<char>::empty();
    file_starts_at(none, name);
    assert(none + name =~= name);
    assert((folder.push('/') + name).skip(folder.len() as int + 1) =~= name);
    assert((folder.push('\\') + name).skip(folder.len() as int + 1) =~= name);
    assert(name.skip(0) =~= name);
}

proof fn file_starts_at(folder: Seq<char>, name: Seq<char>)
    requires
        folder.len() == 0 || folder.last() == '/' || folder.last() == '\\',
        !name.contains('/'),
        !name.contains('\\'),
    ensures
        app_capture::file_start(folder + name) == folder.len(),
    decreases name.len(),
{
    let path = folder + name;
    if name.len() == 0 {
        assert(path =~= folder);
    } else {
        assert(path.last() == name.last());
        assert(name.contains(name.last()));
        let less = name.drop_last();
        assert forall|c: char| !name.contains(c) implies !#[trigger] less.contains(c) by {
            if less.contains(c) {
                let i = choose|i: int| 0 <= i < less.len() && less[i] == c;
                assert(name[i] == c);
            }
        }
        file_starts_at(folder, less);
        assert(path.drop_last() =~= folder + less);
    }
}

// ---------------------------------------------------------------------------
// Frames
// ---------------------------------------------------------------------------

/// The four bytes of a sample, the lowest first, are read back as the sample.
pub proof fn words_are_read_back(w: u32, before: Seq<u8>, after: Seq<u8>)
    ensures
        frames::word_at(
            before + seq![
                (w % 256) as u8,
                (w / 256 % 256) as u8,
                (w / 0x1_0000 % 256) as u8,
                (w / 0x100_0000) as u8,
            ] + after,
            before.len() as int,
        ) == w,
{
    let four = seq![
        (w % 256) as u8,
        (w / 256 % 256) as u8,
        (w / 0x1_0000 % 256) as u8,
        (w / 0x100_0000) as u8,
    ];
    let all = before + four + after;
    let at = before.len() as int;
    assert(all[at] == four[0]);
    assert(all[at + 1] == four[1]);
    assert(all[at + 2] == four[2]);
    assert(all[at + 3] == four[3]);
}

/// The moments of separate channels end with the shortest of them, and each holds
/// the sample of every channel in order.
pub proof fn moments_take_every_channel<T>(lists: Seq<Seq<T>>, f: int, c: int)
    requires
        0 <= c < lists.len(),
    ensures
        frames::planar(lists).len() <= lists[c].len(),
        exists|k: int| 0 <= k < lists.len() && (#[trigger] lists[k]).len() == frames::planar(lists).len(),
        0 <= f < frames::planar(lists).len() ==> frames::planar(lists)[f].len() == lists.len()
            && frames::planar(lists)[f][c] == lists[c][f],
{
    shortest_is_met(lists, c);
}

proof fn shortest_is_met<T>(lists: Seq<Seq<T>>, c: int)
    requires
        0 <= c < lists.len(),
    ensures
        frames::shortest(lists) <= lists[c].len(),
        exists|k: int| 0 <= k < lists.len() && (#[trigger] lists[k]).len() == frames::shortest(lists),
    decreases lists.len(),
{
    if lists.len() == 1 {
        assert(lists[0].len() == frames::shortest(lists));
    } else {
        let rest = lists.drop_last();
        if c < rest.len() {
            shortest_is_met(rest, c);
        } else {
            shortest_is_met(rest, 0);
        }
        let k = choose|k: int| 0 <= k < rest.len() && (#[trigger] rest[k]).len() == frames::shortest(rest);
        assert(lists[k].len() == frames::shortest(rest));
        assert(lists[lists.len() - 1].len() == lists.last().len());
    }
}

/// A buffer without samples or channels carries no audio; any other one is kept, in
/// order, up to its last whole moment.
pub proof fn empty_buffers_carry_nothing<T>(buffers: Seq<TapBuffer<T>>, b: TapBuffer<T>)
    ensures
        b.samples is None || b.channels == 0 ==> frames::usable(buffers.push(b)) == frames::usable(
            buffers,
        ),
        b.samples is Some && b.channels > 0 ==> frames::usable(buffers.push(b)).len()
            == frames::usable(buffers).len() + 1 && frames::usable(buffers.push(b)).drop_last()
            == frames::usable(buffers),
        b.samples is Some && b.channels == 1 ==> frames::usable(buffers.push(b)).last()
            == b.samples->0@,
{
    let all = buffers.push(b);
    assert(all.drop_last() =~= buffers);
    if b.samples is Some && b.channels > 0 {
        assert(frames::usable(all).drop_last() =~= frames::usable(buffers));
        if b.channels == 1 {
            let v = b.samples->0@;
            let n = v.len() as int;
            assert((n / 1) * 1 == n) by (nonlinear_arith);
            assert(v.take(v.len() as int) =~= v);
        }
    }
}

/// The channels of one buffer are apart in time and those of several buffers apart
/// in place.
pub proof fn buffers_are_read_by_their_number<T>(buffers: Seq<TapBuffer<T>>)
    requires
        frames::usable(buffers).len() > 0,
    ensures
        buffers.len() == 1 ==> frames::tapped(buffers) == Some(
            frames::interleaved(frames::usable(buffers)[0], buffers[0].channels as nat),
        ),
        buffers.len() > 1 ==> frames::tapped(buffers) == Some(
            frames::planar(frames::usable(buffers)),
        ),
{
}

/// A window of a voice profile counts as soon as half of its 25 ms are there.
pub proof fn half_windows_count(len: nat, t: nat)
    ensures
        t < fbank::profile_count(len) <==> 400 * t + 200 <= len,
        t < fbank::profile_count(len) ==> 400 * t < fbank::profile_end(len, 400 * t) <= len,
{
}

} // verus!
