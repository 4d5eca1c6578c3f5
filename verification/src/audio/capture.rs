//! Which device to capture, and in which order to try the ways of capturing
//! system audio.
//!
//! On macOS native paths are tried before a loopback input device (BlackHole
//! or similar): a Core Audio process tap (from version 14.4 on), then
//! ScreenCaptureKit. Elsewhere the output device itself is looped back.
use vstd::prelude::*;
use crate::audio::app_capture;
use crate::audio::app_capture::to_lower;
use crate::error::SallyError;
use crate::text;
use crate::text::{contains_text, find_char, same_text, to_chars, trim};

verus! {

// ---------------------------------------------------------------------------
// Devices
// ---------------------------------------------------------------------------

/// Which device to open.
#[derive(Debug, Clone, Copy, PartialEq, Eq, Structural)]
pub enum DevicePick {
    /// The one at this place in the list.
    At(usize),
    /// The system's default.
    Default,
    /// None.
    Nothing,
}

/// Place of the first device of which `wanted` holds, among the devices from
/// `from` on; a device whose name cannot be had is passed over.
pub open spec fn first_device(
    names: Seq<Option<String>>,
    from: int,
    wanted: spec_fn(Seq<char>) -> bool,
) -> Option<int>
    decreases names.len() - from,
{
    if from < 0 || from >= names.len() {
        None
    } else if names[from] matches Some(n) && wanted(n@) {
        Some(from)
    } else {
        first_device(names, from + 1, wanted)
    }
}

/// Being called `name`.
pub open spec fn called(name: Seq<char>) -> spec_fn(Seq<char>) -> bool {
    |n: Seq<char>| n == name
}

/// The device with that name.
pub open spec fn named_device(names: Seq<Option<String>>, name: Seq<char>) -> Option<int> {
    first_device(names, 0, called(name))
}

/// A name in lower case is that of a loopback driver.
pub open spec fn names_loopback(lower: Seq<char>) -> bool {
    text::occurs(lower, "blackhole"@) || text::occurs(lower, "loopback"@) || text::occurs(
        lower,
        "soundflower"@,
    )
}

/// The name suggests a loopback driver.
pub open spec fn sounds_like_loopback(name: Seq<char>) -> bool {
    names_loopback(app_capture::lowercase(name))
}

/// Whether a name in lower case is that of a loopback driver.
pub fn is_loopback_name(lower: &str) -> (r: bool)
    ensures
        r == names_loopback(lower@),
{
    contains_text(lower, "blackhole") || contains_text(lower, "loopback") || contains_text(
        lower,
        "soundflower",
    )
}

/// The place in a list as a pick.
pub open spec fn pick_of(place: Option<int>, otherwise: DevicePick) -> DevicePick {
    match place {
        Some(i) => DevicePick::At(i as usize),
        None => otherwise,
    }
}

fn find_by_name(names: &Vec<Option<String>>, name: &str) -> (r: Option<usize>)
    ensures
        match r {
            Some(i) => named_device(names@, name@) == Some(i as int),
            None => named_device(names@, name@) is None,
        },
{
    let ghost wanted = called(name@);
    let mut i: usize = 0;
    while i < names.len()
        invariant
            i <= names@.len(),
            wanted == called(name@),
            named_device(names@, name@) == first_device(names@, i as int, wanted),
        decreases names@.len() - i,
    {
        match &names[i] {
            Some(n) => {
                if same_text(n.as_str(), name) {
                    return Some(i);
                }
            },
            None => {},
        }
        i += 1;
    }
    None
}

/// The device to open for a name from the settings: the default where none is
/// chosen, and where the chosen one is gone. There is none where a device is
/// chosen and the devices cannot be listed.
pub fn find_device(names: Option<&Vec<Option<String>>>, name: &str) -> (r: DevicePick)
    ensures
        r == if name@.len() == 0 {
            DevicePick::Default
        } else {
            match names {
                Some(list) => pick_of(named_device(list@, name@), DevicePick::Default),
                None => DevicePick::Nothing,
            }
        },
{
    if name.is_empty() {
        return DevicePick::Default;
    }
    match names {
        Some(list) => match find_by_name(list, name) {
            Some(i) => DevicePick::At(i),
            None => DevicePick::Default,
        },
        None => DevicePick::Nothing,
    }
}

/// A loopback input device: the chosen one, or any whose name suggests a
/// loopback driver when none is chosen. Never the default input: that is the
/// microphone, and capturing it twice would put the user's voice into the
/// meeting lane.
pub fn find_loopback_device(names: Option<&Vec<Option<String>>>, name: &str) -> (r: DevicePick)
    ensures
        r == match names {
            Some(list) => pick_of(
                if name@.len() > 0 {
                    named_device(list@, name@)
                } else {
                    first_device(list@, 0, |n: Seq<char>| sounds_like_loopback(n))
                },
                DevicePick::Nothing,
            ),
            None => DevicePick::Nothing,
        },
        r != DevicePick::Default,
{
    let list = match names {
        Some(list) => list,
        None => {
            return DevicePick::Nothing;
        },
    };
    if !name.is_empty() {
        return match find_by_name(list, name) {
            Some(i) => DevicePick::At(i),
            None => DevicePick::Nothing,
        };
    }
    let ghost wanted = |n: Seq<char>| sounds_like_loopback(n);
    let mut i: usize = 0;
    while i < list.len()
        invariant
            i <= list@.len(),
            names == Some(list),
            name@.len() == 0,
            wanted == |n: Seq<char>| sounds_like_loopback(n),
            first_device(list@, 0, wanted) == first_device(list@, i as int, wanted),
        decreases list@.len() - i,
    {
        match &list[i] {
            Some(n) => {
                if is_loopback_name(to_lower(n.as_str()).as_str()) {
                    return DevicePick::At(i);
                }
            },
            None => {},
        }
        i += 1;
    }
    DevicePick::Nothing
}

// ---------------------------------------------------------------------------
// The version of macOS
// ---------------------------------------------------------------------------

/// The value of a digit.
pub open spec fn digit_value(c: char) -> Option<int> {
    if '0' <= c && c <= '9' {
        Some(c as u32 - '0' as u32)
    } else {
        None
    }
}

/// The value of a run of digits; none where something else stands among them.
pub open spec fn digits_value(s: Seq<char>) -> Option<int>
    decreases s.len(),
{
    if s.len() == 0 {
        Some(0)
    } else {
        match (digits_value(s.drop_last()), digit_value(s.last())) {
            (Some(n), Some(d)) => Some(10 * n + d),
            _ => None,
        }
    }
}

/// The number that a text spells: digits, possibly behind a plus sign, within
/// 32 bits.
pub open spec fn number_of(s: Seq<char>) -> Option<u32> {
    let digits = if s.len() > 0 && s[0] == '+' {
        s.skip(1)
    } else {
        s
    };
    match digits_value(digits) {
        Some(n) => if digits.len() > 0 && n <= u32::MAX {
            Some(n as u32)
        } else {
            None
        },
        None => None,
    }
}

proof fn lemma_digits_grow(s: Seq<char>, k: int)
    requires
        0 <= k <= s.len(),
    ensures
        digits_value(s) matches Some(n) ==> n >= 0 && (digits_value(s.take(k)) matches Some(m) && m
            <= n),
        digits_value(s.take(k)) is None ==> digits_value(s) is None,
    decreases s.len() - k,
{
    if k < s.len() {
        lemma_digits_grow(s, k + 1);
        assert(s.take(k + 1).drop_last() =~= s.take(k));
        lemma_digits_positive(s.take(k));
    } else {
        assert(s.take(k) =~= s);
        lemma_digits_positive(s);
    }
}

proof fn lemma_digits_positive(s: Seq<char>)
    ensures
        digits_value(s) matches Some(n) ==> n >= 0,
    decreases s.len(),
{
    if s.len() > 0 {
        lemma_digits_positive(s.drop_last());
    }
}

/// The number in `cs[from..to]`.
fn parse_number(cs: &Vec<char>, from: usize, to: usize) -> (r: Option<u32>)
    requires
        from <= to <= cs.len(),
    ensures
        r == number_of(cs@.subrange(from as int, to as int)),
{
    let ghost s = cs@.subrange(from as int, to as int);
    let mut start: usize = from;
    if from < to && cs[from] == '+' {
        start = from + 1;
    }
    let ghost digits = cs@.subrange(start as int, to as int);
    assert(start > from ==> digits =~= s.skip(1));
    if start == to {
        return None;
    }
    let mut n: u64 = 0;
    let mut i: usize = start;
    assert(digits.take(0) =~= Seq::empty());
    while i < to
        invariant
            start <= i <= to <= cs.len(),
            digits == cs@.subrange(start as int, to as int),
            digits_value(digits.take(i - start)) == Some(n as int),
            n <= u32::MAX,
            digits == if s.len() > 0 && s[0] == '+' {
                s.skip(1)
            } else {
                s
            },
            start < to,
            s == cs@.subrange(from as int, to as int),
        decreases to - i,
    {
        let c = cs[i];
        assert(digits.take(i - start + 1).drop_last() =~= digits.take(i - start));
        assert(digits[i - start] == c);
        assert(digits.take(i - start + 1).last() == c);
        proof {
            lemma_digits_grow(digits, i - start + 1);
        }
        if !('0' <= c && c <= '9') {
            assert(digits_value(digits.take(i - start + 1)) is None);
            return None;
        }
        n = 10 * n + (c as u32 - '0' as u32) as u64;
        assert(digits_value(digits.take(i - start + 1)) == Some(n as int));
        if n > u32::MAX as u64 {
            return None;
        }
        i += 1;
    }
    assert(digits.take(i - start) =~= digits);
    Some(n as u32)
}

/// The version that a text of the form "major.minor..." tells. A missing or
/// unreadable second number counts as 0.
pub open spec fn version_of(s: Seq<char>) -> Option<(u32, u32)> {
    let t = text::trimmed(s);
    let dot = text::position(t, '.') as int;
    let rest = t.skip(dot + 1);
    match number_of(t.take(dot)) {
        Some(major) => Some(
            (
                major,
                if dot >= t.len() {
                    0
                } else {
                    match number_of(rest.take(text::position(rest, '.') as int)) {
                        Some(minor) => minor,
                        None => 0,
                    }
                },
            ),
        ),
        None => None,
    }
}

/// The major and minor version in what the system says of itself.
pub fn macos_version(product_version: &str) -> (r: Option<(u32, u32)>)
    ensures
        r == version_of(product_version@),
{
    let t = trim(product_version);
    let cs = to_chars(t.as_str());
    assert(cs@.skip(0) =~= cs@);
    let dot = find_char(&cs, 0, '.');
    assert(cs@.subrange(0, dot as int) =~= cs@.take(dot as int));
    let major = match parse_number(&cs, 0, dot) {
        Some(n) => n,
        None => {
            return None;
        },
    };
    if dot >= cs.len() {
        return Some((major, 0));
    }
    let end = find_char(&cs, dot + 1, '.');
    let ghost rest = cs@.skip(dot + 1);
    assert(cs@.subrange(dot + 1, end as int) =~= rest.take(end - dot - 1));
    let minor: u32 = match parse_number(&cs, dot + 1, end) {
        Some(n) => n,
        None => 0,
    };
    Some((major, minor))
}

/// The process tap is to be tried: it is asked for, or it is not ruled out and
/// the system is new enough (14.4) to have it.
pub fn wants_tap(method: &str, version: Option<(u32, u32)>) -> (r: bool)
    ensures
        r == if method@ == "tap"@ {
            true
        } else if method@ == "screencapturekit"@ {
            false
        } else {
            version matches Some(v) && (v.0 > 14 || (v.0 == 14 && v.1 >= 4))
        },
{
    if same_text(method, "tap") {
        return true;
    }
    if same_text(method, "screencapturekit") {
        return false;
    }
    match version {
        Some((major, minor)) => major > 14 || (major == 14 && minor >= 4),
        None => false,
    }
}

// ---------------------------------------------------------------------------
// Ways of capturing system audio
// ---------------------------------------------------------------------------

/// A way of capturing system audio on macOS.
#[derive(Debug, Clone, Copy, PartialEq, Eq, Structural)]
pub enum CaptureWay {
    /// A process tap on one application, found by its name.
    AppTap,
    /// A process tap on everything.
    Tap,
    /// ScreenCaptureKit, of one application where one is chosen.
    ScreenCapture,
    /// A loopback input device.
    Loopback,
}

/// How a way turned out.
#[derive(Debug)]
pub enum CaptureOutcome {
    Started,
    /// The application is not to be found this way.
    AppNotFound,
    Failed(String),
}

/// The ways in turn, and what went wrong with those that were tried.
pub struct CapturePlan {
    pub want_app: bool,
    pub way: CaptureWay,
    pub attempts: Vec<String>,
}

/// What comes of an outcome.
pub enum CaptureStep {
    /// Capture runs; whether one application's audio was isolated.
    Running { app_isolated: bool },
    /// Try the plan's next way.
    Next,
    /// No way is left.
    GiveUp(SallyError),
}

/// The way that is tried first.
pub open spec fn first_way(want_app: bool, want_tap: bool) -> CaptureWay {
    if !want_tap {
        CaptureWay::ScreenCapture
    } else if want_app {
        CaptureWay::AppTap
    } else {
        CaptureWay::Tap
    }
}

/// The way that is tried after one that did not work.
pub open spec fn way_after(way: CaptureWay) -> CaptureWay {
    match way {
        CaptureWay::AppTap => CaptureWay::ScreenCapture,
        CaptureWay::Tap => CaptureWay::ScreenCapture,
        CaptureWay::ScreenCapture => CaptureWay::Loopback,
        CaptureWay::Loopback => CaptureWay::Loopback,
    }
}

/// How a failed way is noted.
pub open spec fn attempt_text(way: CaptureWay, failure: Seq<char>) -> Seq<char> {
    (match way {
        CaptureWay::AppTap => "Core Audio tap (per-app): "@,
        CaptureWay::Tap => "Core Audio tap: "@,
        CaptureWay::ScreenCapture => "ScreenCaptureKit: "@,
        CaptureWay::Loopback => ""@,
    }) + failure
}

/// With a running way one application's audio was isolated.
pub open spec fn isolates(way: CaptureWay, want_app: bool) -> bool {
    match way {
        CaptureWay::AppTap => true,
        CaptureWay::Tap => false,
        CaptureWay::ScreenCapture => want_app,
        CaptureWay::Loopback => false,
    }
}

pub const NO_CAPTURE_HEAD: &'static str =
    "no native system-audio capture worked, and no loopback input device is selected either:\n";

pub const NO_CAPTURE_TAIL: &'static str =
    "\nInstall a loopback driver such as BlackHole, route meeting audio to it (Multi-Output Device), and select it as the system audio device in Settings — or grant the permission the errors above are asking for and restart the meeting.";

/// What is told when no way is left and there is no loopback device either.
pub open spec fn no_capture_text(attempts: Seq<Seq<char>>) -> Seq<char> {
    NO_CAPTURE_HEAD@ + text::joined(attempts, "\n"@) + NO_CAPTURE_TAIL@
}

impl CapturePlan {
    /// The plan for an application, or for everything where none is named.
    pub fn new(capture_app: &str, want_tap: bool) -> (p: Self)
        ensures
            p.want_app == (capture_app@.len() > 0),
            p.way == first_way(p.want_app, want_tap),
            p.attempts@.len() == 0,
    {
        let want_app = !capture_app.is_empty();
        let way = if !want_tap {
            CaptureWay::ScreenCapture
        } else if want_app {
            CaptureWay::AppTap
        } else {
            CaptureWay::Tap
        };
        CapturePlan { want_app, way, attempts: Vec::new() }
    }

    /// Takes in how the current way turned out.
    pub fn step(&mut self, outcome: CaptureOutcome) -> (r: CaptureStep)
        ensures
            final(self).want_app == old(self).want_app,
            match outcome {
                CaptureOutcome::Started => {
                    &&& r == (CaptureStep::Running {
                        app_isolated: isolates(old(self).way, old(self).want_app),
                    })
                    &&& *final(self) == *old(self)
                },
                CaptureOutcome::AppNotFound => {
                    &&& r == CaptureStep::Next
                    &&& final(self).way == way_after(old(self).way)
                    &&& final(self).attempts@ == old(self).attempts@
                },
                CaptureOutcome::Failed(e) => if old(self).way == CaptureWay::Loopback {
                    &&& r matches CaptureStep::GiveUp(error)
                    &&& error@ == crate::error::ErrorModel::Audio(e@)
                    &&& *final(self) == *old(self)
                } else {
                    &&& r == CaptureStep::Next
                    &&& final(self).way == way_after(old(self).way)
                    &&& text::texts(final(self).attempts@) == text::texts(
                        old(self).attempts@,
                    ).push(attempt_text(old(self).way, e@))
                },
            },
    {
        match outcome {
            CaptureOutcome::Started => {
                let app_isolated = match self.way {
                    CaptureWay::AppTap => true,
                    CaptureWay::Tap => false,
                    CaptureWay::ScreenCapture => self.want_app,
                    CaptureWay::Loopback => false,
                };
                CaptureStep::Running { app_isolated }
            },
            CaptureOutcome::AppNotFound => {
                self.advance();
                CaptureStep::Next
            },
            CaptureOutcome::Failed(e) => {
                let mut note = match self.way {
                    CaptureWay::AppTap => text::owned("Core Audio tap (per-app): "),
                    CaptureWay::Tap => text::owned("Core Audio tap: "),
                    CaptureWay::ScreenCapture => text::owned("ScreenCaptureKit: "),
                    CaptureWay::Loopback => {
                        return CaptureStep::GiveUp(SallyError::Audio(e));
                    },
                };
                note.push_str(e.as_str());
                proof {
                    text::lemma_texts_push(self.attempts@, note);
                }
                self.attempts.push(note);
                self.advance();
                CaptureStep::Next
            },
        }
    }

    fn advance(&mut self)
        ensures
            final(self).way == way_after(old(self).way),
            final(self).want_app == old(self).want_app,
            final(self).attempts == old(self).attempts,
    {
        self.way = match self.way {
            CaptureWay::AppTap => CaptureWay::ScreenCapture,
            CaptureWay::Tap => CaptureWay::ScreenCapture,
            CaptureWay::ScreenCapture => CaptureWay::Loopback,
            CaptureWay::Loopback => CaptureWay::Loopback,
        };
    }

    /// What is told when there is no loopback device to fall back to.
    pub fn no_device_error(&self) -> (e: SallyError)
        ensures
            e@ == crate::error::ErrorModel::Audio(no_capture_text(text::texts(self.attempts@))),
    {
        let mut m = text::owned(NO_CAPTURE_HEAD);
        m.push_str(text::join(&self.attempts, "\n").as_str());
        m.push_str(NO_CAPTURE_TAIL);
        SallyError::Audio(m)
    }
}

/// Ways that are left after this one.
pub open spec fn ways_left(way: CaptureWay) -> nat {
    match way {
        CaptureWay::AppTap => 2,
        CaptureWay::Tap => 2,
        CaptureWay::ScreenCapture => 1,
        CaptureWay::Loopback => 0,
    }
}

/// Every plan comes to an end: each way that does not work leaves fewer, and
/// the last is the loopback device.
pub proof fn plans_end(way: CaptureWay)
    ensures
        way != CaptureWay::Loopback ==> ways_left(way_after(way)) < ways_left(way),
        way == CaptureWay::Loopback <==> ways_left(way) == 0,
{
}

/// What is isolated was asked for: without a chosen application nothing is.
pub proof fn isolation_is_asked_for(want_tap: bool)
    ensures
        !isolates(first_way(false, want_tap), false),
        !isolates(CaptureWay::ScreenCapture, false),
        !isolates(CaptureWay::Loopback, false),
{
}

} // verus!
