//! Which application to listen to: capturing one meeting application in place
//! of the whole output device keeps the translated-voice readout out of what
//! is captured.
use vstd::prelude::*;
use crate::error::{ErrorModel, SallyError};
use crate::labels;
use crate::labels::sorted_unique;
use crate::order;
use crate::order::stable_order;
use crate::text;
use crate::text::{from_chars, same_ignoring_ascii_case, same_text, to_chars};

verus! {

/// An application with an audio session.
#[derive(Debug)]
pub struct AudioApp {
    pub pid: u32,
    pub name: String,
}

/// An [`AudioApp`] by its characters.
pub struct AppModel {
    pub pid: u32,
    pub name: Seq<char>,
}

impl View for AudioApp {
    type V = AppModel;

    open spec fn view(&self) -> AppModel {
        AppModel { pid: self.pid, name: self.name@ }
    }
}

impl Clone for AudioApp {
    fn clone(&self) -> (r: Self)
        ensures
            r@ == self@,
    {
        AudioApp { pid: self.pid, name: self.name.clone() }
    }
}

/// The text in lower case.
pub uninterp spec fn lowercase(s: Seq<char>) -> Seq<char>;

/// `str::to_lowercase` maps a text to its lower case by the Unicode
/// derived property, which depends on the text alone. The mapping is only
/// named here.
#[verifier::external_body]
pub(crate) fn to_lower(s: &str) -> (r: String)
    ensures
        r@ == lowercase(s@),
{
    s.to_lowercase()
}

/// Where the last part of a path begins: after the last separator.
pub open spec fn file_start(s: Seq<char>) -> nat
    decreases s.len(),
{
    if s.len() == 0 || s.last() == '\\' || s.last() == '/' {
        s.len()
    } else {
        file_start(s.drop_last())
    }
}

/// The file name in a path of an image, whichever separator it has; none
/// where the path ends in one.
pub fn process_name(path: &str) -> (r: Option<String>)
    ensures
        match r {
            Some(name) => name@ == path@.skip(file_start(path@) as int) && name@.len() > 0,
            None => file_start(path@) == path@.len(),
        },
{
    let cs = to_chars(path);
    let mut from: usize = cs.len();
    assert(cs@.take(from as int) =~= cs@);
    while from > 0 && cs[from - 1] != '\\' && cs[from - 1] != '/'
        invariant
            from <= cs.len(),
            file_start(cs@) == file_start(cs@.take(from as int)),
        decreases from,
    {
        assert(cs@.take(from as int).drop_last() =~= cs@.take(from - 1));
        from -= 1;
    }
    assert(file_start(cs@) == from);
    if from == cs.len() {
        None
    } else {
        assert(cs@.skip(from as int) =~= cs@.subrange(from as int, cs.len() as int));
        Some(from_chars(&cs, from, cs.len()))
    }
}

/// An audio session: its process, and that process's name where it can be had.
#[derive(Debug)]
pub struct AudioSession {
    pub pid: u32,
    pub name: Option<String>,
}

/// The name is among those of the applications, whatever the case of its
/// ASCII letters.
pub open spec fn is_listed(apps: Seq<AppModel>, name: Seq<char>) -> bool {
    exists|i: int|
        0 <= i < apps.len() && text::ascii_lowered((#[trigger] apps[i]).name)
            == text::ascii_lowered(name)
}

/// The applications of the first `k` sessions: each name once, with the
/// process that was found first. Process 0 makes the system's own sounds.
pub open spec fn apps_of(sessions: Seq<AudioSession>, k: int) -> Seq<AppModel>
    decreases k,
{
    if k <= 0 {
        Seq::empty()
    } else {
        let rest = apps_of(sessions, k - 1);
        match sessions[k - 1].name {
            Some(name) => if sessions[k - 1].pid == 0 || is_listed(rest, name@) {
                rest
            } else {
                rest.push(AppModel { pid: sessions[k - 1].pid, name: name@ })
            },
            None => rest,
        }
    }
}

/// The applications of a list by their characters.
pub open spec fn app_models(apps: Seq<AudioApp>) -> Seq<AppModel> {
    Seq::new(apps.len(), |i: int| apps[i]@)
}

/// The keys are the names in lower case.
pub open spec fn are_name_keys(keys: Seq<String>, apps: Seq<AppModel>) -> bool {
    &&& keys.len() == apps.len()
    &&& forall|i: int| 0 <= i < keys.len() ==> (#[trigger] keys[i])@ == lowercase(apps[i].name)
}

/// `out` lists `apps` by their keys; equal keys keep their order.
pub open spec fn is_sorted_by(out: Seq<AppModel>, apps: Seq<AppModel>, keys: Seq<String>) -> bool {
    exists|places: Seq<usize>|
        {
            &&& #[trigger] order::is_stable_order(keys, places)
            &&& out == Seq::new(apps.len(), |i: int| apps[places[i] as int])
        }
}

/// `out` lists `apps` by name, whatever the case; equal names keep their order.
pub open spec fn is_sorted_by_name(out: Seq<AppModel>, apps: Seq<AppModel>) -> bool {
    exists|keys: Seq<String>| #[trigger]
        are_name_keys(keys, apps) && is_sorted_by(out, apps, keys)
}

/// Whether a name is among those of the applications.
fn find_app(apps: &Vec<AudioApp>, name: &str) -> (r: Option<usize>)
    ensures
        match r {
            Some(i) => i < apps@.len() && text::ascii_lowered(apps@[i as int].name@)
                == text::ascii_lowered(name@) && forall|j: int|
                0 <= j < i ==> text::ascii_lowered((#[trigger] apps@[j]).name@)
                    != text::ascii_lowered(name@),
            None => !is_listed(app_models(apps@), name@),
        },
{
    let mut i: usize = 0;
    while i < apps.len()
        invariant
            i <= apps@.len(),
            forall|j: int|
                0 <= j < i ==> text::ascii_lowered((#[trigger] apps@[j]).name@)
                    != text::ascii_lowered(name@),
        decreases apps@.len() - i,
    {
        if same_ignoring_ascii_case(apps[i].name.as_str(), name) {
            return Some(i);
        }
        i += 1;
    }
    assert forall|j: int| 0 <= j < app_models(apps@).len() implies text::ascii_lowered(
        (#[trigger] app_models(apps@)[j]).name,
    ) != text::ascii_lowered(name@) by {
        assert(app_models(apps@)[j].name == apps@[j].name@);
    }
    None
}

/// The applications by their keys; equal keys keep their order.
pub fn sort_apps(apps: &Vec<AudioApp>, keys: &Vec<String>) -> (r: Vec<AudioApp>)
    requires
        apps@.len() == keys@.len(),
    ensures
        is_sorted_by(app_models(r@), app_models(apps@), keys@),
{
    let ghost all = app_models(apps@);
    let places = stable_order(keys);
    let mut out: Vec<AudioApp> = Vec::new();
    let mut p: usize = 0;
    while p < places.len()
        invariant
            p <= places@.len(),
            places@.len() == apps@.len(),
            all == app_models(apps@),
            forall|q: int| 0 <= q < places@.len() ==> #[trigger] places@[q] < apps@.len(),
            out@.len() == p,
            forall|q: int| 0 <= q < p ==> (#[trigger] out@[q])@ == all[places@[q] as int],
        decreases places@.len() - p,
    {
        let app = apps[places[p]].clone();
        out.push(app);
        p += 1;
    }
    assert(app_models(out@) =~= Seq::new(all.len(), |i: int| all[places@[i] as int]));
    out
}

/// The applications that have an audio session, by name.
pub fn list_audio_apps(sessions: &Vec<AudioSession>) -> (r: Vec<AudioApp>)
    ensures
        is_sorted_by_name(app_models(r@), apps_of(sessions@, sessions@.len() as int)),
{
    let mut apps: Vec<AudioApp> = Vec::new();
    let mut k: usize = 0;
    assert(app_models(apps@) =~= Seq::empty());
    while k < sessions.len()
        invariant
            k <= sessions@.len(),
            app_models(apps@) == apps_of(sessions@, k as int),
        decreases sessions@.len() - k,
    {
        let ghost before = app_models(apps@);
        match &sessions[k].name {
            Some(name) => {
                let found = find_app(&apps, name.as_str());
                if let Some(i) = found {
                    assert(before[i as int].name == apps@[i as int].name@);
                    assert(is_listed(before, name@));
                }
                if sessions[k].pid != 0 && found.is_none() {
                    let app = AudioApp { pid: sessions[k].pid, name: text::owned(name.as_str()) };
                    assert(app_models(apps@.push(app)) =~= before.push(app@));
                    apps.push(app);
                }
            },
            None => {},
        }
        k += 1;
    }
    let ghost all = app_models(apps@);
    let mut keys: Vec<String> = Vec::new();
    let mut i: usize = 0;
    while i < apps.len()
        invariant
            i <= apps@.len(),
            all == app_models(apps@),
            keys@.len() == i,
            forall|j: int| 0 <= j < i ==> (#[trigger] keys@[j])@ == lowercase(all[j].name),
        decreases apps@.len() - i,
    {
        keys.push(to_lower(apps[i].name.as_str()));
        i += 1;
    }
    assert(are_name_keys(keys@, all));
    sort_apps(&apps, &keys)
}

/// The process of the application with that name. Names are stable across
/// runs; process numbers are not.
pub fn resolve_app_pid(apps: &Vec<AudioApp>, exe_name: &str) -> (r: Option<u32>)
    ensures
        match r {
            Some(pid) => exists|i: int|
                {
                    &&& 0 <= i < apps@.len()
                    &&& (#[trigger] apps@[i]).pid == pid
                    &&& text::ascii_lowered(apps@[i].name@) == text::ascii_lowered(exe_name@)
                    &&& forall|j: int|
                        0 <= j < i ==> text::ascii_lowered((#[trigger] apps@[j]).name@)
                            != text::ascii_lowered(exe_name@)
                },
            None => !is_listed(app_models(apps@), exe_name@),
        },
{
    match find_app(apps, exe_name) {
        Some(i) => Some(apps[i].pid),
        None => None,
    }
}

/// The names of the applications that own a window on the screen, in order:
/// background agents without a window only clutter a picker.
pub fn visible_app_names(window_owners: &Vec<String>, applications: &Vec<String>) -> (r: Vec<String>)
    ensures
        labels::ascending(text::texts(r@)),
        forall|s: Seq<char>| #[trigger]
            text::texts(r@).contains(s) <==> s.len() > 0 && text::texts(applications@).contains(s)
                && text::texts(window_owners@).contains(s),
{
    let ghost all = text::texts(applications@);
    let ghost owners = text::texts(window_owners@);
    let mut kept: Vec<String> = Vec::new();
    let mut i: usize = 0;
    while i < applications.len()
        invariant
            i <= applications@.len(),
            all == text::texts(applications@),
            owners == text::texts(window_owners@),
            forall|s: Seq<char>| #[trigger]
                text::texts(kept@).contains(s) <==> s.len() > 0 && all.take(i as int).contains(s)
                    && owners.contains(s),
        decreases applications@.len() - i,
    {
        let ghost before = text::texts(kept@);
        let ghost name = applications@[i as int]@;
        let keep = !applications[i].as_str().is_empty() && has_name(
            window_owners,
            applications[i].as_str(),
        );
        if keep {
            let copy = text::owned(applications[i].as_str());
            proof {
                text::lemma_texts_push(kept@, copy);
            }
            kept.push(copy);
        }
        proof {
            let after = text::texts(kept@);
            let next = all.take(i + 1);
            assert(next =~= all.take(i as int).push(name));
            assert(after == if keep {
                before.push(name)
            } else {
                before
            });
            assert forall|s: Seq<char>| #[trigger]
                after.contains(s) <==> s.len() > 0 && next.contains(s) && owners.contains(s) by {
                lemma_push_contains(before, name, s);
                lemma_push_contains(all.take(i as int), name, s);
                assert(before.contains(s) <==> s.len() > 0 && all.take(i as int).contains(s)
                    && owners.contains(s));
            }
        }
        i += 1;
    }
    assert(all.take(i as int) =~= all);
    sorted_unique(&kept)
}

/// What a screen capture listens to.
#[derive(Debug, Clone, Copy, PartialEq, Eq, Structural)]
pub enum ScreenSource {
    /// Everything that plays.
    Everything,
    /// The application at this place in the list.
    App(usize),
}

/// What a screen capture listens to: the first application with that name, or
/// everything where no name is given. There must be a display, since sound
/// comes along with its picture.
pub fn choose_screen_source(
    displays: usize,
    applications: &Vec<String>,
    capture_app: &str,
) -> (r: Result<ScreenSource, SallyError>)
    ensures
        if displays == 0 {
            r matches Err(e) && e@ == ErrorModel::Audio("no display found"@)
        } else if capture_app@.len() == 0 {
            r matches Ok(s) && s == ScreenSource::Everything
        } else if text::texts(applications@).contains(capture_app@) {
            r matches Ok(ScreenSource::App(i)) && i < applications@.len() && applications@[i as int]@
                == capture_app@ && forall|j: int|
                0 <= j < i ==> (#[trigger] applications@[j])@ != capture_app@
        } else {
            r matches Err(e) && e@ == ErrorModel::Audio(
                "'"@ + capture_app@ + "' has no active audio session"@,
            )
        },
{
    if displays == 0 {
        return Err(SallyError::Audio(text::owned("no display found")));
    }
    if capture_app.is_empty() {
        return Ok(ScreenSource::Everything);
    }
    let mut i: usize = 0;
    while i < applications.len()
        invariant
            i <= applications@.len(),
            displays > 0,
            capture_app@.len() > 0,
            forall|j: int| 0 <= j < i ==> (#[trigger] applications@[j])@ != capture_app@,
        decreases applications@.len() - i,
    {
        if same_text(applications[i].as_str(), capture_app) {
            assert(text::texts(applications@)[i as int] == capture_app@);
            return Ok(ScreenSource::App(i));
        }
        i += 1;
    }
    assert forall|j: int| 0 <= j < applications@.len() implies #[trigger] text::texts(
        applications@,
    )[j] != capture_app@ by {
        assert(applications@[j]@ != capture_app@);
    }
    let mut told = text::owned("'");
    told.push_str(capture_app);
    told.push_str("' has no active audio session");
    Err(SallyError::Audio(told))
}

proof fn lemma_push_contains(v: Seq<Seq<char>>, x: Seq<char>, s: Seq<char>)
    ensures
        v.push(x).contains(s) <==> v.contains(s) || s == x,
{
    if v.contains(s) {
        let k = choose|k: int| 0 <= k < v.len() && v[k] == s;
        assert(v.push(x)[k] == s);
    }
    if s == x {
        assert(v.push(x)[v.len() as int] == s);
    }
}

/// Whether the name is in the list.
fn has_name(names: &Vec<String>, name: &str) -> (r: bool)
    ensures
        r == text::texts(names@).contains(name@),
{
    let mut i: usize = 0;
    while i < names.len()
        invariant
            i <= names@.len(),
            forall|j: int| 0 <= j < i ==> (#[trigger] text::texts(names@)[j]) != name@,
        decreases names@.len() - i,
    {
        if same_text(names[i].as_str(), name) {
            assert(text::texts(names@)[i as int] == name@);
            return true;
        }
        assert(text::texts(names@)[i as int] != name@);
        i += 1;
    }
    false
}

proof fn lemma_apps_once(sessions: Seq<AudioSession>, k: int, i: int, j: int)
    requires
        0 <= k <= sessions.len(),
        0 <= i < j < apps_of(sessions, k).len(),
    ensures
        text::ascii_lowered(apps_of(sessions, k)[i].name) != text::ascii_lowered(
            apps_of(sessions, k)[j].name,
        ),
    decreases k,
{
    let rest = apps_of(sessions, k - 1);
    if j < rest.len() {
        lemma_apps_once(sessions, k - 1, i, j);
    } else {
        assert(apps_of(sessions, k)[i] == rest[i]);
    }
}

/// No application is offered twice, whatever the case of its name.
pub proof fn applications_are_offered_once(sessions: Seq<AudioSession>, i: int, j: int)
    requires
        0 <= i < j < apps_of(sessions, sessions.len() as int).len(),
    ensures
        text::ascii_lowered(apps_of(sessions, sessions.len() as int)[i].name)
            != text::ascii_lowered(apps_of(sessions, sessions.len() as int)[j].name),
{
    lemma_apps_once(sessions, sessions.len() as int, i, j);
}

} // verus!
