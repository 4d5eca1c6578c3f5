//! What the user interface asks for, decided: the settings, the meetings, and
//! what is told when something cannot be done. Windows, files and the network
//! are with whoever calls.
use vstd::prelude::*;
use crate::config;
use crate::config::{AppConfig, ConfigModel, RedactedConfig};
use crate::error::{ErrorModel, SallyError};
use crate::gemini::cleanup;
use crate::gemini::cleanup::{render_polished, section_tail, split_sections, MeetingSummary, SECTION_BUDGET};
use crate::gemini::REST_BASE;
use crate::labels;
use crate::labels::sorted_unique;
use crate::order;
use crate::order::{stable_order, NewestFirst};
use crate::path::{copy_texts, FilePath, PathModel};
use crate::session::ReviewData;
use crate::store;
use crate::store::{FileMove, MeetingStore};
use crate::text;
use crate::text::{blank, ends_with, from_chars, lines, same_text, to_chars, trim};
use crate::text_map;
use crate::text_map::TextMap;

verus! {

// ---------------------------------------------------------------------------
// Setup and settings
// ---------------------------------------------------------------------------

/// What the interface needs to know first.
#[derive(Debug)]
pub struct BootInfo {
    pub config: Option<RedactedConfig>,
    pub needs_setup: bool,
    pub pending_recoveries: usize,
}

/// The number of journals among the names.
pub open spec fn journals_among(names: Seq<Seq<char>>) -> nat {
    names.filter(|n: Seq<char>| store::is_journal(n)).len()
}

/// What the interface needs to know first. `recovery_names` are the files in
/// the recovery folder.
pub fn get_boot_info(cfg: Option<&AppConfig>, recovery_names: &Vec<String>) -> (r: BootInfo)
    ensures
        match cfg {
            Some(c) => {
                &&& r.config matches Some(shown)
                &&& shown@ == c@.redaction()
                &&& r.needs_setup == text::is_blank(c@.api_key)
                &&& r.pending_recoveries == journals_among(text::texts(recovery_names@))
            },
            None => r.config is None && r.needs_setup && r.pending_recoveries == 0,
        },
{
    match cfg {
        Some(c) => {
            let pending = MeetingStore::pending_recoveries(recovery_names);
            assert(text::texts(pending@).len() == pending@.len());
            BootInfo {
                config: Some(c.redacted()),
                needs_setup: blank(&c.api_key),
                pending_recoveries: pending.len(),
            }
        },
        None => BootInfo { config: None, needs_setup: true, pending_recoveries: 0 },
    }
}

/// The configuration, which must be there.
pub fn require_config(cfg: Option<&AppConfig>) -> (r: Result<AppConfig, SallyError>)
    ensures
        match cfg {
            Some(c) => r matches Ok(copy) && copy@ == c@,
            None => r matches Err(e) && e@ == ErrorModel::Config("setup not completed"@),
        },
{
    match cfg {
        Some(c) => Ok(c.clone()),
        None => Err(SallyError::Config(text::owned("setup not completed"))),
    }
}

/// The settings that the interface wants to change.
#[derive(Debug)]
pub struct SettingsPayload {
    pub data_dir: Option<String>,
    pub api_key: Option<String>,
    pub live_model: Option<String>,
    pub cleanup_model: Option<String>,
    pub target_language: Option<String>,
    pub ui_language: Option<String>,
    pub always_on_top: Option<bool>,
    pub mic_device: Option<String>,
    pub system_device: Option<String>,
    pub capture_app: Option<String>,
    pub readout_enabled: Option<bool>,
}

/// The new value where there is one.
pub open spec fn changed(new: Option<String>, current: Seq<char>) -> Seq<char> {
    match new {
        Some(v) => v@,
        None => current,
    }
}

/// The new value where there is one that is not blank.
pub open spec fn changed_unless_blank(new: Option<String>, current: Seq<char>) -> Seq<char> {
    match new {
        Some(v) => if text::is_blank(v@) {
            current
        } else {
            v@
        },
        None => current,
    }
}

/// The configuration with the settings of the payload.
pub open spec fn with_settings(c: ConfigModel, p: SettingsPayload) -> ConfigModel {
    ConfigModel {
        data_dir: match p.data_dir {
            Some(d) => PathModel { root: d@, names: Seq::empty() },
            None => c.data_dir,
        },
        api_key: changed(p.api_key, c.api_key),
        live_model: changed_unless_blank(p.live_model, c.live_model),
        cleanup_model: changed_unless_blank(p.cleanup_model, c.cleanup_model),
        target_language: changed(p.target_language, c.target_language),
        ui_language: changed(p.ui_language, c.ui_language),
        always_on_top: match p.always_on_top {
            Some(b) => b,
            None => c.always_on_top,
        },
        mic_device: changed(p.mic_device, c.mic_device),
        system_device: changed(p.system_device, c.system_device),
        capture_app: changed(p.capture_app, c.capture_app),
        readout_enabled: match p.readout_enabled {
            Some(b) => b,
            None => c.readout_enabled,
        },
        live_api_version: c.live_api_version,
    }
}

fn change(new: Option<String>, current: String) -> (r: String)
    ensures
        r@ == changed(new, current@),
{
    match new {
        Some(v) => v,
        None => current,
    }
}

fn change_unless_blank(new: Option<String>, current: String) -> (r: String)
    ensures
        r@ == changed_unless_blank(new, current@),
{
    match new {
        Some(v) => if blank(v.as_str()) {
            current
        } else {
            v
        },
        None => current,
    }
}

fn flip(new: Option<bool>, current: bool) -> (r: bool)
    ensures
        r == match new {
            Some(b) => b,
            None => current,
        },
{
    match new {
        Some(b) => b,
        None => current,
    }
}

/// Creates or updates the configuration. First-run setup and the settings
/// screen both come here. Without a configuration a data folder is needed.
pub fn save_settings(existing: Option<AppConfig>, payload: SettingsPayload) -> (r: Result<
    AppConfig,
    SallyError,
>)
    ensures
        match (existing, payload.data_dir) {
            (Some(c), _) => r matches Ok(n) && n@ == with_settings(c@, payload),
            (None, Some(d)) => r matches Ok(n) && n@ == with_settings(
                ConfigModel::initial(PathModel { root: d@, names: Seq::empty() }),
                payload,
            ),
            (None, None) => r matches Err(e) && e@ == ErrorModel::Config(
                "select a Sally data folder first"@,
            ),
        },
{
    let dir = match &payload.data_dir {
        Some(d) => Some(FilePath::new(d.as_str())),
        None => None,
    };
    let base = match (existing, dir) {
        (Some(c), Some(d)) => AppConfig { data_dir: d, ..c },
        (Some(c), None) => c,
        (None, Some(d)) => AppConfig::new(d),
        (None, None) => {
            return Err(SallyError::Config(text::owned("select a Sally data folder first")));
        },
    };
    Ok(
        AppConfig {
            data_dir: base.data_dir,
            api_key: change(payload.api_key, base.api_key),
            live_model: change_unless_blank(payload.live_model, base.live_model),
            cleanup_model: change_unless_blank(payload.cleanup_model, base.cleanup_model),
            target_language: change(payload.target_language, base.target_language),
            ui_language: change(payload.ui_language, base.ui_language),
            always_on_top: flip(payload.always_on_top, base.always_on_top),
            mic_device: change(payload.mic_device, base.mic_device),
            system_device: change(payload.system_device, base.system_device),
            capture_app: change(payload.capture_app, base.capture_app),
            readout_enabled: flip(payload.readout_enabled, base.readout_enabled),
            live_api_version: base.live_api_version,
        },
    )
}

/// The stored API key, for the settings screen; empty where there is none.
pub fn get_api_key(cfg: Option<&AppConfig>) -> (r: String)
    ensures
        r@ == match cfg {
            Some(c) => c@.api_key,
            None => Seq::empty(),
        },
{
    match cfg {
        Some(c) => c.api_key.clone(),
        None => String::new(),
    }
}

/// The configuration with readout on or off.
pub fn set_readout(cfg: Option<&AppConfig>, enabled: bool) -> (r: Result<AppConfig, SallyError>)
    ensures
        match cfg {
            Some(c) => r matches Ok(n) && n@ == (ConfigModel { readout_enabled: enabled, ..c@ }),
            None => r matches Err(e) && e@ == ErrorModel::Config("setup not completed"@),
        },
{
    match require_config(cfg) {
        Ok(c) => Ok(AppConfig { readout_enabled: enabled, ..c }),
        Err(e) => Err(e),
    }
}

/// The audio devices that can be chosen.
#[derive(Debug)]
pub struct AudioDevices {
    pub inputs: Vec<String>,
    pub outputs: Vec<String>,
}

// ---------------------------------------------------------------------------
// Connectivity
// ---------------------------------------------------------------------------

/// The address that tells whether the key and the network work.
pub open spec fn connectivity_url(api_key: Seq<char>) -> Seq<char> {
    REST_BASE@ + "/models?key="@ + api_key + "&pageSize=1"@
}

/// The address to ask, to verify the API key and the network without a live
/// session.
pub fn test_connectivity(cfg: Option<&AppConfig>) -> (r: Result<String, SallyError>)
    ensures
        match cfg {
            Some(c) => if text::is_blank(c@.api_key) {
                r matches Err(e) && e@ == ErrorModel::Config("no API key configured"@)
            } else {
                r matches Ok(url) && url@ == connectivity_url(c@.api_key)
            },
            None => r matches Err(e) && e@ == ErrorModel::Config("setup not completed"@),
        },
{
    match cfg {
        Some(c) => {
            if blank(&c.api_key) {
                return Err(SallyError::Config(text::owned("no API key configured")));
            }
            let mut url = text::owned(REST_BASE);
            url.push_str("/models?key=");
            url.push_str(&c.api_key);
            url.push_str("&pageSize=1");
            Ok(url)
        },
        None => Err(SallyError::Config(text::owned("setup not completed"))),
    }
}

/// The error when nothing answered, without the key.
pub fn connectivity_failed(detail: &str, api_key: &str) -> (e: SallyError)
    ensures
        e@ == ErrorModel::Gemini(
            config::key_redacted("connectivity test failed: "@ + detail@, api_key@),
        ),
{
    let mut m = text::owned("connectivity test failed: ");
    m.push_str(detail);
    SallyError::Gemini(config::redact_key(m.as_str(), api_key))
}

/// What an answer says of the key, where `success` tells whether the status is
/// one of success.
pub fn connectivity_reply(success: bool, status: &str) -> (r: Result<bool, SallyError>)
    ensures
        if success {
            r matches Ok(b) && b
        } else {
            r matches Err(e) && e@ == ErrorModel::Gemini(
                "API key rejected (HTTP "@ + status@ + ")"@,
            )
        },
{
    if success {
        Ok(true)
    } else {
        let mut m = text::owned("API key rejected (HTTP ");
        m.push_str(status);
        m.push_str(")");
        Err(SallyError::Gemini(m))
    }
}

// ---------------------------------------------------------------------------
// Running a meeting
// ---------------------------------------------------------------------------

/// Why something cannot be done with the current meeting.
#[derive(Debug, Clone, Copy, PartialEq, Eq, Structural)]
pub enum MeetingFault {
    AlreadyRunning,
    NoneActive,
    AlreadyEnded,
    AlreadyCollected,
    TaskDropped,
    NoneToReview,
    NoneFinished,
}

/// What is told of it.
pub open spec fn fault_text(f: MeetingFault) -> Seq<char> {
    match f {
        MeetingFault::AlreadyRunning => "a meeting is already running"@,
        MeetingFault::NoneActive => "no active meeting"@,
        MeetingFault::AlreadyEnded => "meeting already ended"@,
        MeetingFault::AlreadyCollected => "meeting already collected"@,
        MeetingFault::TaskDropped => "session task dropped"@,
        MeetingFault::NoneToReview => "no finished meeting to review"@,
        MeetingFault::NoneFinished => "no finished meeting"@,
    }
}

/// The error for it.
pub fn meeting_error(f: MeetingFault) -> (e: SallyError)
    ensures
        e@ == ErrorModel::Session(fault_text(f)),
{
    SallyError::Session(
        text::owned(
            match f {
                MeetingFault::AlreadyRunning => "a meeting is already running",
                MeetingFault::NoneActive => "no active meeting",
                MeetingFault::AlreadyEnded => "meeting already ended",
                MeetingFault::AlreadyCollected => "meeting already collected",
                MeetingFault::TaskDropped => "session task dropped",
                MeetingFault::NoneToReview => "no finished meeting to review",
                MeetingFault::NoneFinished => "no finished meeting",
            },
        ),
    )
}

/// A meeting is to start with this target language, which is another than the
/// configured one.
pub open spec fn switches_language(c: ConfigModel, target_language: Option<Seq<char>>) -> bool {
    target_language matches Some(l) && !text::is_blank(l) && l != c.target_language
}

/// The configuration a meeting starts with, and whether it has to be saved
/// because the target language changes. One meeting runs at a time.
pub fn start_meeting(running: bool, cfg: Option<&AppConfig>, target_language: Option<&str>) -> (r:
    Result<(AppConfig, bool), SallyError>)
    ensures
        match (running, cfg) {
            (true, _) => r matches Err(e) && e@ == ErrorModel::Session(
                fault_text(MeetingFault::AlreadyRunning),
            ),
            (false, None) => r matches Err(e) && e@ == ErrorModel::Config("setup not completed"@),
            (false, Some(c)) => r matches Ok(n) && {
                let wanted = config::opt_text(target_language);
                &&& n.1 == switches_language(c@, wanted)
                &&& n.0@ == if n.1 {
                    ConfigModel { target_language: wanted->0, ..c@ }
                } else {
                    c@
                }
            },
        },
{
    if running {
        return Err(meeting_error(MeetingFault::AlreadyRunning));
    }
    let c = match require_config(cfg) {
        Ok(c) => c,
        Err(e) => {
            return Err(e);
        },
    };
    match target_language {
        Some(l) => {
            if !blank(l) && !same_text(l, c.target_language.as_str()) {
                Ok((AppConfig { target_language: text::owned(l), ..c }, true))
            } else {
                Ok((c, false))
            }
        },
        None => Ok((c, false)),
    }
}

// ---------------------------------------------------------------------------
// Review
// ---------------------------------------------------------------------------

/// A finished meeting as the interface shows it.
#[derive(Debug)]
pub struct ReviewInfo {
    pub raw_path: FilePath,
    pub raw_dir: FilePath,
    pub polished_dir: FilePath,
    pub speakers: Vec<String>,
}

/// A finished meeting as the interface shows it.
pub fn review_info(review: &ReviewData) -> (r: ReviewInfo)
    ensures
        r.raw_path@ == review.store@.raw_path,
        r.raw_dir@ == review.store@.meetings_dir,
        r.polished_dir@ == review.store@.meetings_dir,
        text::texts(r.speakers@) == text::texts(review.speakers@),
{
    ReviewInfo {
        raw_path: review.store.raw_path().clone(),
        raw_dir: review.store.raw_dir().clone(),
        polished_dir: review.store.polished_dir().clone(),
        speakers: copy_texts(&review.speakers),
    }
}

/// A transcript that can be opened again.
#[derive(Debug)]
pub struct MeetingFile {
    pub name: String,
    pub path: FilePath,
}

/// A file of a folder, with the time it was last changed.
#[derive(Debug)]
pub struct FolderEntry {
    pub name: String,
    pub modified: u128,
}

/// The name is that of a transcript and not of a copy without timestamps.
pub open spec fn is_transcript(name: Seq<char>) -> bool {
    text::ends(name, ".md"@) && !text::ends(name, "-no-timestamps.md"@)
}

/// The name of a transcript without its extension. A name that is nothing but
/// the extension is kept.
pub open spec fn meeting_name(name: Seq<char>) -> Seq<char> {
    if name.len() > 3 {
        name.take(name.len() - 3)
    } else {
        name
    }
}

/// The transcripts among the files, in the order given.
pub open spec fn transcripts_of(entries: Seq<FolderEntry>) -> Seq<FolderEntry> {
    entries.filter(|e: FolderEntry| is_transcript(e.name@))
}

/// The times of change, as sort keys.
pub open spec fn change_keys(entries: Seq<FolderEntry>) -> Seq<NewestFirst> {
    Seq::new(entries.len(), |i: int| NewestFirst(entries[i].modified))
}

/// `files` are the transcripts, newest first; those of one time keep their
/// order.
pub open spec fn is_meeting_list(
    files: Seq<MeetingFile>,
    transcripts: Seq<FolderEntry>,
    folder: PathModel,
) -> bool {
    exists|places: Seq<usize>|
        {
            &&& #[trigger] order::is_stable_order(change_keys(transcripts), places)
            &&& files.len() == transcripts.len()
            &&& forall|i: int|
                0 <= i < files.len() ==> {
                    &&& (#[trigger] files[i]).name@ == meeting_name(
                        transcripts[places[i] as int].name@,
                    )
                    &&& files[i].path@ == folder.joined(transcripts[places[i] as int].name@)
                }
        }
}

/// The raw transcripts in a folder, newest first.
pub fn list_meetings(raw_dir: &FilePath, entries: &Vec<FolderEntry>) -> (r: Vec<MeetingFile>)
    ensures
        is_meeting_list(r@, transcripts_of(entries@), raw_dir@),
{
    let ghost keep = |e: FolderEntry| is_transcript(e.name@);
    let mut kept: Vec<&FolderEntry> = Vec::new();
    let mut keys: Vec<NewestFirst> = Vec::new();
    let mut i: usize = 0;
    let ghost mut chosen: Seq<FolderEntry> = Seq::empty();
    assert(entries@.take(0).filter(keep) =~= Seq::empty()) by {
        reveal(Seq::filter);
    }
    while i < entries.len()
        invariant
            i <= entries@.len(),
            keep == (|e: FolderEntry| is_transcript(e.name@)),
            chosen == entries@.take(i as int).filter(keep),
            kept@.len() == chosen.len(),
            keys@ =~= change_keys(chosen),
            forall|j: int| 0 <= j < kept@.len() ==> *#[trigger] kept@[j] == chosen[j],
        decreases entries@.len() - i,
    {
        proof {
            assert(entries@.take(i + 1).drop_last() =~= entries@.take(i as int));
            reveal(Seq::filter);
        }
        let e = &entries[i];
        if ends_with(e.name.as_str(), ".md") && !ends_with(e.name.as_str(), "-no-timestamps.md") {
            kept.push(e);
            keys.push(NewestFirst(e.modified));
            proof {
                chosen = chosen.push(*e);
            }
        }
        i += 1;
    }
    assert(entries@.take(i as int) =~= entries@);
    let places = stable_order(&keys);
    let mut out: Vec<MeetingFile> = Vec::new();
    let mut p: usize = 0;
    while p < places.len()
        invariant
            p <= places@.len(),
            places@.len() == kept@.len(),
            kept@.len() == chosen.len(),
            forall|q: int| 0 <= q < places@.len() ==> #[trigger] places@[q] < kept@.len(),
            forall|j: int| 0 <= j < kept@.len() ==> *#[trigger] kept@[j] == chosen[j],
            out@.len() == p,
            forall|q: int|
                0 <= q < p ==> {
                    &&& (#[trigger] out@[q]).name@ == meeting_name(chosen[places@[q] as int].name@)
                    &&& out@[q].path@ == raw_dir@.joined(chosen[places@[q] as int].name@)
                },
        decreases places@.len() - p,
    {
        let e = kept[places[p]];
        let cs = to_chars(e.name.as_str());
        let n: usize = if cs.len() > 3 {
            cs.len() - 3
        } else {
            cs.len()
        };
        let name = from_chars(&cs, 0, n);
        assert(name@ =~= meeting_name(e.name@));
        out.push(MeetingFile { name, path: raw_dir.join(e.name.as_str()) });
        p += 1;
    }
    assert(order::is_stable_order(change_keys(chosen), places@));
    out
}

/// The label that a speaker has after a review.
pub open spec fn relabeled(speaker: Seq<char>, renames: Seq<(Seq<char>, Seq<char>)>) -> Seq<char> {
    if text_map::as_map(renames).contains_key(speaker) {
        text_map::as_map(renames)[speaker]
    } else {
        speaker
    }
}

/// The labels of the speakers after a review.
pub open spec fn relabeled_texts(
    speakers: Seq<Seq<char>>,
    renames: Seq<(Seq<char>, Seq<char>)>,
) -> Seq<Seq<char>> {
    Seq::new(speakers.len(), |i: int| relabeled(speakers[i], renames))
}

/// What a review does to the files: the new contents of the raw transcript,
/// where it changes, and then the moves to new names.
pub struct ReviewChange {
    pub raw: Option<String>,
    pub moves: Result<Vec<FileMove>, SallyError>,
}

/// Applies the actions of a review: speakers are renamed, and merged where two
/// get one name, and the meeting gets a title where one is given.
pub fn apply_review(
    review: &mut ReviewData,
    raw: &str,
    renames: &TextMap,
    meeting_title: Option<&str>,
) -> (r: ReviewChange)
    requires
        old(review).store@.wf(),
    ensures
        final(review).store@.wf(),
        r.raw is None <==> renames@.len() == 0,
        r.raw matches Some(s) ==> s@ == store::renamed(raw@, renames@),
        labels::ascending(text::texts(final(review).speakers@)),
        forall|s: Seq<char>| #[trigger]
            text::texts(final(review).speakers@).contains(s) <==> relabeled_texts(
                text::texts(old(review).speakers@),
                renames@,
            ).contains(s),
        match config::opt_text(meeting_title) {
            Some(t) => if text::is_blank(t) {
                &&& final(review).store@ == old(review).store@
                &&& r.moves matches Ok(m)
                &&& m@.len() == 0
            } else if store::safe_title(t).len() == 0 {
                &&& final(review).store@ == old(review).store@
                &&& r.moves matches Err(e)
                &&& e@ == ErrorModel::Storage("empty meeting name"@)
            } else if store::renamed_stem(old(review).store@.stem, t) == old(review).store@.stem {
                &&& final(review).store@ == old(review).store@
                &&& r.moves matches Ok(m)
                &&& m@.len() == 0
            } else {
                &&& final(review).store@ == old(review).store@.retitled(t)
                &&& r.moves matches Ok(m)
                &&& store::moves_model(m@) == old(review).store@.moves(final(review).store@)
            },
            None => {
                &&& final(review).store@ == old(review).store@
                &&& r.moves matches Ok(m)
                &&& m@.len() == 0
            },
        },
{
    let changed_raw = review.store.apply_speaker_renames(raw, renames);
    let ghost before = text::texts(review.speakers@);
    let ghost after = relabeled_texts(before, renames@);
    let mut speakers: Vec<String> = Vec::new();
    let mut i: usize = 0;
    while i < review.speakers.len()
        invariant
            i <= review.speakers@.len(),
            before == text::texts(review.speakers@),
            after == relabeled_texts(before, renames@),
            speakers@.len() == i,
            forall|j: int| 0 <= j < i ==> (#[trigger] speakers@[j])@ == after[j],
        decreases review.speakers@.len() - i,
    {
        let s = review.speakers[i].as_str();
        let label = match renames.get(s) {
            Some(new) => text::owned(new),
            None => text::owned(s),
        };
        speakers.push(label);
        i += 1;
    }
    assert(text::texts(speakers@) =~= after);
    review.speakers = sorted_unique(&speakers);
    let moves = match meeting_title {
        Some(t) => if blank(t) {
            Ok(Vec::new())
        } else {
            review.store.rename_meeting(t)
        },
        None => Ok(Vec::new()),
    };
    ReviewChange { raw: changed_raw, moves }
}

// ---------------------------------------------------------------------------
// Cleaning up
// ---------------------------------------------------------------------------

/// `s` without the number signs it begins with.
pub open spec fn without_marks(s: Seq<char>) -> Seq<char>
    decreases s.len(),
{
    if s.len() > 0 && s[0] == '#' {
        without_marks(s.drop_first())
    } else {
        s
    }
}

/// The title in a transcript: its first line without the heading marks.
pub open spec fn title_of(raw: Seq<char>) -> Seq<char> {
    text::trimmed(
        without_marks(
            if text::lines_of(raw).len() == 0 {
                "# Meeting"@
            } else {
                text::lines_of(raw)[0]
            },
        ),
    )
}

/// The title in a transcript.
pub fn meeting_title(raw: &str) -> (r: String)
    ensures
        r@ == title_of(raw@),
{
    let ls = lines(raw);
    assert(text::texts(ls@).len() == ls@.len());
    let first = if ls.len() == 0 {
        text::owned("# Meeting")
    } else {
        text::owned(ls[0].as_str())
    };
    assert(ls@.len() > 0 ==> text::texts(ls@)[0] == ls@[0]@);
    let cs = to_chars(first.as_str());
    let mut from: usize = 0;
    assert(cs@.skip(0) =~= cs@);
    while from < cs.len() && cs[from] == '#'
        invariant
            from <= cs.len(),
            without_marks(cs@) == without_marks(cs@.skip(from as int)),
        decreases cs.len() - from,
    {
        assert(cs@.skip(from as int).drop_first() =~= cs@.skip(from + 1));
        from += 1;
    }
    let rest = from_chars(&cs, from, cs.len());
    assert(rest@ =~= cs@.skip(from as int));
    trim(rest.as_str())
}

/// A cleanup in progress: the sections of a transcript go out one by one, and
/// only when all have come back there is anything to publish.
pub struct CleanupRun {
    title: String,
    sections: Vec<String>,
    cleaned: Vec<String>,
}

/// What a [`CleanupRun`] holds.
#[verifier::ext_equal]
pub struct RunModel {
    pub title: Seq<char>,
    pub sections: Seq<Seq<char>>,
    /// The cleaned sections so far.
    pub cleaned: Seq<Seq<char>>,
}

impl View for CleanupRun {
    type V = RunModel;

    closed spec fn view(&self) -> RunModel {
        RunModel {
            title: self.title@,
            sections: text::texts(self.sections@),
            cleaned: text::texts(self.cleaned@),
        }
    }
}

impl RunModel {
    pub open spec fn initial(raw: Seq<char>) -> RunModel {
        RunModel {
            title: title_of(raw),
            sections: cleanup::sections_of(raw, SECTION_BUDGET as nat),
            cleaned: Seq::empty(),
        }
    }

    /// No more came back than went out.
    pub open spec fn wf(self) -> bool {
        self.cleaned.len() <= self.sections.len()
    }

    /// Every section has come back.
    pub open spec fn is_complete(self) -> bool {
        self.cleaned.len() == self.sections.len()
    }

    /// What the next section is sent along with: the end of the one before it.
    pub open spec fn context(self) -> Seq<char> {
        if self.cleaned.len() == 0 {
            Seq::empty()
        } else {
            cleanup::tail_of(self.cleaned.last())
        }
    }

    /// The cleaned transcript.
    pub open spec fn whole(self) -> Seq<char> {
        text::joined(self.cleaned, "\n\n"@)
    }
}

impl CleanupRun {
    /// The cleanup of a raw transcript.
    pub fn new(raw: &str) -> (r: Self)
        ensures
            r@ == RunModel::initial(raw@),
            r@.wf(),
    {
        let r = CleanupRun {
            title: meeting_title(raw),
            sections: split_sections(raw, SECTION_BUDGET),
            cleaned: Vec::new(),
        };
        assert(text::texts(r.cleaned@) =~= Seq::empty());
        r
    }

    /// The next section to clean and its context, until all are done.
    pub fn next_section(&self) -> (r: Option<(&str, String)>)
        requires
            self@.wf(),
        ensures
            r is None <==> self@.is_complete(),
            r matches Some(s) ==> s.0@ == self@.sections[self@.cleaned.len() as int] && s.1@
                == self@.context(),
    {
        assert(text::texts(self.cleaned@).len() == self.cleaned@.len());
        assert(text::texts(self.sections@).len() == self.sections@.len());
        let n = self.cleaned.len();
        if n >= self.sections.len() {
            return None;
        }
        let context = if n == 0 {
            String::new()
        } else {
            assert(text::texts(self.cleaned@)[n - 1] == self.cleaned@[n - 1]@);
            section_tail(self.cleaned[n - 1].as_str())
        };
        assert(text::texts(self.sections@)[n as int] == self.sections@[n as int]@);
        Some((self.sections[n].as_str(), context))
    }

    /// Takes in the cleaned section.
    pub fn add(&mut self, cleaned: String)
        requires
            old(self)@.wf(),
            !old(self)@.is_complete(),
        ensures
            final(self)@.wf(),
            final(self)@ == (RunModel {
                cleaned: old(self)@.cleaned.push(cleaned@),
                ..old(self)@
            }),
    {
        proof {
            text::lemma_texts_push(self.cleaned@, cleaned);
        }
        self.cleaned.push(cleaned);
    }

    /// The cleaned transcript, once every section has come back.
    pub fn cleaned(&self) -> (r: Option<String>)
        requires
            self@.wf(),
        ensures
            r is Some <==> self@.is_complete(),
            r matches Some(s) ==> s@ == self@.whole(),
    {
        assert(text::texts(self.cleaned@).len() == self.cleaned@.len());
        assert(text::texts(self.sections@).len() == self.sections@.len());
        if self.cleaned.len() < self.sections.len() {
            None
        } else {
            Some(text::join(&self.cleaned, "\n\n"))
        }
    }

    /// What to publish, once every section and the summary have come back.
    pub fn polished(&self, summary: &MeetingSummary, ui_language: &str) -> (r: Option<String>)
        requires
            self@.wf(),
        ensures
            r is Some <==> self@.is_complete(),
            r matches Some(s) ==> s@ == cleanup::polished_text(
                self@.title,
                summary@,
                self@.whole(),
                ui_language@,
            ),
    {
        match self.cleaned() {
            Some(whole) => Some(
                render_polished(self.title.as_str(), summary, whole.as_str(), ui_language),
            ),
            None => None,
        }
    }
}

// ---------------------------------------------------------------------------
// Laws
// ---------------------------------------------------------------------------

/// A payload without settings changes nothing.
pub proof fn empty_settings_change_nothing(c: ConfigModel, p: SettingsPayload)
    requires
        p.data_dir is None,
        p.api_key is None,
        p.live_model is None,
        p.cleanup_model is None,
        p.target_language is None,
        p.ui_language is None,
        p.always_on_top is None,
        p.mic_device is None,
        p.system_device is None,
        p.capture_app is None,
        p.readout_enabled is None,
    ensures
        with_settings(c, p) == c,
{
}

/// Settings that were saved once stay when they are saved again.
pub proof fn settings_are_settled(c: ConfigModel, p: SettingsPayload)
    ensures
        with_settings(with_settings(c, p), p) == with_settings(c, p),
{
}

/// A model name is never lost to a blank field.
pub proof fn models_are_never_blanked(c: ConfigModel, p: SettingsPayload)
    requires
        !text::is_blank(c.live_model),
        !text::is_blank(c.cleanup_model),
    ensures
        !text::is_blank(with_settings(c, p).live_model),
        !text::is_blank(with_settings(c, p).cleanup_model),
{
}

/// Two speakers that a review gives one name are one speaker afterwards.
pub proof fn reviews_merge_speakers(
    a: Seq<char>,
    b: Seq<char>,
    renames: Seq<(Seq<char>, Seq<char>)>,
)
    requires
        text_map::as_map(renames).contains_key(a),
        text_map::as_map(renames).contains_key(b),
        text_map::as_map(renames)[a] == text_map::as_map(renames)[b],
    ensures
        relabeled(a, renames) == relabeled(b, renames),
{
}

/// A review without renames leaves every label as it is.
pub proof fn empty_reviews_keep_labels(speaker: Seq<char>)
    ensures
        relabeled(speaker, Seq::empty()) == speaker,
{
    text_map::lemma_as_map(Seq::empty());
}

/// A meeting list never offers a copy without timestamps.
pub proof fn exports_are_not_meetings(entries: Seq<FolderEntry>, i: int)
    requires
        0 <= i < transcripts_of(entries).len(),
    ensures
        is_transcript(transcripts_of(entries)[i].name@),
    decreases entries.len(),
{
    reveal(Seq::filter);
    let rest = entries.drop_last();
    if i < transcripts_of(rest).len() {
        exports_are_not_meetings(rest, i);
    }
}

} // verus!
