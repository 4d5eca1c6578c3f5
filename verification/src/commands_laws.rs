//! What holds of the commands: what a setting changes, which meetings are
//! listed, and what becomes of a transcript that is cleaned up.
use vstd::prelude::*;
use crate::commands;
use crate::commands::{FolderEntry, MeetingFile, RunModel, SettingsPayload};
use crate::config::ConfigModel;
use crate::error::ErrorModel;
use crate::gemini::cleanup;
use crate::gemini::cleanup_laws;
use crate::gemini::REST_BASE;
use crate::models;
use crate::order;
use crate::path::PathModel;
use crate::store;
use crate::text;
use crate::text_laws;

verus! {

// ---------------------------------------------------------------------------
// Settings
// ---------------------------------------------------------------------------

/// A setting that is given takes effect and one that is not given stays; only a
/// model is not changed to a blank one.
pub proof fn settings_take_effect(c: ConfigModel, p: SettingsPayload)
    ensures
        ({
            let n = commands::with_settings(c, p);
            &&& n.data_dir.root == match p.data_dir { Some(d) => d@, None => c.data_dir.root }
            &&& p.data_dir is Some ==> n.data_dir.names.len() == 0
            &&& n.api_key == match p.api_key { Some(v) => v@, None => c.api_key }
            &&& n.target_language == match p.target_language {
                Some(v) => v@,
                None => c.target_language,
            }
            &&& n.ui_language == match p.ui_language { Some(v) => v@, None => c.ui_language }
            &&& n.mic_device == match p.mic_device { Some(v) => v@, None => c.mic_device }
            &&& n.system_device == match p.system_device { Some(v) => v@, None => c.system_device }
            &&& n.capture_app == match p.capture_app { Some(v) => v@, None => c.capture_app }
            &&& n.always_on_top == match p.always_on_top { Some(b) => b, None => c.always_on_top }
            &&& n.readout_enabled == match p.readout_enabled {
                Some(b) => b,
                None => c.readout_enabled,
            }
            &&& p.live_model matches Some(v) ==> (text::ink(v@).len() > 0 ==> n.live_model == v@)
            &&& p.cleanup_model matches Some(v) ==> (text::ink(v@).len() > 0 ==> n.cleanup_model
                == v@)
            &&& (p.live_model is None || text::ink(p.live_model->0@).len() == 0) ==> n.live_model
                == c.live_model
            &&& (p.cleanup_model is None || text::ink(p.cleanup_model->0@).len() == 0)
                ==> n.cleanup_model == c.cleanup_model
            &&& n.live_api_version == c.live_api_version
        }),
{
    if let Some(v) = p.live_model {
        text_laws::ink_of_blank(v@);
    }
    if let Some(v) = p.cleanup_model {
        text_laws::ink_of_blank(v@);
    }
}

/// What the user is told of an error is its kind and then the whole message.
pub proof fn errors_tell_their_message(e: ErrorModel, m: Seq<char>)
    requires
        e == ErrorModel::Config(m) || e == ErrorModel::Audio(m) || e == ErrorModel::Gemini(m) || e
            == ErrorModel::Storage(m) || e == ErrorModel::Session(m),
    ensures
        text::ends(e.shown(), m),
        e is Config ==> text::starts(e.shown(), "configuration error: "@),
        e is Audio ==> text::starts(e.shown(), "audio error: "@),
        e is Gemini ==> text::starts(e.shown(), "gemini error: "@),
        e is Storage ==> text::starts(e.shown(), "storage error: "@),
        e is Session ==> text::starts(e.shown(), "session error: "@),
{
    let s = e.shown();
    assert(s.subrange(s.len() - m.len(), s.len() as int) =~= m);
    let k = s.take(s.len() - m.len());
    assert(s.subrange(0, k.len() as int) =~= k);
    assert(e is Config ==> k =~= "configuration error: "@);
    assert(e is Audio ==> k =~= "audio error: "@);
    assert(e is Gemini ==> k =~= "gemini error: "@);
    assert(e is Storage ==> k =~= "storage error: "@);
    assert(e is Session ==> k =~= "session error: "@);
}

// ---------------------------------------------------------------------------
// Meetings
// ---------------------------------------------------------------------------

proof fn kept_transcripts(entries: Seq<FolderEntry>, i: int) -> (k: int)
    requires
        0 <= i < entries.len(),
        commands::is_transcript(entries[i].name@),
    ensures
        0 <= k < commands::transcripts_of(entries).len(),
        commands::transcripts_of(entries)[k] == entries[i],
    decreases entries.len(),
{
    reveal(Seq::filter);
    let rest = entries.drop_last();
    if i < rest.len() {
        kept_transcripts(rest, i)
    } else {
        commands::transcripts_of(rest).len() as int
    }
}

/// Every transcript of the folder is listed, under its name without the
/// extension and with its location. A copy without timestamps is none.
pub proof fn every_transcript_is_listed(
    files: Seq<MeetingFile>,
    entries: Seq<FolderEntry>,
    folder: PathModel,
    i: int,
) -> (p: int)
    requires
        commands::is_meeting_list(files, commands::transcripts_of(entries), folder),
        0 <= i < entries.len(),
        entries[i].name@.len() > 3,
        text::ends(entries[i].name@, ".md"@),
        !text::ends(entries[i].name@, "-no-timestamps.md"@),
    ensures
        0 <= p < files.len(),
        files[p].path@ == folder.joined(entries[i].name@),
        files[p].name@ + ".md"@ == entries[i].name@,
{
    let transcripts = commands::transcripts_of(entries);
    let k = kept_transcripts(entries, i);
    let places = choose|places: Seq<usize>|
        {
            &&& #[trigger] order::is_stable_order(commands::change_keys(transcripts), places)
            &&& files.len() == transcripts.len()
            &&& forall|i: int|
                0 <= i < files.len() ==> {
                    &&& (#[trigger] files[i]).name@ == commands::meeting_name(
                        transcripts[places[i] as int].name@,
                    )
                    &&& files[i].path@ == folder.joined(transcripts[places[i] as int].name@)
                }
        };
    let keys = commands::change_keys(transcripts);
    let p = order::sorting_loses_nothing(keys, places, k);
    reveal_strlit(".md");
    let name = entries[i].name@;
    assert(files[p].name@ + ".md"@ =~= name) by {
        assert(name.subrange(name.len() - 3, name.len() as int) == ".md"@);
        assert(name =~= name.take(name.len() - 3) + name.subrange(
            name.len() - 3,
            name.len() as int,
        ));
    }
    p
}

/// A meeting that is listed before another was not changed before it.
pub proof fn newest_meetings_come_first(
    files: Seq<MeetingFile>,
    entries: Seq<FolderEntry>,
    folder: PathModel,
    p: int,
    q: int,
) -> (r: (int, int))
    requires
        commands::is_meeting_list(files, commands::transcripts_of(entries), folder),
        0 <= p < q < files.len(),
    ensures
        ({
            let ts = commands::transcripts_of(entries);
            let (a, b) = r;
            &&& 0 <= a < ts.len() && 0 <= b < ts.len() && a != b
            &&& files[p].path@ == folder.joined(ts[a].name@)
            &&& files[q].path@ == folder.joined(ts[b].name@)
            &&& ts[a].modified >= ts[b].modified
        }),
{
    let transcripts = commands::transcripts_of(entries);
    let places = choose|places: Seq<usize>|
        {
            &&& #[trigger] order::is_stable_order(commands::change_keys(transcripts), places)
            &&& files.len() == transcripts.len()
            &&& forall|i: int|
                0 <= i < files.len() ==> {
                    &&& (#[trigger] files[i]).name@ == commands::meeting_name(
                        transcripts[places[i] as int].name@,
                    )
                    &&& files[i].path@ == folder.joined(transcripts[places[i] as int].name@)
                }
        };
    let keys = commands::change_keys(transcripts);
    order::sorting_orders(keys, places, p, q);
    order::sorting_keeps_items(keys, places, p, q);
    (places[p] as int, places[q] as int)
}

// ---------------------------------------------------------------------------
// Cleaning up
// ---------------------------------------------------------------------------

proof fn marks_are_dropped(s: Seq<char>)
    requires
        s.len() == 0 || s[0] != '#',
    ensures
        commands::without_marks("# "@ + s) == seq![' '] + s,
{
    reveal_strlit("# ");
    let t = "# "@ + s;
    assert(t.drop_first() =~= seq![' '] + s);
    assert((seq![' '] + s)[0] == ' ');
    reveal_with_fuel(commands::without_marks, 2);
}

/// The title of a meeting is read back from its raw file, without the white
/// space around it.
pub proof fn titles_are_read_back(m: store::MetaModel, rest: Seq<char>)
    requires
        !m.title.contains('\n'),
        m.title.len() == 0 || m.title[0] != '#',
    ensures
        commands::title_of(store::header_text(m) + rest) == text::trimmed(m.title),
{
    let raw = store::header_text(m) + rest;
    reveal_strlit("# ");
    reveal_strlit("\n\n- Started: ");
    let line = "# "@ + m.title;
    assert forall|k: int| 0 <= k < line.len() implies raw[k] != '\n' by {
        if k >= 2 {
            assert(raw[k] == m.title[k - 2]);
            assert(m.title.contains(m.title[k - 2]));
        }
    }
    assert(raw[line.len() as int] == '\n');
    text::lemma_position_is(raw, '\n', line.len() as int);
    assert(raw.take(line.len() as int) =~= line);
    let first = text::lines_of(raw)[0];
    assert(first == text::without_return(line));
    let title = if m.title.len() > 0 && m.title.last() == '\r' {
        m.title.drop_last()
    } else {
        m.title
    };
    assert(first =~= "# "@ + title) by {
        if m.title.len() > 0 {
            assert(line.last() == m.title.last());
        }
    }
    marks_are_dropped(title);
    spaces_do_not_count(title);
    if title != m.title {
        assert(m.title =~= title.push('\r'));
        returns_do_not_count(title);
    }
}

proof fn spaces_do_not_count(s: Seq<char>)
    ensures
        text::trimmed(seq![' '] + s) == text::trimmed(s),
{
    let t = seq![' '] + s;
    assert(text::is_white_space(t[0]));
    assert(t.drop_first() =~= s);
}

proof fn returns_do_not_count(s: Seq<char>)
    ensures
        text::trimmed(s.push('\r')) == text::trimmed(s),
    decreases s.len(),
{
    let t = s.push('\r');
    if s.len() == 0 {
        assert(t.drop_first() =~= s);
    } else if text::is_white_space(s[0]) {
        assert(t.drop_first() =~= s.drop_first().push('\r'));
        returns_do_not_count(s.drop_first());
    } else {
        assert(t.drop_last() =~= s);
    }
}

/// A cleanup that is complete publishes each of its cleaned sections.
pub proof fn whole_cleanups_hold_their_sections(r: RunModel, i: int)
    requires
        r.is_complete(),
        0 <= i < r.sections.len(),
    ensures
        text::occurs(r.whole(), r.cleaned[i]),
{
    text_laws::joined_parts_are_kept(r.cleaned, "\n\n"@, i);
}

/// Each section is sent along with the end of the section that came back last, and
/// the first one with nothing.
pub proof fn sections_follow_the_one_before(r: RunModel, x: Seq<char>) -> (before: Seq<char>)
    ensures
        text::ink(x) == before + text::ink(
            (RunModel { cleaned: r.cleaned.push(x), ..r }).context(),
        ),
        text::ink(x).len() > 0 ==> text::ink(
            (RunModel { cleaned: r.cleaned.push(x), ..r }).context(),
        ).len() > 0,
        r.cleaned.len() == 0 ==> r.context().len() == 0,
{
    let n = RunModel { cleaned: r.cleaned.push(x), ..r };
    assert(n.cleaned.last() == x);
    cleanup_laws::contexts_are_the_end(x)
}

/// A cleanup goes over the whole transcript: the visible text of the sections that
/// it begins with is that of the transcript.
pub proof fn cleanups_cover_the_transcript(raw: Seq<char>)
    ensures
        cleanup_laws::ink_of_all(RunModel::initial(raw).sections) == text::ink(raw),
        RunModel::initial(raw).cleaned.len() == 0,
{
    cleanup_laws::sections_keep_text(raw, cleanup::SECTION_BUDGET as nat);
}

// ---------------------------------------------------------------------------
// Models
// ---------------------------------------------------------------------------

/// A model that is missing is fetched to its own place, from the address that
/// was given for it or else from its own; one that is there is not fetched.
pub proof fn missing_models_are_fetched(exists_already: bool, given: Seq<char>, url: Seq<char>, dest: PathModel)
    ensures
        ({
            let d = models::fetched(exists_already, given, url, dest);
            &&& exists_already ==> d.len() == 0
            &&& !exists_already ==> d.len() == 1 && d[0].dest == dest
            &&& !exists_already && given.len() > 0 ==> d[0].url == given
            &&& !exists_already && given.len() == 0 ==> d[0].url == url
        }),
{
}

/// The two models lie in different files of one folder.
pub proof fn models_lie_apart(data_dir: PathModel)
    ensures
        models::paths_in(data_dir).segmentation != models::paths_in(data_dir).speaker,
        models::paths_in(data_dir).segmentation.names.drop_last() == models::paths_in(
            data_dir,
        ).speaker.names.drop_last(),
{
    let a = models::paths_in(data_dir).segmentation;
    let b = models::paths_in(data_dir).speaker;
    reveal_strlit("segmentation_pyannote3.onnx");
    reveal_strlit("speaker_titanet.onnx");
    assert(a.names.last().len() != b.names.last().len());
    assert(a.names.drop_last() =~= b.names.drop_last());
}

// ---------------------------------------------------------------------------
// Starting
// ---------------------------------------------------------------------------

/// A meeting runs with the language that it was started with, where one is given,
/// and else with the configured one; a change is noticed.
pub proof fn meetings_run_in_the_wanted_language(c: ConfigModel, wanted: Seq<char>)
    ensures
        text::ink(wanted).len() > 0 ==> (if commands::switches_language(c, Some(wanted)) {
            wanted
        } else {
            c.target_language
        }) == wanted,
        text::ink(wanted).len() == 0 ==> !commands::switches_language(c, Some(wanted)),
        !commands::switches_language(c, None),
        !commands::switches_language(c, Some(c.target_language)),
{
    text_laws::ink_of_blank(wanted);
}

/// The address that tells whether the key works names the key.
pub proof fn keys_are_tried(api_key: Seq<char>)
    ensures
        text::occurs(commands::connectivity_url(api_key), "?key="@ + api_key + "&"@),
{
    let url = commands::connectivity_url(api_key);
    reveal_strlit("/models?key=");
    reveal_strlit("?key=");
    reveal_strlit("&");
    reveal_strlit("&pageSize=1");
    let part = "?key="@ + api_key + "&"@;
    let at = REST_BASE@.len() as int + 7;
    assert(url.subrange(at, at + part.len()) =~= part);
    assert(text::occurs_at(url, part, at));
}

} // verus!
