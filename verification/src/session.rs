//! Meeting session.
//!
//! The state of one running meeting and what it does when audio, a message of
//! the live connection, a speaker change, a control or a timer comes in. Each
//! event gives a list of actions: entries to write and show, status changes,
//! audio to play, connections to open. Whoever runs the meeting performs them.
use vstd::prelude::*;
use crate::config;
use crate::config::{AppConfig, ConfigModel};
use crate::error::{ErrorModel, SallyError};
use crate::gemini::live::{LiveEvent, LiveModel};
use crate::lang;
use crate::labels;
use crate::labels::sorted_unique;
use crate::store;
use crate::store::{render_entry, MeetingStore, RecoveryJournal, StoreModel};
use crate::text;
use crate::timeline;
use crate::timeline::{Assembler, AssemblerModel, EntryKind, EntryModel, PartialEntry, PartialModel,
    TimelineEntry};

verus! {

/// Gaps shorter than this after a reconnect are not marked.
pub const GAP_MARK_THRESHOLD_MS: u64 = 2_000;

/// Reconnect backoff in seconds: one, doubling to this cap.
pub const MAX_BACKOFF_S: u64 = 30;

/// Interval between journal snapshots in seconds.
pub const JOURNAL_INTERVAL_S: u64 = 5;

/// A turn left open this long without new fragments is finalized, so that no
/// provisional entry grows for ever.
pub const TURN_IDLE_FLUSH_MS: u64 = 7_000;

/// A speaker-change boundary only splits an entry that already carries this
/// much original text; anything shorter reads fine on one line.
pub const MIN_SPLIT_CHARS: usize = 12;

/// A turn open this long is split even without a boundary, so that one
/// uninterrupted speaker never accumulates an unreadably long block.
pub const MAX_TURN_DURATION_MS: u64 = 60_000;

/// A pending split waits for the end of a sentence, but for no more than this
/// much additional text.
pub const PENDING_SPLIT_MAX_EXTRA_CHARS: usize = 160;

/// A connection that closes within this time was rejected at setup.
pub const EARLY_CLOSE_MS: u64 = 5_000;

/// What the user can do to a running meeting.
#[derive(Debug, Clone, Copy, PartialEq, Eq, Structural)]
pub enum Control {
    Pause,
    Resume,
    Stop,
    /// Toggle translated-voice readout mid-meeting.
    SetReadout(bool),
}

/// What is left of a meeting when it ends.
pub struct ReviewData {
    pub store: MeetingStore,
    pub speakers: Vec<String>,
}

/// When a chunk of mixed audio was heard, and in which lanes someone spoke.
#[derive(Debug, Clone, Copy, PartialEq, Eq, Structural)]
pub struct ChunkInfo {
    pub t_ms: u64,
    pub mic_active: bool,
    pub system_active: bool,
}

/// One thing to do for a meeting.
pub enum Action {
    /// Append `block` to the raw file and show the entry; what the live panels
    /// showed is gone.
    Entry { entry: TimelineEntry, block: String },
    /// Show what is not yet sealed.
    Partial(PartialEntry),
    /// Report the state of the meeting.
    Status { state: &'static str, detail: String },
    /// Play spoken translation.
    Play(Vec<i16>),
    /// Drop spoken translation that has not been played yet.
    StopPlayback,
    /// Keep trying to open a live connection, the first time after a delay.
    Connect { api_version: String, delay_s: u64 },
}

/// An [`Action`] by its characters.
pub enum ActionModel {
    Entry(EntryModel, Seq<char>),
    Partial(PartialModel),
    Status(Seq<char>, Seq<char>),
    Play(Seq<i16>),
    StopPlayback,
    Connect(Seq<char>, nat),
}

impl View for Action {
    type V = ActionModel;

    open spec fn view(&self) -> ActionModel {
        match self {
            Action::Entry { entry, block } => ActionModel::Entry(entry@, block@),
            Action::Partial(p) => ActionModel::Partial(p@),
            Action::Status { state, detail } => ActionModel::Status(state@, detail@),
            Action::Play(v) => ActionModel::Play(v@),
            Action::StopPlayback => ActionModel::StopPlayback,
            Action::Connect { api_version, delay_s } => ActionModel::Connect(
                api_version@,
                *delay_s as nat,
            ),
        }
    }
}

/// The actions of a list by their characters.
pub open spec fn actions(v: Seq<Action>) -> Seq<ActionModel> {
    Seq::new(v.len(), |i: int| v[i]@)
}

/// A running meeting.
pub struct Meeting {
    store: MeetingStore,
    target_language: String,
    assembler: Assembler,
    /// Everything sealed so far, for the review at the end.
    sealed: Vec<TimelineEntry>,
    paused: bool,
    last_chunk_ms: u64,
    last_fragment_ms: u64,
    readout_enabled: bool,
    /// Language of the open entry's original text. Latin text has none here.
    open_lang: Option<&'static str>,
    /// A speaker change waits for the end of the sentence.
    rotate_pending: bool,
    pending_since_len: usize,
    connected: bool,
    connected_at_ms: Option<u64>,
    connecting: bool,
    api_version: String,
    reconnect_delay_s: u64,
    early_closes: u32,
    gap_start_ms: Option<u64>,
}

/// What a [`Meeting`] holds.
pub struct MeetingModel {
    pub store: StoreModel,
    pub target_language: Seq<char>,
    pub turns: AssemblerModel,
    pub sealed: Seq<EntryModel>,
    pub paused: bool,
    pub last_chunk_ms: u64,
    pub last_fragment_ms: u64,
    pub readout_enabled: bool,
    pub open_lang: Option<Seq<char>>,
    pub rotate_pending: bool,
    pub pending_since_len: nat,
    pub connected: bool,
    pub connected_at_ms: Option<u64>,
    pub connecting: bool,
    pub api_version: Seq<char>,
    pub reconnect_delay_s: nat,
    pub early_closes: nat,
    pub gap_start_ms: Option<u64>,
}

impl View for Meeting {
    type V = MeetingModel;

    closed spec fn view(&self) -> MeetingModel {
        MeetingModel {
            store: self.store@,
            target_language: self.target_language@,
            turns: self.assembler@,
            sealed: timeline::entries(self.sealed@),
            paused: self.paused,
            last_chunk_ms: self.last_chunk_ms,
            last_fragment_ms: self.last_fragment_ms,
            readout_enabled: self.readout_enabled,
            open_lang: lang::tag_model(self.open_lang),
            rotate_pending: self.rotate_pending,
            pending_since_len: self.pending_since_len as nat,
            connected: self.connected,
            connected_at_ms: self.connected_at_ms,
            connecting: self.connecting,
            api_version: self.api_version@,
            reconnect_delay_s: self.reconnect_delay_s as nat,
            early_closes: self.early_closes as nat,
            gap_start_ms: self.gap_start_ms,
        }
    }
}

// ---------------------------------------------------------------------------
// Model
// ---------------------------------------------------------------------------

/// The delay before the next attempt of a connection that keeps failing.
pub open spec fn doubled(delay_s: nat) -> nat {
    if 2 * delay_s < MAX_BACKOFF_S {
        2 * delay_s
    } else {
        MAX_BACKOFF_S as nat
    }
}

/// The delay before the first attempt after another close.
pub open spec fn escalated(delay_s: nat) -> nat {
    if 2 * delay_s + 1 < MAX_BACKOFF_S {
        2 * delay_s + 1
    } else {
        MAX_BACKOFF_S as nat
    }
}

pub open spec fn other_version(v: Seq<char>) -> Seq<char> {
    if v == "v1alpha"@ {
        "v1beta"@
    } else {
        "v1alpha"@
    }
}

/// The server did not understand the setup message.
pub open spec fn is_schema_reject(reason: Seq<char>) -> bool {
    text::occurs(reason, "Unknown name"@) || text::occurs(reason, "Invalid JSON payload"@)
}

/// `now` is `d` milliseconds or more after `then`.
pub open spec fn passed(then: u64, now: u64, d: u64) -> bool {
    (if now >= then {
        now - then
    } else {
        0
    }) >= d
}

/// The language of a fragment as far as it can split an entry: Latin text has
/// none.
pub open spec fn spoken(s: Seq<char>) -> Option<Seq<char>> {
    if lang::detected(s) == Some("latin"@) {
        None
    } else {
        lang::detected(s)
    }
}

pub open spec fn status(state: Seq<char>, detail: Seq<char>) -> ActionModel {
    ActionModel::Status(state, detail)
}

impl MeetingModel {
    /// A meeting that has just begun.
    pub open spec fn initial(store: StoreModel, c: ConfigModel) -> MeetingModel {
        MeetingModel {
            store,
            target_language: c.target_language,
            turns: AssemblerModel::initial(),
            sealed: Seq::empty(),
            paused: false,
            last_chunk_ms: 0,
            last_fragment_ms: 0,
            readout_enabled: c.readout_enabled,
            open_lang: None,
            rotate_pending: false,
            pending_since_len: 0,
            connected: false,
            connected_at_ms: None,
            connecting: true,
            api_version: c.live_api_version,
            reconnect_delay_s: 0,
            early_closes: 0,
            gap_start_ms: None,
        }
    }

    pub open spec fn wf(self) -> bool {
        &&& self.store.wf()
        &&& self.turns.wf()
        &&& self.early_closes < 3
        &&& self.reconnect_delay_s <= MAX_BACKOFF_S
    }

    /// The counters have room for one more event with `chunks` chunks.
    pub open spec fn room(self, chunks: nat) -> bool {
        &&& self.turns.next_index <= u64::MAX - 8
        &&& self.turns.open matches Some(e) ==> e.speech_chunks + chunks <= u32::MAX
            && e.mic_active_chunks + chunks <= u32::MAX
    }

    /// What is done with sealed entries.
    pub open spec fn entry_actions(self, es: Seq<EntryModel>) -> Seq<ActionModel> {
        es.map_values(|e: EntryModel| ActionModel::Entry(e, store::entry_text(e, self.target_language)))
    }

    /// What the live panels show.
    pub open spec fn shown(self) -> Seq<ActionModel> {
        match self.turns.live() {
            Some(p) => seq![ActionModel::Partial(p)],
            None => Seq::empty(),
        }
    }

    /// The open entry becomes the closing one.
    pub open spec fn rotated(self) -> (MeetingModel, Seq<ActionModel>) {
        let (turns, e) = self.turns.rotated();
        (
            MeetingModel { turns, sealed: self.sealed + timeline::listed(e), ..self },
            self.entry_actions(timeline::listed(e)),
        )
    }

    /// Everything is sealed.
    pub open spec fn finalized(self) -> (MeetingModel, Seq<ActionModel>) {
        let (turns, es) = self.turns.finalized();
        (
            MeetingModel { turns, sealed: self.sealed + es, ..self },
            self.entry_actions(es),
        )
    }

    /// No language and no split pending for a new entry.
    pub open spec fn afresh(self) -> MeetingModel {
        MeetingModel { open_lang: None, rotate_pending: false, ..self }
    }

    // -- audio ---------------------------------------------------------------

    /// The meeting after chunks of audio.
    pub open spec fn heard(self, chunks: Seq<ChunkInfo>) -> MeetingModel
        decreases chunks.len(),
    {
        if chunks.len() == 0 {
            self
        } else {
            let m = self.heard(chunks.drop_last());
            let c = chunks.last();
            MeetingModel {
                last_chunk_ms: c.t_ms,
                turns: m.turns.with_activity(c.mic_active, c.system_active),
                ..m
            }
        }
    }

    /// No fragment for longer than an idle turn may last.
    pub open spec fn idle(self) -> bool {
        self.last_fragment_ms > 0 && passed(
            self.last_fragment_ms,
            self.last_chunk_ms,
            (TURN_IDLE_FLUSH_MS + 1) as u64,
        )
    }

    /// The open entry is long enough in text and time to be split.
    pub open spec fn overlong(self) -> bool {
        &&& self.turns.open_original().len() >= MIN_SPLIT_CHARS
        &&& self.turns.open matches Some(e) && passed(
            e.start_ms,
            self.last_chunk_ms,
            MAX_TURN_DURATION_MS,
        )
    }

    pub open spec fn on_frame(self, chunks: Seq<ChunkInfo>) -> (MeetingModel, Seq<ActionModel>) {
        if self.paused {
            (self, Seq::empty())
        } else {
            let m = self.heard(chunks);
            if m.idle() {
                let (n, out) = m.finalized();
                (MeetingModel { last_fragment_ms: 0, ..n.afresh() }, out)
            } else if m.overlong() {
                let (n, out) = m.rotated();
                (n.afresh(), out + n.shown())
            } else {
                (m, Seq::empty())
            }
        }
    }

    // -- live connection -------------------------------------------------------

    pub open spec fn on_ready(self) -> (MeetingModel, Seq<ActionModel>) {
        let now = match self.gap_start_ms {
            Some(t) if t > self.last_chunk_ms => t,
            _ => self.last_chunk_ms,
        };
        let m = MeetingModel {
            early_closes: 0,
            reconnect_delay_s: 0,
            gap_start_ms: None,
            ..self
        };
        let live = if self.paused {
            Seq::empty()
        } else {
            seq![status("live"@, Seq::empty())]
        };
        if self.gap_start_ms matches Some(start) && now - start >= GAP_MARK_THRESHOLD_MS {
            let (turns, e) = m.turns.with_gap(self.gap_start_ms->0, now);
            (
                MeetingModel { turns, sealed: m.sealed.push(e), ..m },
                m.entry_actions(seq![e]) + live,
            )
        } else {
            (m, live)
        }
    }

    /// A pending split fires when the text before a fragment already ends a
    /// sentence: the fragment starts the new voice's entry.
    pub open spec fn split_before(self) -> (MeetingModel, Seq<ActionModel>) {
        if self.rotate_pending && self.turns.at_sentence_end() {
            let (m, out) = self.rotated();
            (m.afresh(), out)
        } else {
            (self, Seq::empty())
        }
    }

    /// The spoken language changed: each entry stays in one language.
    pub open spec fn split_language(self, l: Option<Seq<char>>) -> (MeetingModel, Seq<ActionModel>) {
        if l is Some && self.open_lang is Some && l != self.open_lang
            && self.turns.open_original().len() >= MIN_SPLIT_CHARS {
            let (m, out) = self.rotated();
            (MeetingModel { rotate_pending: false, ..m }, out)
        } else {
            (self, Seq::empty())
        }
    }

    /// A pending split fires when a fragment has completed the sentence, or
    /// when too much text has come in without one.
    pub open spec fn split_after(self) -> (MeetingModel, Seq<ActionModel>) {
        if self.rotate_pending && (self.turns.at_sentence_end() || self.turns.open_original().len()
            > self.pending_since_len + PENDING_SPLIT_MAX_EXTRA_CHARS) {
            let (m, out) = self.rotated();
            (m.afresh(), out)
        } else {
            (self, Seq::empty())
        }
    }

    pub open spec fn on_original(self, s: Seq<char>) -> (MeetingModel, Seq<ActionModel>) {
        self.on_original_in(s, spoken(s))
    }

    /// A fragment of the original text in language `l`.
    pub open spec fn on_original_in(self, s: Seq<char>, l: Option<Seq<char>>) -> (
        MeetingModel,
        Seq<ActionModel>,
    ) {
        let (a, out_a) = self.split_before();
        let (b, out_b) = a.split_language(l);
        let (e, out_e) = b.extended(s, l);
        (e, out_a + out_b + out_e)
    }

    /// The open entry goes on with a fragment in language `l`.
    pub open spec fn extended(self, s: Seq<char>, l: Option<Seq<char>>) -> (
        MeetingModel,
        Seq<ActionModel>,
    ) {
        let c = MeetingModel {
            open_lang: if l is Some {
                l
            } else {
                self.open_lang
            },
            turns: self.turns.with_original(s, self.last_chunk_ms),
            ..self
        };
        let (d, out_d) = c.split_after();
        let e = MeetingModel { last_fragment_ms: self.last_chunk_ms, ..d };
        (e, out_d + e.shown())
    }

    pub open spec fn on_translated(self, s: Seq<char>) -> (MeetingModel, Seq<ActionModel>) {
        let m = MeetingModel {
            turns: self.turns.with_translated(s, self.last_chunk_ms),
            last_fragment_ms: self.last_chunk_ms,
            ..self
        };
        (m, m.shown())
    }

    /// Spoken translation is played for remote speech only: the user's own
    /// words are never read back.
    pub open spec fn on_audio(self, samples: Seq<i16>) -> Seq<ActionModel> {
        if self.readout_enabled && !self.paused && !self.turns.mic_dominated() && samples.len() > 0 {
            seq![ActionModel::Play(samples)]
        } else {
            Seq::empty()
        }
    }

    pub open spec fn on_turn_complete(self) -> (MeetingModel, Seq<ActionModel>) {
        let (m, out) = self.rotated();
        (MeetingModel { last_fragment_ms: 0, ..m.afresh() }, out)
    }

    /// The connection that closes at `now_ms` was rejected at setup.
    pub open spec fn closes_early(self, now_ms: u64) -> bool {
        self.connected_at_ms matches Some(t) && !passed(t, now_ms, EARLY_CLOSE_MS)
    }

    /// This close makes the session try the other API version.
    pub open spec fn flips(self, reason: Seq<char>, now_ms: u64) -> bool {
        self.closes_early(now_ms) && (is_schema_reject(reason) || self.early_closes + 1 >= 3)
    }

    pub open spec fn on_closed(self, reason: Seq<char>, now_ms: u64) -> (
        MeetingModel,
        Seq<ActionModel>,
    ) {
        let early = self.closes_early(now_ms);
        let flip = self.flips(reason, now_ms);
        let m = MeetingModel {
            connected: false,
            connected_at_ms: None,
            gap_start_ms: match self.gap_start_ms {
                Some(t) => Some(t),
                None => Some(self.last_chunk_ms),
            },
            early_closes: if flip {
                0
            } else if early {
                self.early_closes + 1
            } else {
                self.early_closes
            },
            api_version: if flip {
                other_version(self.api_version)
            } else {
                self.api_version
            },
            reconnect_delay_s: escalated(self.reconnect_delay_s),
            connecting: true,
            ..self
        };
        let report = seq![status("reconnecting"@, reason)];
        (
            m,
            if self.connecting {
                report
            } else {
                report.push(ActionModel::Connect(m.api_version, m.reconnect_delay_s))
            },
        )
    }

    /// `None` stands for a connection that ended without a close.
    pub open spec fn on_live(self, event: Option<LiveModel>, now_ms: u64) -> (
        MeetingModel,
        Seq<ActionModel>,
    ) {
        match event {
            Some(LiveModel::Ready) => self.on_ready(),
            Some(LiveModel::Original(s)) => self.on_original(s),
            Some(LiveModel::Translated(s)) => self.on_translated(s),
            Some(LiveModel::Audio(v)) => (self, self.on_audio(v)),
            Some(LiveModel::TurnComplete) => self.on_turn_complete(),
            Some(LiveModel::Closed(reason)) => self.on_closed(reason, now_ms),
            None => self.on_closed("connection lost"@, now_ms),
        }
    }

    // -- everything else -------------------------------------------------------

    /// A remote voice handed off to a different one. The split waits for the
    /// end of the sentence: transcription lags the audio, and the previous
    /// speaker's last words are still to come.
    pub open spec fn on_boundary(self) -> MeetingModel {
        if !self.paused && !self.turns.mic_dominated() && self.turns.open_original().len()
            >= MIN_SPLIT_CHARS {
            MeetingModel {
                rotate_pending: true,
                pending_since_len: self.turns.open_original().len(),
                ..self
            }
        } else {
            self
        }
    }

    pub open spec fn on_connected(self, now_ms: u64) -> MeetingModel {
        MeetingModel {
            connecting: false,
            connected: true,
            connected_at_ms: Some(now_ms),
            ..self
        }
    }

    pub open spec fn on_control(self, c: Control) -> (MeetingModel, Seq<ActionModel>) {
        match c {
            Control::Pause => (
                MeetingModel { paused: true, ..self },
                seq![ActionModel::StopPlayback, status("paused"@, Seq::empty())],
            ),
            Control::Resume => (
                MeetingModel { paused: false, ..self },
                seq![
                    status(
                        if self.connected {
                            "live"@
                        } else {
                            "reconnecting"@
                        },
                        Seq::empty(),
                    ),
                ],
            ),
            Control::SetReadout(on) => (
                MeetingModel { readout_enabled: on, ..self },
                if on {
                    Seq::empty()
                } else {
                    seq![ActionModel::StopPlayback]
                },
            ),
            Control::Stop => (self, Seq::empty()),
        }
    }

    /// The transcript cannot be written: that is told at once, and the meeting
    /// pauses.
    pub open spec fn on_storage_failure(self, detail: Seq<char>) -> (
        MeetingModel,
        Seq<ActionModel>,
    ) {
        let (m, out) = self.on_control(Control::Pause);
        (m, seq![status("storage-error"@, detail)] + out)
    }

    pub open spec fn on_end(self) -> (MeetingModel, Seq<ActionModel>) {
        let (m, out) = self.finalized();
        (m, out.push(status("ended"@, Seq::empty())))
    }
}

/// The speech entries of a timeline name their speakers.
pub open spec fn speaks(sealed: Seq<EntryModel>, name: Seq<char>) -> bool {
    exists|i: int|
        0 <= i < sealed.len() && (#[trigger] sealed[i]).kind == EntryKind::Speech
            && sealed[i].speaker == name
}

// ---------------------------------------------------------------------------
// Starting
// ---------------------------------------------------------------------------

/// A meeting needs an API key.
pub fn check_start(config: &AppConfig) -> (r: Result<(), SallyError>)
    ensures
        text::is_blank(config@.api_key) ==> (r matches Err(e) && e@ == ErrorModel::Config(
            "missing Gemini API key; finish setup first"@,
        )),
        !text::is_blank(config@.api_key) ==> r is Ok,
{
    if text::blank(&config.api_key) {
        return Err(
            SallyError::Config(text::owned("missing Gemini API key; finish setup first")),
        );
    }
    Ok(())
}

/// What to warn of when one application was to be captured and could not be.
pub fn capture_warning(capture_app: &str, app_capture_active: bool) -> (r: Option<String>)
    ensures
        r is Some <==> capture_app@.len() > 0 && !app_capture_active,
        r matches Some(s) ==> s@ == "'"@ + capture_app@
            + "' has no active audio session — capturing the entire system instead. Start audio in that app and restart the meeting to capture it alone."@,
{
    if capture_app.is_empty() || app_capture_active {
        return None;
    }
    let mut s = text::owned("'");
    s.push_str(capture_app);
    s.push_str(
        "' has no active audio session — capturing the entire system instead. Start audio in that app and restart the meeting to capture it alone.",
    );
    Some(s)
}

/// The delay before the next attempt of a connection that keeps failing.
pub fn next_backoff(delay_s: u64) -> (r: u64)
    ensures
        r == doubled(delay_s as nat),
{
    if delay_s < MAX_BACKOFF_S / 2 {
        2 * delay_s
    } else {
        MAX_BACKOFF_S
    }
}

// ---------------------------------------------------------------------------
// Meeting
// ---------------------------------------------------------------------------

proof fn actions_push(v: Seq<Action>, a: Action)
    ensures
        actions(v.push(a)) == actions(v).push(a@),
{
    assert(actions(v.push(a)) =~= actions(v).push(a@));
}

impl Meeting {
    /// A meeting that begins, and what to do first.
    pub fn new(store: MeetingStore, config: &AppConfig) -> (r: (Meeting, Vec<Action>))
        requires
            store@.wf(),
        ensures
            r.0@ == MeetingModel::initial(store@, config@),
            r.0@.wf(),
            r.0@.room(0),
            actions(r.1@) == seq![
                status("connecting"@, Seq::empty()),
                ActionModel::Connect(config@.live_api_version, 0),
            ],
    {
        let mut out: Vec<Action> = Vec::new();
        out.push(Action::Status { state: "connecting", detail: String::new() });
        out.push(
            Action::Connect { api_version: config.live_api_version.clone(), delay_s: 0 },
        );
        let m = Meeting {
            store,
            target_language: config.target_language.clone(),
            assembler: Assembler::new(),
            sealed: Vec::new(),
            paused: false,
            last_chunk_ms: 0,
            last_fragment_ms: 0,
            readout_enabled: config.readout_enabled,
            open_lang: None,
            rotate_pending: false,
            pending_since_len: 0,
            connected: false,
            connected_at_ms: None,
            connecting: true,
            api_version: config.live_api_version.clone(),
            reconnect_delay_s: 0,
            early_closes: 0,
            gap_start_ms: None,
        };
        assert(timeline::entries(m.sealed@) =~= Seq::empty());
        assert(actions(out@) =~= seq![
            status("connecting"@, Seq::empty()),
            ActionModel::Connect(config@.live_api_version, 0),
        ]);
        (m, out)
    }

    /// Whether the counters have room for one more event with `chunks` chunks.
    pub fn has_room(&self, chunks: usize) -> (r: bool)
        ensures
            r == self@.room(chunks as nat),
    {
        self.assembler.has_room(8, chunks)
    }

    /// Whether audio is to be ignored for now.
    pub fn is_paused(&self) -> (r: bool)
        ensures
            r == self@.paused,
    {
        self.paused
    }

    /// Whether there is a live connection.
    pub fn is_connected(&self) -> (r: bool)
        ensures
            r == self@.connected,
    {
        self.connected
    }

    fn emit(&mut self, entry: TimelineEntry, out: &mut Vec<Action>)
        ensures
            final(self)@ == (MeetingModel { sealed: old(self)@.sealed.push(entry@), ..old(self)@ }),
            actions(final(out)@) == actions(old(out)@) + old(self)@.entry_actions(seq![entry@]),
    {
        let block = render_entry(&entry, &self.target_language);
        let shown = entry.clone();
        let ghost before = self.sealed@;
        self.sealed.push(entry);
        assert(timeline::entries(self.sealed@) =~= timeline::entries(before).push(entry@));
        let ghost done = out@;
        out.push(Action::Entry { entry: shown, block });
        proof {
            actions_push(done, out@.last());
            assert(old(self)@.entry_actions(seq![entry@]) =~= seq![out@.last()@]);
            assert(actions(done).push(out@.last()@) =~= actions(done) + seq![out@.last()@]);
        }
    }

    fn rotate(&mut self, out: &mut Vec<Action>)
        requires
            old(self)@.turns.next_index < u64::MAX,
        ensures
            final(self)@ == old(self)@.rotated().0,
            actions(final(out)@) == actions(old(out)@) + old(self)@.rotated().1,
    {
        match self.assembler.rotate_turn() {
            Some(entry) => {
                self.emit(entry, out);
                assert(self@.sealed =~= old(self)@.rotated().0.sealed);
            },
            None => {
                assert(self@.sealed =~= old(self)@.rotated().0.sealed);
                assert(old(self)@.rotated().1 =~= Seq::empty());
                assert(actions(out@) + Seq::<ActionModel>::empty() =~= actions(out@));
            },
        }
    }

    fn finalize_entry(&mut self, out: &mut Vec<Action>)
        requires
            old(self)@.turns.next_index < u64::MAX - 1,
        ensures
            final(self)@ == old(self)@.finalized().0,
            actions(final(out)@) == actions(old(out)@) + old(self)@.finalized().1,
    {
        let es = self.assembler.finalize_turn();
        let ghost m = self@;
        let ghost all = timeline::entries(es@);
        let mut i: usize = 0;
        assert(m.sealed + all.take(0) =~= m.sealed);
        assert(m.entry_actions(all.take(0)) =~= Seq::empty());
        assert(actions(out@) + Seq::<ActionModel>::empty() =~= actions(out@));
        while i < es.len()
            invariant
                i <= es.len(),
                all == timeline::entries(es@),
                self@ == (MeetingModel { sealed: m.sealed + all.take(i as int), ..m }),
                actions(out@) == actions(old(out)@) + m.entry_actions(all.take(i as int)),
            decreases es.len() - i,
        {
            let ghost k = self@;
            let ghost done = actions(out@);
            self.emit(es[i].clone(), out);
            proof {
                assert(all.take(i + 1) =~= all.take(i as int).push(es[i as int]@));
                assert(self@.sealed =~= m.sealed + all.take(i + 1));
                assert(k.entry_actions(seq![es[i as int]@]) =~= m.entry_actions(
                    seq![es[i as int]@],
                ));
                assert(m.entry_actions(all.take(i + 1)) =~= m.entry_actions(all.take(i as int))
                    + m.entry_actions(seq![es[i as int]@]));
                assert(actions(out@) =~= actions(old(out)@) + m.entry_actions(all.take(i + 1)));
            }
            i += 1;
        }
        assert(all.take(es.len() as int) =~= all);
    }

    fn emit_partial(&self, out: &mut Vec<Action>)
        ensures
            actions(final(out)@) == actions(old(out)@) + self@.shown(),
    {
        match self.assembler.partial() {
            Some(p) => {
                let ghost done = out@;
                out.push(Action::Partial(p));
                proof {
                    actions_push(done, out@.last());
                    assert(actions(done).push(out@.last()@) =~= actions(done) + self@.shown());
                }
            },
            None => {
                assert(actions(out@) + self@.shown() =~= actions(out@));
            },
        }
    }

    /// One frame of captured audio came in, and made these chunks.
    pub fn handle_frame(&mut self, chunks: &Vec<ChunkInfo>) -> (out: Vec<Action>)
        requires
            old(self)@.wf(),
            old(self)@.room(chunks@.len()),
        ensures
            final(self)@.wf(),
            (final(self)@, actions(out@)) == old(self)@.on_frame(chunks@),
    {
        let mut out: Vec<Action> = Vec::new();
        assert(actions(out@) =~= Seq::empty());
        if self.paused {
            return out;
        }
        let mut i: usize = 0;
        assert(chunks@.take(0) =~= Seq::empty());
        while i < chunks.len()
            invariant
                i <= chunks.len(),
                self@ == old(self)@.heard(chunks@.take(i as int)),
                self@.turns.wf(),
                self@.turns.next_index == old(self)@.turns.next_index,
                self@.room((chunks@.len() - i) as nat),
            decreases chunks.len() - i,
        {
            let c = chunks[i];
            assert(chunks@.take(i + 1).drop_last() =~= chunks@.take(i as int));
            self.last_chunk_ms = c.t_ms;
            self.assembler.push_activity(c.mic_active, c.system_active, c.t_ms);
            i += 1;
        }
        assert(chunks@.take(i as int) =~= chunks@);
        proof {
            heard_keeps(*old(self), chunks@);
        }
        let ghost m = self@;
        if self.last_fragment_ms > 0 && self.last_chunk_ms.saturating_sub(self.last_fragment_ms)
            > TURN_IDLE_FLUSH_MS {
            self.finalize_entry(&mut out);
            self.open_lang = None;
            self.rotate_pending = false;
            self.last_fragment_ms = 0;
            assert(actions(out@) =~= m.finalized().1);
        } else if self.assembler.open_original_len() >= MIN_SPLIT_CHARS && self.turn_is_long() {
            self.rotate(&mut out);
            self.open_lang = None;
            self.rotate_pending = false;
            self.emit_partial(&mut out);
            assert(actions(out@) =~= m.rotated().1 + self@.shown());
            assert(self@ == m.rotated().0.afresh());
        }
        out
    }

    fn turn_is_long(&self) -> (r: bool)
        ensures
            r == (self@.turns.open matches Some(e) && passed(
                e.start_ms,
                self@.last_chunk_ms,
                MAX_TURN_DURATION_MS,
            )),
    {
        match self.assembler.open_start_ms() {
            Some(start) => self.last_chunk_ms.saturating_sub(start) >= MAX_TURN_DURATION_MS,
            None => false,
        }
    }

    fn live_ready(&mut self, out: &mut Vec<Action>)
        requires
            old(self)@.wf(),
            old(self)@.room(0),
        ensures
            final(self)@.wf(),
            final(self)@ == old(self)@.on_ready().0,
            actions(final(out)@) == actions(old(out)@) + old(self)@.on_ready().1,
    {
        let ghost before = self@;
        let ghost done = actions(out@);
        self.early_closes = 0;
        self.reconnect_delay_s = 0;
        let gap = self.gap_start_ms;
        self.gap_start_ms = None;
        let ghost m = self@;
        if let Some(start) = gap {
            let now: u64 = if start > self.last_chunk_ms {
                start
            } else {
                self.last_chunk_ms
            };
            if now - start >= GAP_MARK_THRESHOLD_MS {
                let entry = self.assembler.gap(start, now);
                self.emit(entry, out);
            }
        }
        let ghost mid = actions(out@);
        if !self.paused {
            let ghost v = out@;
            out.push(Action::Status { state: "live", detail: String::new() });
            proof {
                actions_push(v, out@.last());
            }
        }
        assert(actions(out@) =~= done + before.on_ready().1);
    }

    /// Rotates for a speaker change.
    fn split_turn(&mut self, out: &mut Vec<Action>)
        requires
            old(self)@.wf(),
            old(self)@.turns.next_index < u64::MAX,
        ensures
            final(self)@.wf(),
            final(self)@ == old(self)@.rotated().0.afresh(),
            final(self)@.turns.next_index <= old(self)@.turns.next_index + 1,
            actions(final(out)@) == actions(old(out)@) + old(self)@.rotated().1,
    {
        self.rotate(out);
        self.open_lang = None;
        self.rotate_pending = false;
    }

    fn before_fragment(&mut self, out: &mut Vec<Action>)
        requires
            old(self)@.wf(),
            old(self)@.turns.next_index < u64::MAX,
        ensures
            final(self)@.wf(),
            final(self)@ == old(self)@.split_before().0,
            final(self)@.turns.next_index <= old(self)@.turns.next_index + 1,
            actions(final(out)@) == actions(old(out)@) + old(self)@.split_before().1,
    {
        if self.rotate_pending && self.assembler.open_ends_sentence() {
            self.split_turn(out);
        } else {
            assert(actions(out@) + Seq::<ActionModel>::empty() =~= actions(out@));
        }
    }

    fn on_language(&mut self, l: Option<&'static str>, out: &mut Vec<Action>)
        requires
            old(self)@.wf(),
            old(self)@.turns.next_index < u64::MAX,
        ensures
            final(self)@.wf(),
            final(self)@ == old(self)@.split_language(lang::tag_model(l)).0,
            final(self)@.turns.next_index <= old(self)@.turns.next_index + 1,
            actions(final(out)@) == actions(old(out)@) + old(self)@.split_language(
                lang::tag_model(l),
            ).1,
    {
        if let (Some(f), Some(o)) = (l, self.open_lang) {
            if !text::same_text(f, o) && self.assembler.open_original_len() >= MIN_SPLIT_CHARS {
                self.rotate(out);
                self.rotate_pending = false;
                return;
            }
        }
        assert(actions(out@) + Seq::<ActionModel>::empty() =~= actions(out@));
    }

    fn after_fragment(&mut self, out: &mut Vec<Action>)
        requires
            old(self)@.wf(),
            old(self)@.turns.next_index < u64::MAX,
        ensures
            final(self)@.wf(),
            final(self)@ == old(self)@.split_after().0,
            actions(final(out)@) == actions(old(out)@) + old(self)@.split_after().1,
    {
        if self.rotate_pending && (self.assembler.open_ends_sentence() || self.split_overdue()) {
            self.split_turn(out);
        } else {
            assert(actions(out@) + Seq::<ActionModel>::empty() =~= actions(out@));
        }
    }

    fn live_original(&mut self, s: &str, out: &mut Vec<Action>)
        requires
            old(self)@.wf(),
            old(self)@.room(0),
        ensures
            final(self)@.wf(),
            final(self)@ == old(self)@.on_original(s@).0,
            actions(final(out)@) == actions(old(out)@) + old(self)@.on_original(s@).1,
    {
        let frag_lang = match lang::detect(s) {
            Some(t) => if text::same_text(t, "latin") {
                None
            } else {
                Some(t)
            },
            None => None,
        };
        assert(lang::tag_model(frag_lang) == spoken(s@));
        self.original_in(s, frag_lang, out);
    }

    fn original_in(&mut self, s: &str, frag_lang: Option<&'static str>, out: &mut Vec<Action>)
        requires
            old(self)@.wf(),
            old(self)@.room(0),
        ensures
            final(self)@.wf(),
            final(self)@ == old(self)@.on_original_in(s@, lang::tag_model(frag_lang)).0,
            actions(final(out)@) == actions(old(out)@) + old(self)@.on_original_in(
                s@,
                lang::tag_model(frag_lang),
            ).1,
    {
        self.before_fragment(out);
        self.on_language(frag_lang, out);
        self.extend(s, frag_lang, out);
        assert(actions(out@) =~= actions(old(out)@) + old(self)@.on_original_in(
            s@,
            lang::tag_model(frag_lang),
        ).1);
    }

    fn extend(&mut self, s: &str, frag_lang: Option<&'static str>, out: &mut Vec<Action>)
        requires
            old(self)@.wf(),
            old(self)@.turns.next_index < u64::MAX,
        ensures
            final(self)@.wf(),
            final(self)@ == old(self)@.extended(s@, lang::tag_model(frag_lang)).0,
            actions(final(out)@) == actions(old(out)@) + old(self)@.extended(
                s@,
                lang::tag_model(frag_lang),
            ).1,
    {
        if frag_lang.is_some() {
            self.open_lang = frag_lang;
        }
        let now = self.last_chunk_ms;
        self.assembler.push_original(s, now);
        self.after_fragment(out);
        self.last_fragment_ms = self.last_chunk_ms;
        self.emit_partial(out);
        assert(actions(out@) =~= actions(old(out)@) + old(self)@.extended(
            s@,
            lang::tag_model(frag_lang),
        ).1);
    }

    /// Too much text since a split went pending.
    fn split_overdue(&self) -> (r: bool)
        ensures
            r == (self@.turns.open_original().len() > self@.pending_since_len
                + PENDING_SPLIT_MAX_EXTRA_CHARS),
    {
        let n = self.assembler.open_original_len();
        n > self.pending_since_len && n - self.pending_since_len > PENDING_SPLIT_MAX_EXTRA_CHARS
    }

    fn live_closed(&mut self, reason: &str, now_ms: u64, out: &mut Vec<Action>)
        requires
            old(self)@.wf(),
        ensures
            final(self)@.wf(),
            final(self)@ == old(self)@.on_closed(reason@, now_ms).0,
            actions(final(out)@) == actions(old(out)@) + old(self)@.on_closed(reason@, now_ms).1,
    {
        let ghost m = self@;
        let ghost done = actions(out@);
        self.connected = false;
        if self.gap_start_ms.is_none() {
            self.gap_start_ms = Some(self.last_chunk_ms);
        }
        let early = match self.connected_at_ms {
            Some(t) => now_ms.saturating_sub(t) < EARLY_CLOSE_MS,
            None => false,
        };
        self.connected_at_ms = None;
        let schema_reject = text::contains_text(reason, "Unknown name") || text::contains_text(
            reason,
            "Invalid JSON payload",
        );
        if early {
            self.early_closes = self.early_closes + 1;
            if schema_reject || self.early_closes >= 3 {
                self.early_closes = 0;
                self.api_version = text::owned(
                    if text::same_text(&self.api_version, "v1alpha") {
                        "v1beta"
                    } else {
                        "v1alpha"
                    },
                );
            }
        }
        let longer: u64 = 2 * self.reconnect_delay_s + 1;
        self.reconnect_delay_s = if longer < MAX_BACKOFF_S {
            longer
        } else {
            MAX_BACKOFF_S
        };
        let ghost v = out@;
        out.push(Action::Status { state: "reconnecting", detail: text::owned(reason) });
        proof {
            actions_push(v, out@.last());
        }
        if !self.connecting {
            self.connecting = true;
            let ghost w = out@;
            out.push(
                Action::Connect {
                    api_version: self.api_version.clone(),
                    delay_s: self.reconnect_delay_s,
                },
            );
            proof {
                actions_push(w, out@.last());
            }
        }
        assert(actions(out@) =~= done + m.on_closed(reason@, now_ms).1);
    }

    /// One event of the live connection came in at `now_ms`; `None` when the
    /// connection ended without a close.
    pub fn handle_live_event(&mut self, event: Option<LiveEvent>, now_ms: u64) -> (out: Vec<Action>)
        requires
            old(self)@.wf(),
            old(self)@.room(0),
        ensures
            final(self)@.wf(),
            (final(self)@, actions(out@)) == old(self)@.on_live(
                match event {
                    Some(e) => Some(e@),
                    None => None,
                },
                now_ms,
            ),
    {
        let mut out: Vec<Action> = Vec::new();
        let ghost m = self@;
        assert(actions(out@) =~= Seq::empty());
        match event {
            Some(LiveEvent::Ready) => {
                self.live_ready(&mut out);
                assert(actions(out@) =~= m.on_ready().1);
            },
            Some(LiveEvent::Original(s)) => {
                self.live_original(&s, &mut out);
                assert(actions(out@) =~= m.on_original(s@).1);
            },
            Some(LiveEvent::Translated(s)) => {
                let now = self.last_chunk_ms;
                self.assembler.push_translated(&s, now);
                self.last_fragment_ms = self.last_chunk_ms;
                self.emit_partial(&mut out);
                assert(actions(out@) =~= m.on_translated(s@).1);
            },
            Some(LiveEvent::Audio(samples)) => {
                if self.readout_enabled && !self.paused && !self.assembler.open_mic_dominated()
                    && samples.len() > 0 {
                    out.push(Action::Play(samples));
                }
                assert(actions(out@) =~= m.on_audio(samples@));
            },
            Some(LiveEvent::TurnComplete) => {
                self.rotate(&mut out);
                self.open_lang = None;
                self.rotate_pending = false;
                self.last_fragment_ms = 0;
                proof {
                    rotation_keeps(m);
                }
                assert(actions(out@) =~= m.on_turn_complete().1);
            },
            Some(LiveEvent::Closed(reason)) => {
                self.live_closed(&reason, now_ms, &mut out);
                assert(actions(out@) =~= m.on_closed(reason@, now_ms).1);
            },
            None => {
                self.live_closed("connection lost", now_ms, &mut out);
                assert(actions(out@) =~= m.on_closed("connection lost"@, now_ms).1);
            },
        }
        out
    }

    /// A remote voice handed off to a different one.
    pub fn handle_boundary(&mut self)
        requires
            old(self)@.wf(),
        ensures
            final(self)@.wf(),
            final(self)@ == old(self)@.on_boundary(),
    {
        if !self.paused && !self.assembler.open_mic_dominated() && self.assembler.open_original_len()
            >= MIN_SPLIT_CHARS {
            self.rotate_pending = true;
            self.pending_since_len = self.assembler.open_original_len();
        }
    }

    /// A connection opened at `now_ms`. "live" is reported when the server
    /// acknowledges the setup, not here.
    pub fn handle_connected(&mut self, now_ms: u64)
        requires
            old(self)@.wf(),
        ensures
            final(self)@.wf(),
            final(self)@ == old(self)@.on_connected(now_ms),
    {
        self.connecting = false;
        self.connected = true;
        self.connected_at_ms = Some(now_ms);
    }

    /// The user did something. `Stop` is left to [`Meeting::end`].
    pub fn handle_control(&mut self, c: Control) -> (out: Vec<Action>)
        requires
            old(self)@.wf(),
        ensures
            final(self)@.wf(),
            (final(self)@, actions(out@)) == old(self)@.on_control(c),
    {
        let mut out: Vec<Action> = Vec::new();
        match c {
            Control::Pause => {
                self.paused = true;
                out.push(Action::StopPlayback);
                out.push(Action::Status { state: "paused", detail: String::new() });
            },
            Control::Resume => {
                self.paused = false;
                let state = if self.connected {
                    "live"
                } else {
                    "reconnecting"
                };
                out.push(Action::Status { state, detail: String::new() });
            },
            Control::SetReadout(on) => {
                self.readout_enabled = on;
                if !on {
                    out.push(Action::StopPlayback);
                }
            },
            Control::Stop => {},
        }
        assert(actions(out@) =~= old(self)@.on_control(c).1);
        out
    }

    /// The transcript cannot be written: that is told at once, and the meeting
    /// pauses until it is resumed.
    pub fn handle_storage_failure(&mut self, detail: &str) -> (out: Vec<Action>)
        requires
            old(self)@.wf(),
        ensures
            final(self)@.wf(),
            (final(self)@, actions(out@)) == old(self)@.on_storage_failure(detail@),
    {
        self.paused = true;
        let mut out: Vec<Action> = Vec::new();
        out.push(Action::Status { state: "storage-error", detail: text::owned(detail) });
        out.push(Action::StopPlayback);
        out.push(Action::Status { state: "paused", detail: String::new() });
        assert(actions(out@) =~= old(self)@.on_storage_failure(detail@).1);
        out
    }

    /// No audio output is to be had: readout turns itself off.
    pub fn readout_failed(&mut self)
        requires
            old(self)@.wf(),
        ensures
            final(self)@.wf(),
            final(self)@ == (MeetingModel { readout_enabled: false, ..old(self)@ }),
    {
        self.readout_enabled = false;
    }

    /// The journal to write now: all text that is not yet in the raw file.
    pub fn journal(&self) -> (j: RecoveryJournal)
        ensures
            j.meta matches Some(m) && m@ == self@.store.meta,
            j.raw_path matches Some(p) && p@ == self@.store.raw_path,
            match self@.turns.live() {
                Some(p) => {
                    &&& j.open_original@ == p.original
                    &&& j.open_translated@ == p.translated
                    &&& j.open_start_ms == p.start_ms
                },
                None => {
                    &&& j.open_original@.len() == 0
                    &&& j.open_translated@.len() == 0
                    &&& j.open_start_ms == 0
                },
            },
            j.speaker_renames@.len() == 0,
    {
        let mut j = RecoveryJournal::default();
        if let Some(p) = self.assembler.partial() {
            j.open_original = p.original;
            j.open_translated = p.translated;
            j.open_start_ms = p.start_ms;
        }
        self.store.write_journal(j)
    }

    /// Where the files of the meeting lie.
    pub fn store(&self) -> (s: &MeetingStore)
        ensures
            s@ == self@.store,
    {
        &self.store
    }

    /// The meeting ends: everything open is sealed, and the review begins.
    pub fn end(self) -> (r: (Vec<Action>, ReviewData))
        requires
            self@.wf(),
            self@.room(0),
        ensures
            actions(r.0@) == self@.on_end().1,
            r.1.store@ == self@.store,
            labels::is_listing(
                text::texts(r.1.speakers@),
                |s: Seq<char>| speaks(self@.on_end().0.sealed, s),
            ),
    {
        let mut m = self;
        let mut out: Vec<Action> = Vec::new();
        assert(actions(out@) =~= Seq::empty());
        m.finalize_entry(&mut out);
        assert(actions(out@) =~= self@.finalized().1);
        let ghost v = out@;
        out.push(Action::Status { state: "ended", detail: String::new() });
        proof {
            actions_push(v, out@.last());
        }
        let speakers = m.speakers();
        (out, ReviewData { store: m.store, speakers })
    }

    /// The speakers of the sealed entries, in order and without repetition.
    fn speakers(&self) -> (r: Vec<String>)
        ensures
            labels::is_listing(
                text::texts(r@),
                |s: Seq<char>| speaks(self@.sealed, s),
            ),
    {
        let mut names: Vec<String> = Vec::new();
        let mut i: usize = 0;
        assert(text::texts(names@) =~= Seq::empty());
        while i < self.sealed.len()
            invariant
                i <= self.sealed.len(),
                forall|s: Seq<char>| #[trigger]
                    text::texts(names@).contains(s) <==> speaks(self@.sealed.take(i as int), s),
            decreases self.sealed.len() - i,
        {
            let ghost before = text::texts(names@);
            let ghost past = self@.sealed.take(i as int);
            let ghost e = self@.sealed[i as int];
            let ghost now = self@.sealed.take(i + 1);
            match self.sealed[i].kind {
                EntryKind::Speech => {
                    let name = self.sealed[i].speaker.clone();
                    proof {
                        text::lemma_texts_push(names@, name);
                    }
                    names.push(name);
                },
                EntryKind::Gap => {},
            }
            proof {
                assert forall|s: Seq<char>| #[trigger]
                    text::texts(names@).contains(s) <==> speaks(now, s) by {
                    assert(now =~= past.push(e));
                    if speaks(past, s) {
                        let k = choose|k: int|
                            0 <= k < past.len() && (#[trigger] past[k]).kind == EntryKind::Speech
                                && past[k].speaker == s;
                        assert(now[k].speaker == s);
                    }
                    if speaks(now, s) {
                        let k = choose|k: int|
                            0 <= k < now.len() && (#[trigger] now[k]).kind == EntryKind::Speech
                                && now[k].speaker == s;
                        if k < past.len() {
                            assert(past[k].speaker == s);
                        }
                    }
                    if e.kind == EntryKind::Speech {
                        assert(text::texts(names@) =~= before.push(e.speaker));
                        if before.contains(s) {
                            let k = choose|k: int| 0 <= k < before.len() && before[k] == s;
                            assert(text::texts(names@)[k] == s);
                        }
                        if e.speaker == s {
                            assert(now[i as int].speaker == s);
                            assert(text::texts(names@)[before.len() as int] == s);
                        }
                        if text::texts(names@).contains(s) && e.speaker != s {
                            let k = choose|k: int|
                                0 <= k < text::texts(names@).len() && text::texts(names@)[k] == s;
                            assert(before[k] == s);
                        }
                    }
                }
            }
            i += 1;
        }
        assert(self@.sealed.take(i as int) =~= self@.sealed);
        sorted_unique(&names)
    }
}

/// Chunks change nothing but the clock and who speaks.
proof fn heard_keeps(m: Meeting, chunks: Seq<ChunkInfo>)
    requires
        m@.wf(),
    ensures
        m@.heard(chunks).wf(),
        m@.heard(chunks).store == m@.store,
    decreases chunks.len(),
{
    if chunks.len() > 0 {
        heard_keeps(m, chunks.drop_last());
    }
}

/// A rotation keeps what holds of a meeting, and uses up one index at most.
proof fn rotation_keeps(m: MeetingModel)
    requires
        m.wf(),
    ensures
        m.rotated().0.wf(),
        m.turns.next_index < u64::MAX ==> m.rotated().0.turns.next_index <= m.turns.next_index + 1,
{
}

} // verus!
