use sally::config::AppConfig;
use sally::error::SallyError;
use sally::gemini::live::LiveEvent;
use sally::path::FilePath;
use sally::session::{
    capture_warning, check_start, next_backoff, Action, ChunkInfo, Control, Meeting,
};
use sally::store::{MeetingStore, StartTime};
use sally::timeline::EntryKind;

fn config() -> AppConfig {
    let mut c = AppConfig::new(FilePath::new("d"));
    c.api_key = "K".into();
    c.readout_enabled = true;
    c
}

fn meeting() -> Meeting {
    let c = config();
    let started = StartTime { year: 2025, month: 3, day: 9, hour: 12, minute: 5 };
    let store = MeetingStore::create(
        c.meetings_dir(),
        c.recovery_dir(),
        &started,
        &c.target_language,
        &vec![],
    );
    let (m, first) = Meeting::new(store, &c);
    assert!(first.iter().any(|a| matches!(a, Action::Connect { delay_s: 0, .. })));
    m
}

fn live() -> Meeting {
    let mut m = meeting();
    m.handle_connected(0);
    m.handle_live_event(Some(LiveEvent::Ready), 0);
    m
}

fn hear(m: &mut Meeting, t_ms: u64, mic: bool, system: bool) -> Vec<Action> {
    m.handle_frame(&vec![ChunkInfo { t_ms, mic_active: mic, system_active: system }])
}

fn say(m: &mut Meeting, s: &str) -> Vec<Action> {
    m.handle_live_event(Some(LiveEvent::Original(s.into())), 0)
}

fn sealed(actions: &[Action]) -> Vec<String> {
    actions
        .iter()
        .filter_map(|a| match a {
            Action::Entry { entry, .. } => Some(entry.original.clone()),
            _ => None,
        })
        .collect()
}

fn states(actions: &[Action]) -> Vec<&'static str> {
    actions
        .iter()
        .filter_map(|a| match a {
            Action::Status { state, .. } => Some(*state),
            _ => None,
        })
        .collect()
}

#[test]
fn a_meeting_needs_a_key() {
    assert!(check_start(&config()).is_ok());
    let none = AppConfig::new(FilePath::new("d"));
    match check_start(&none) {
        Err(SallyError::Config(m)) => assert_eq!(m, "missing Gemini API key; finish setup first"),
        _ => panic!("must be refused"),
    }
}

#[test]
fn entries_go_to_the_file_as_they_are_sealed() {
    let mut m = live();
    hear(&mut m, 1000, false, true);
    say(&mut m, "Good morning everyone.");
    m.handle_live_event(Some(LiveEvent::Translated("Chào buổi sáng.".into())), 0);
    // The turn stays open for trailing translation, then seals.
    assert!(sealed(&m.handle_live_event(Some(LiveEvent::TurnComplete), 0)).is_empty());
    say(&mut m, "Next topic.");
    let out = m.handle_live_event(Some(LiveEvent::TurnComplete), 0);
    assert_eq!(sealed(&out), vec!["Good morning everyone.".to_string()]);
    match &out[0] {
        Action::Entry { block, .. } => assert_eq!(
            block,
            "[00:01] **Meeting**\n\nOriginal: Good morning everyone.\n\nVietnamese: Chào buổi sáng.\n\n"
        ),
        _ => panic!("entry first"),
    }
    let (rest, review) = m.end();
    assert_eq!(sealed(&rest), vec!["Next topic.".to_string()]);
    assert_eq!(states(&rest), vec!["ended"]);
    assert_eq!(review.speakers, vec!["Meeting".to_string()]);
}

#[test]
fn a_change_of_language_starts_an_entry() {
    let mut m = live();
    say(&mut m, "来週の金曜日までにお願いします");
    assert!(sealed(&say(&mut m, "vâng ạ, được rồi")).is_empty());
    let out = m.handle_live_event(Some(LiveEvent::TurnComplete), 0);
    assert_eq!(sealed(&out), vec!["来週の金曜日までにお願いします".to_string()]);
}

#[test]
fn latin_text_never_splits() {
    let mut m = live();
    say(&mut m, "来週の金曜日までにお願いします");
    say(&mut m, " okay then let us go");
    let (rest, _) = m.end();
    assert_eq!(sealed(&rest).len(), 1);
}

#[test]
fn a_new_voice_waits_for_the_end_of_the_sentence() {
    let mut m = live();
    say(&mut m, "I think that we should");
    m.handle_boundary();
    say(&mut m, " ship it on Friday.");
    say(&mut m, "Agreed, Friday it is.");
    let (rest, _) = m.end();
    assert_eq!(
        sealed(&rest),
        vec![
            "I think that we should ship it on Friday.".to_string(),
            "Agreed, Friday it is.".to_string()
        ]
    );
}

#[test]
fn idle_turns_are_flushed() {
    let mut m = live();
    hear(&mut m, 1000, false, true);
    say(&mut m, "hello there");
    assert!(sealed(&hear(&mut m, 8000, false, false)).is_empty());
    assert_eq!(sealed(&hear(&mut m, 8001, false, false)), vec!["hello there".to_string()]);
}

#[test]
fn long_turns_are_split() {
    let mut m = live();
    hear(&mut m, 1000, false, true);
    say(&mut m, "a long monologue");
    for t in 1..30u64 {
        hear(&mut m, 1000 + t * 2000, false, true);
        say(&mut m, " and so on");
    }
    hear(&mut m, 61_000, false, true);
    say(&mut m, " and more of it");
    let (rest, _) = m.end();
    assert_eq!(sealed(&rest).len(), 2);
}

#[test]
fn pausing_stops_listening() {
    let mut m = live();
    let out = m.handle_control(Control::Pause);
    assert!(m.is_paused());
    assert!(matches!(out[0], Action::StopPlayback));
    assert_eq!(states(&out), vec!["paused"]);
    assert!(hear(&mut m, 90_000, true, true).is_empty());
    assert!(m.handle_live_event(Some(LiveEvent::Audio(vec![1])), 0).is_empty());
    assert_eq!(states(&m.handle_control(Control::Resume)), vec!["live"]);
}

#[test]
fn a_storage_failure_pauses() {
    let mut m = live();
    let out = m.handle_storage_failure("disk full");
    assert!(m.is_paused());
    assert!(matches!(&out[0], Action::Status { state: "storage-error", detail }
        if detail == "disk full"));
    assert!(matches!(out[1], Action::StopPlayback));
    assert_eq!(states(&out), vec!["storage-error", "paused"]);
    assert!(hear(&mut m, 90_000, true, true).is_empty());
}

#[test]
fn own_speech_is_not_read_back() {
    let mut m = live();
    say(&mut m, "my own words here");
    for _ in 0..4 {
        hear(&mut m, 100, true, false);
    }
    assert!(m.handle_live_event(Some(LiveEvent::Audio(vec![1, 2])), 0).is_empty());
    for _ in 0..20 {
        hear(&mut m, 200, false, true);
    }
    let out = m.handle_live_event(Some(LiveEvent::Audio(vec![1, 2])), 0);
    assert!(matches!(&out[..], [Action::Play(v)] if *v == vec![1, 2]));
    m.handle_control(Control::SetReadout(false));
    assert!(m.handle_live_event(Some(LiveEvent::Audio(vec![1, 2])), 0).is_empty());
}

#[test]
fn readout_turns_itself_off() {
    let mut m = live();
    m.readout_failed();
    assert!(m.handle_live_event(Some(LiveEvent::Audio(vec![1])), 0).is_empty());
}

fn connects(actions: &[Action]) -> Vec<(String, u64)> {
    actions
        .iter()
        .filter_map(|a| match a {
            Action::Connect { api_version, delay_s } => Some((api_version.clone(), *delay_s)),
            _ => None,
        })
        .collect()
}

#[test]
fn closes_are_marked_and_retried() {
    let mut m = live();
    hear(&mut m, 10_000, false, true);
    let out = m.handle_live_event(None, 60_000);
    assert_eq!(states(&out), vec!["reconnecting"]);
    assert_eq!(connects(&out)[0].1, 1);
    assert!(!m.is_connected());
    hear(&mut m, 15_000, false, true);
    m.handle_connected(61_000);
    let out = m.handle_live_event(Some(LiveEvent::Ready), 61_000);
    match &out[0] {
        Action::Entry { entry, block } => {
            assert_eq!(entry.kind, EntryKind::Gap);
            assert!(block.starts_with("[00:10] — [00:15]"), "{block}");
        }
        _ => panic!("gap first"),
    }
    assert_eq!(states(&out), vec!["live"]);
}

#[test]
fn rejected_setups_try_the_other_version() {
    let c = config();
    let mut m = meeting();
    let mut last = c.live_api_version.clone();
    m.handle_connected(0);
    let out = m.handle_live_event(Some(LiveEvent::Closed("1007 Unknown name".into())), 1000);
    assert_ne!(connects(&out)[0].0, last);
    last = connects(&out)[0].0.clone();
    // Other early closes do so at the third.
    for i in 0..3u64 {
        m.handle_connected(10_000 * i);
        let out = m.handle_live_event(Some(LiveEvent::Closed("bye".into())), 10_000 * i + 10);
        assert_eq!(connects(&out)[0].0 != last, i == 2);
    }
}

#[test]
fn delays_are_bounded() {
    assert_eq!(next_backoff(1), 2);
    assert_eq!(next_backoff(16), 30);
    assert_eq!(next_backoff(30), 30);
    let mut m = meeting();
    let mut delays = Vec::new();
    for _ in 0..7 {
        m.handle_connected(0);
        delays.push(connects(&m.handle_live_event(None, 100_000))[0].1);
    }
    assert_eq!(delays, vec![1, 3, 7, 15, 30, 30, 30]);
}

#[test]
fn journals_hold_what_is_open() {
    let mut m = live();
    hear(&mut m, 5000, false, true);
    say(&mut m, "unfinished words");
    let j = m.journal();
    assert_eq!(j.open_original, "unfinished words");
    assert_eq!(j.open_start_ms, 5000);
    assert_eq!(j.raw_path.unwrap().names, m.store().raw_path().names);
    assert!(m.has_room(1000));
}

#[test]
fn missing_applications_are_told() {
    assert!(capture_warning("", false).is_none());
    assert!(capture_warning("Zoom", true).is_none());
    assert!(capture_warning("Zoom", false).unwrap().starts_with("'Zoom' has no active audio"));
}
