use sally::commands::{
    apply_review, connectivity_failed, connectivity_reply, get_api_key, get_boot_info,
    list_meetings, meeting_error, meeting_title, require_config, review_info, save_settings,
    set_readout, start_meeting, test_connectivity, CleanupRun, FolderEntry, MeetingFault,
    SettingsPayload,
};
use sally::config::{AppConfig, DEFAULT_LIVE_MODEL};
use sally::error::SallyError;
use sally::gemini::cleanup::MeetingSummary;
use sally::order::{stable_order, NewestFirst};
use sally::path::FilePath;
use sally::session::ReviewData;
use sally::store::{MeetingStore, StartTime};
use sally::text_map::TextMap;

fn config(key: &str) -> AppConfig {
    let mut c = AppConfig::new(FilePath::new("d"));
    c.api_key = key.into();
    c
}

fn nothing() -> SettingsPayload {
    SettingsPayload {
        data_dir: None,
        api_key: None,
        live_model: None,
        cleanup_model: None,
        target_language: None,
        ui_language: None,
        always_on_top: None,
        mic_device: None,
        system_device: None,
        capture_app: None,
        readout_enabled: None,
    }
}

fn told(e: SallyError) -> String {
    e.message()
}

#[test]
fn the_first_screen_follows_the_state() {
    let names = vec!["a.journal.json".to_string(), "b.txt".to_string()];
    let b = get_boot_info(None, &names);
    assert!(b.config.is_none() && b.needs_setup && b.pending_recoveries == 0);
    let c = config("  ");
    let b = get_boot_info(Some(&c), &names);
    assert!(b.config.is_some() && b.needs_setup && b.pending_recoveries == 1);
    let c = config("K");
    assert!(!get_boot_info(Some(&c), &names).needs_setup);
}

#[test]
fn settings_need_a_folder_first() {
    assert_eq!(
        told(save_settings(None, nothing()).unwrap_err()),
        "configuration error: select a Sally data folder first"
    );
    let c = save_settings(None, SettingsPayload { data_dir: Some("/data".into()), ..nothing() });
    assert_eq!(c.unwrap().data_dir.root, "/data");
}

#[test]
fn settings_change_what_is_given() {
    let c = save_settings(
        Some(config("K")),
        SettingsPayload {
            target_language: Some("Japanese".into()),
            live_model: Some("  ".into()),
            cleanup_model: Some("other".into()),
            mic_device: Some("".into()),
            always_on_top: Some(true),
            ..nothing()
        },
    )
    .unwrap();
    assert_eq!(c.api_key, "K");
    assert_eq!(c.target_language, "Japanese");
    assert_eq!(c.live_model, DEFAULT_LIVE_MODEL);
    assert_eq!(c.cleanup_model, "other");
    assert!(c.always_on_top);
    let same = save_settings(Some(c.clone()), nothing()).unwrap();
    assert_eq!(same.save(None), c.save(None));
}

#[test]
fn the_key_can_be_shown_to_its_owner() {
    assert_eq!(get_api_key(None), "");
    assert_eq!(get_api_key(Some(&config("K"))), "K");
}

#[test]
fn setup_comes_first() {
    assert_eq!(told(require_config(None).unwrap_err()), "configuration error: setup not completed");
    assert_eq!(
        told(set_readout(None, true).unwrap_err()),
        "configuration error: setup not completed"
    );
    assert!(set_readout(Some(&config("K")), true).unwrap().readout_enabled);
}

#[test]
fn connectivity_is_tested_with_the_key() {
    assert_eq!(
        test_connectivity(Some(&config("K"))).unwrap(),
        "https://generativelanguage.googleapis.com/v1beta/models?key=K&pageSize=1"
    );
    assert_eq!(
        told(test_connectivity(Some(&config(" "))).unwrap_err()),
        "configuration error: no API key configured"
    );
    assert_eq!(
        told(test_connectivity(None).unwrap_err()),
        "configuration error: setup not completed"
    );
    assert!(connectivity_reply(true, "200 OK").unwrap());
    assert_eq!(
        told(connectivity_reply(false, "403 Forbidden").unwrap_err()),
        "gemini error: API key rejected (HTTP 403 Forbidden)"
    );
    assert!(!told(connectivity_failed("https://x?key=SECRET123", "SECRET123"))
        .contains("SECRET123"));
}

#[test]
fn one_meeting_runs_at_a_time() {
    let c = config("K");
    assert_eq!(
        told(start_meeting(true, Some(&c), None).unwrap_err()),
        "session error: a meeting is already running"
    );
    assert_eq!(
        told(start_meeting(false, None, None).unwrap_err()),
        "configuration error: setup not completed"
    );
    let (same, save) = start_meeting(false, Some(&c), Some(" ")).unwrap();
    assert!(!save && same.target_language == "Vietnamese");
    let (_, save) = start_meeting(false, Some(&c), Some("Vietnamese")).unwrap();
    assert!(!save);
    let (other, save) = start_meeting(false, Some(&c), Some("Korean")).unwrap();
    assert!(save && other.target_language == "Korean");
}

#[test]
fn faults_are_told() {
    let all = [
        (MeetingFault::AlreadyRunning, "a meeting is already running"),
        (MeetingFault::NoneActive, "no active meeting"),
        (MeetingFault::AlreadyEnded, "meeting already ended"),
        (MeetingFault::AlreadyCollected, "meeting already collected"),
        (MeetingFault::TaskDropped, "session task dropped"),
        (MeetingFault::NoneToReview, "no finished meeting to review"),
        (MeetingFault::NoneFinished, "no finished meeting"),
    ];
    for (fault, text) in all {
        assert_eq!(told(meeting_error(fault)), format!("session error: {text}"));
    }
}

fn review() -> ReviewData {
    let base = FilePath::new("d");
    let started = StartTime { year: 2025, month: 3, day: 9, hour: 12, minute: 5 };
    ReviewData {
        store: MeetingStore::create(
            base.join("meetings"),
            base.join(".recovery"),
            &started,
            "Vietnamese",
            &vec![],
        ),
        speakers: vec!["Speaker 2".into(), "Speaker 1".into(), "You".into()],
    }
}

#[test]
fn reviews_rename_and_merge() {
    let mut r = review();
    let mut renames = TextMap::new();
    renames.insert("Speaker 1", "Tanaka");
    renames.insert("Speaker 2", "Tanaka");
    let change = apply_review(&mut r, "[00:01] **Speaker 1**\n", &renames, Some("Weekly"));
    assert_eq!(change.raw.unwrap(), "[00:01] **Tanaka**\n");
    assert_eq!(r.speakers, vec!["Tanaka".to_string(), "You".to_string()]);
    assert_eq!(change.moves.unwrap().len(), 5);
    let info = review_info(&r);
    assert_eq!(info.speakers, r.speakers);
    assert!(info.raw_path.names.last().unwrap().contains("Weekly"));
}

#[test]
fn reviews_may_change_nothing() {
    let mut r = review();
    let change = apply_review(&mut r, "text", &TextMap::new(), Some("  "));
    assert!(change.raw.is_none());
    assert!(change.moves.unwrap().is_empty());
    assert_eq!(r.speakers.len(), 3);
    let change = apply_review(&mut r, "text", &TextMap::new(), Some("---"));
    assert_eq!(told(change.moves.unwrap_err()), "storage error: empty meeting name");
}

fn entry(name: &str, modified: u128) -> FolderEntry {
    FolderEntry { name: name.into(), modified }
}

#[test]
fn meetings_are_listed_newest_first() {
    let files = list_meetings(
        &FilePath::new("d").join("raw"),
        &vec![
            entry("old-raw.md", 1),
            entry("new-raw.md", 9),
            entry("new-raw-no-timestamps.md", 10),
            entry("same-raw.md", 9),
            entry("notes.txt", 20),
            entry(".md", 0),
        ],
    );
    let names: Vec<&str> = files.iter().map(|f| f.name.as_str()).collect();
    assert_eq!(names, vec!["new-raw", "same-raw", "old-raw", ".md"]);
    assert_eq!(files[0].path.names, vec!["raw".to_string(), "new-raw.md".to_string()]);
}

#[test]
fn titles_are_read_from_the_first_line() {
    assert_eq!(meeting_title("# Weekly sync \n\ntext"), "Weekly sync");
    assert_eq!(meeting_title("##Plan"), "Plan");
    assert_eq!(meeting_title(""), "Meeting");
}

#[test]
fn nothing_is_published_before_all_is_clean() {
    let block = "[00:01] **You**\n\nOriginal: ".to_string() + &"word ".repeat(1500);
    let raw = format!("# Weekly\n\n{block}\n\n{block}");
    let mut run = CleanupRun::new(&raw);
    let summary = MeetingSummary::default();
    let mut sent = 0;
    while let Some((section, context)) = run.next_section() {
        assert!(!section.is_empty());
        assert_eq!(context, if sent == 0 { "".to_string() } else { format!("[0{sent}:00] x") });
        assert!(run.polished(&summary, "en").is_none());
        assert!(run.cleaned().is_none());
        sent += 1;
        run.add(format!("[00:00] first\n\n[0{sent}:00] x"));
    }
    assert!(sent >= 2);
    let cleaned = run.cleaned().expect("all sections");
    assert_eq!(cleaned.matches("first").count(), sent);
    let out = run.polished(&summary, "en").expect("all sections");
    assert!(out.starts_with("# Weekly"));
    assert!(out.contains(&cleaned));
}

#[test]
fn sorting_is_stable() {
    let keys: Vec<NewestFirst> = [3u128, 5, 3, 5].iter().map(|&k| NewestFirst(k)).collect();
    assert_eq!(stable_order(&keys), vec![1, 3, 0, 2]);
    let words: Vec<String> = ["b", "a", "b"].iter().map(|s| s.to_string()).collect();
    assert_eq!(stable_order(&words), vec![1, 0, 2]);
}
