use sally::path::FilePath;
use sally::store::{
    file_char, is_journal_name, render_entry, render_header, rename_speakers_in_markdown, sanitize_title,
    strip_timestamps, MeetingMeta, MeetingStore, RecoveryJournal, StartTime,
};
use sally::error::SallyError;
use sally::text_map::TextMap;
use sally::timeline::{EntryKind, TimelineEntry};

fn noon() -> StartTime {
    StartTime { year: 2025, month: 3, day: 9, hour: 12, minute: 5 }
}

fn new_store(tag: &str) -> MeetingStore {
    let base = FilePath::new(tag);
    MeetingStore::create(
        base.join("meetings"),
        base.join(".recovery"),
        &noon(),
        "Vietnamese",
        &vec![],
    )
}

fn file_name(p: &FilePath) -> String {
    p.names.last().expect("name").clone()
}

fn speech(index: u64, start_ms: u64, speaker: &str, orig: &str, tr: &str) -> TimelineEntry {
    TimelineEntry {
        index,
        kind: EntryKind::Speech,
        start_ms,
        end_ms: start_ms + 1000,
        speaker: speaker.into(),
        original: orig.into(),
        translated: tr.into(),
    }
}

#[test]
fn appends_entries_in_design_format() {
    let store = new_store("append");
    let mut text = render_header(store.meta());
    text.push_str(
        &store.append_entry(&speech(0, 18_000, "Speaker 1", "hello", "xin chào"), "Vietnamese"),
    );
    assert!(text.contains("[00:18] **Speaker 1**"));
    assert!(text.contains("Original: hello"));
    assert!(text.contains("Vietnamese: xin chào"));
}

#[test]
fn export_strips_timestamps_but_preserves_raw() {
    let store = new_store("export");
    let mut raw = render_header(store.meta());
    raw.push_str(&store.append_entry(&speech(0, 18_000, "You", "hi", "chào"), "Vietnamese"));
    let (export, exported) = store.export_without_timestamps(&raw);
    assert!(!exported.contains("[00:18]"));
    assert!(exported.contains("**You**"));
    assert!(raw.contains("[00:18]"), "raw keeps timestamps");
    assert_ne!(file_name(&export), file_name(store.raw_path()));
}

#[test]
fn speaker_rename_applies_globally() {
    let mut renames = TextMap::new();
    renames.insert("Speaker 1", "Tanaka");
    // Merge: Speaker 2 also becomes Tanaka.
    renames.insert("Speaker 2", "Tanaka");
    let text = "[00:01] **Speaker 1**\n\nx\n\n[00:05] **Speaker 2**\n\ny\n";
    let out = rename_speakers_in_markdown(text, &renames);
    assert!(!out.contains("Speaker 1"));
    assert!(!out.contains("Speaker 2"));
    assert_eq!(out.matches("**Tanaka**").count(), 2);
}

#[test]
fn two_speakers_can_swap_names() {
    let mut renames = TextMap::new();
    renames.insert("A", "B");
    renames.insert("B", " A ");
    assert_eq!(rename_speakers_in_markdown("**A** **B**", &renames), "**B** **A**");
    renames.insert("A", " ");
    assert_eq!(rename_speakers_in_markdown("**A** **B** *B*", &renames), "**A** **A** *B*");
}

#[test]
fn gap_entries_render_visibly() {
    let e = TimelineEntry {
        index: 0,
        kind: EntryKind::Gap,
        start_ms: 60_000,
        end_ms: 75_000,
        speaker: String::new(),
        original: String::new(),
        translated: String::new(),
    };
    let block = render_entry(&e, "Vietnamese");
    assert!(block.contains("[01:00] — [01:15]"));
    assert!(block.contains("unavailable"));
}

#[test]
fn recovery_appends_journaled_text_and_removes_journal() {
    let store = new_store("recover");
    let mut text = render_header(store.meta());
    text.push_str(
        &store.append_entry(&speech(0, 1000, "You", "done part", "phần xong"), "Vietnamese"),
    );
    let journal = store.write_journal(RecoveryJournal {
        open_original: "unfinished words".into(),
        open_translated: "lời dang dở".into(),
        open_start_ms: 5000,
        ..Default::default()
    });
    let mut folder = vec![file_name(&store.journal_path())];
    assert_eq!(MeetingStore::pending_recoveries(&folder).len(), 1);
    let recovery = MeetingStore::recover(Some(&journal), true);
    let recovered: Vec<FilePath> = recovery.recovered.into_iter().collect();
    assert_eq!(recovered.len(), 1);
    assert_eq!(file_name(&recovered[0]), file_name(store.raw_path()));
    text.push_str(&recovery.append.expect("text"));
    assert!(text.contains("unfinished words"));
    assert!(text.contains("recovered after interruption"));
    if recovery.remove {
        folder.clear();
    }
    assert!(MeetingStore::pending_recoveries(&folder).is_empty());
}

#[test]
fn finalize_removes_journal() {
    let store = new_store("finalize");
    store.write_journal(RecoveryJournal::default());
    let mut folder = vec![file_name(&store.journal_path())];
    assert_eq!(MeetingStore::pending_recoveries(&folder).len(), 1);
    let gone = store.finalize(true).expect("journal");
    folder.retain(|n| *n != file_name(&gone));
    assert!(MeetingStore::pending_recoveries(&folder).is_empty());
    assert!(store.finalize(false).is_none());
}

#[test]
fn rename_meeting_moves_all_files() {
    let mut store = new_store("rename");
    let before = vec![file_name(store.raw_path()), file_name(&store.polished_path())];
    let moves = store.rename_meeting("Weekly Sync: Q3 planning!").unwrap();
    // Both files that exist move to where the store now looks for them.
    let moved: Vec<String> = before
        .iter()
        .map(|n| {
            let m = moves.iter().find(|m| file_name(&m.from) == *n).expect("move");
            file_name(&m.to)
        })
        .collect();
    assert_eq!(moved[0], file_name(store.raw_path()));
    assert_eq!(moved[1], file_name(&store.polished_path()));
    let name = file_name(store.raw_path());
    assert!(name.contains("Weekly-Sync"), "{name}");
    assert!(!name.contains(':'));
}

#[test]
fn names_begin_with_the_start() {
    assert_eq!(file_name(new_store("d").raw_path()), "2025-03-09_1205-untitled-raw.md");
    assert_eq!(file_name(&new_store("d").polished_path()), "2025-03-09_1205-untitled-polished.md");
    assert_eq!(
        file_name(&new_store("d").export_path()),
        "2025-03-09_1205-untitled-raw-no-timestamps.md"
    );
    assert_eq!(file_name(&new_store("d").journal_path()), "2025-03-09_1205-untitled.journal.json");
}

#[test]
fn meetings_of_one_minute_do_not_collide() {
    let base = FilePath::new("d");
    let mut existing: Vec<String> = Vec::new();
    for _ in 0..3 {
        let store = MeetingStore::create(
            base.join("meetings"),
            base.join(".recovery"),
            &noon(),
            "Vietnamese",
            &existing,
        );
        let name = file_name(store.raw_path());
        assert!(!existing.contains(&name), "{name}");
        existing.push(name);
    }
}

#[test]
fn the_header_tells_of_the_meeting() {
    let meta = MeetingMeta {
        title: "Weekly".into(),
        started_at: "2025-03-09 12:05".into(),
        target_language: "Vietnamese".into(),
    };
    let h = render_header(&meta);
    assert!(h.starts_with("# Weekly\n"));
    assert!(h.contains("2025-03-09 12:05"));
    assert!(h.contains("Vietnamese"));
}

#[test]
fn an_empty_title_is_refused() {
    let mut store = new_store("title");
    let before = file_name(store.raw_path());
    match store.rename_meeting(" --- ") {
        Err(SallyError::Storage(m)) => assert_eq!(m, "empty meeting name"),
        _ => panic!("must be refused"),
    }
    assert_eq!(file_name(store.raw_path()), before);
}

#[test]
fn titles_become_file_names() {
    assert_eq!(sanitize_title("Weekly Sync: Q3 planning!"), "Weekly-Sync_-Q3-planning_");
    assert_eq!(sanitize_title("Họp tuần"), "Họp-tuần");
    assert_eq!(sanitize_title(" - "), "");
    for title in [" -- Họp: tuần / 3 --", "a\u{3000}b", "\u{2028}- x -\u{85}", "Ⅷ ½ 京"] {
        let safe = sanitize_title(title);
        assert_eq!(sanitize_title(&safe), safe);
        assert!(!safe.contains(char::is_whitespace));
    }
}

#[test]
fn only_stamps_are_stripped() {
    assert_eq!(strip_timestamps("[00:18] **You**\n\nx [1] y"), "**You**\n\nx [1] y");
    assert_eq!(strip_timestamps("[1:02:03] a\n[123:45:06] b"), "a\nb");
    for kept in ["[2026] budget", "[:] a", "[1:23] a", "[12:345] a", "[:12:34] a", "[1:2:33] a"] {
        assert_eq!(strip_timestamps(kept), kept);
    }
}

#[test]
fn journals_are_told_by_their_extension() {
    assert!(is_journal_name("2025-03-09-1205.journal.json"));
    assert!(!is_journal_name(".json"));
    assert!(!is_journal_name("notes.md"));
}

#[test]
fn journaled_text_is_never_given_up() {
    let store = new_store("gone");
    let journal = store.write_journal(RecoveryJournal {
        open_original: "words".into(),
        open_start_ms: 61_000,
        ..Default::default()
    });
    // The raw file is made anew where it is gone.
    let r = MeetingStore::recover(Some(&journal), false);
    assert_eq!(
        r.append.expect("text"),
        "[01:01] **Meeting** *(recovered after interruption)*\n\nOriginal: words\n\nTranslation: \n\n"
    );
    assert!(r.remove);
    assert_eq!(file_name(&r.recovered.expect("raw file")), file_name(store.raw_path()));
    // A journal that names no raw file is kept as long as it holds text.
    let lost = RecoveryJournal { open_translated: "từ".into(), ..Default::default() };
    let r = MeetingStore::recover(Some(&lost), true);
    assert!(!r.remove && r.append.is_none() && r.recovered.is_none());
}

#[test]
fn journals_without_text_are_dropped() {
    let store = new_store("empty");
    let r = MeetingStore::recover(None, true);
    assert!(!r.remove && r.append.is_none() && r.recovered.is_none());
    let journal = store.write_journal(RecoveryJournal::default());
    let r = MeetingStore::recover(Some(&journal), true);
    assert!(r.remove && r.append.is_none() && r.recovered.is_some());
    let r = MeetingStore::recover(Some(&journal), false);
    assert!(r.remove && r.append.is_none() && r.recovered.is_none());
    let r = MeetingStore::recover(Some(&RecoveryJournal::default()), false);
    assert!(r.remove && r.append.is_none() && r.recovered.is_none());
}

#[test]
fn start_times_are_checked() {
    assert!(noon().is_valid());
    assert!(StartTime { year: 2024, month: 2, day: 29, ..noon() }.is_valid());
    assert!(!StartTime { month: 2, day: 29, ..noon() }.is_valid());
    assert!(!StartTime { hour: 24, ..noon() }.is_valid());
}

#[test]
fn unsafe_characters_are_replaced() {
    assert_eq!(file_char('é', true), 'é');
    assert_eq!(file_char('_', false), '_');
    assert_eq!(file_char('\t', false), '-');
    assert_eq!(file_char('/', false), '_');
}

#[test]
fn recordings_stand_in_a_folder_of_their_own() {
    let mut store = new_store("audio");
    let before = store.audio_path();
    assert_eq!(before.names, vec!["meetings", "audio", "2025-03-09_1205-untitled.wav"]);
    let moves = store.rename_meeting("Sync").expect("moves");
    let last = moves.last().expect("move");
    assert_eq!(last.from.names, before.names);
    assert_eq!(last.to.names, vec!["meetings", "audio", "2025-03-09_1205-Sync.wav"]);
    assert_eq!(last.to.names, store.audio_path().names);
}
