use sally::timeline::{format_timestamp, Assembler, EntryKind};

#[test]
fn fragments_assemble_into_entry() {
    let mut a = Assembler::new();
    a.push_original("Hello ", 1000);
    a.push_original("world", 1400);
    a.push_translated("Xin chào ", 1200);
    a.push_translated("thế giới", 1600);
    let e = a.finalize_turn().pop().expect("entry");
    assert_eq!(e.original, "Hello world");
    assert_eq!(e.translated, "Xin chào thế giới");
    assert_eq!(e.start_ms, 1000);
    assert_eq!(e.end_ms, 1600);
    assert_eq!(e.speaker, "Meeting");
}

#[test]
fn mic_dominated_turn_is_you() {
    let mut a = Assembler::new();
    a.push_original("my words", 0);
    for _ in 0..10 {
        a.push_activity(true, false, 0);
    }
    let e = a.finalize_turn().pop().expect("entry");
    assert_eq!(e.speaker, "You");
}

#[test]
fn translation_routes_to_closing_entry_after_split() {
    let mut a = Assembler::new();
    a.push_original("first speaker words", 1000);
    // Speaker changes before the translation arrives.
    let done = a.rotate_turn();
    assert!(done.is_none(), "nothing was closing yet");
    a.push_original("second speaker words", 3000);
    // Late translation belongs to the first (closing) entry.
    a.push_translated("bản dịch của người一", 3200);
    let entries = a.finalize_turn();
    assert_eq!(entries.len(), 2);
    assert_eq!(entries[0].original, "first speaker words");
    assert_eq!(entries[0].translated, "bản dịch của người一");
    assert_eq!(entries[1].original, "second speaker words");
    assert_eq!(entries[1].translated, "");
}

#[test]
fn open_original_text_excludes_closing() {
    let mut a = Assembler::new();
    a.push_original("frozen closing text", 1000);
    assert!(a.rotate_turn().is_none());
    assert_eq!(a.open_original_text(), "");
    a.push_original("new open text", 3000);
    assert_eq!(a.open_original_text(), "new open text");
}

#[test]
fn active_translated_text_follows_push_translated_routing() {
    let mut a = Assembler::new();
    // No closing yet: translation lands in (and reads from) open.
    a.push_original("first speaker words", 1000);
    a.push_translated("partial one", 1100);
    assert_eq!(a.active_translated_text(), "partial one");
    // Speaker changes: closing now exists, so routing (and this
    // accessor) both prefer it, even before it has any text yet.
    assert!(a.rotate_turn().is_none());
    assert_eq!(a.active_translated_text(), "partial one");
    a.push_translated(" continues", 1200);
    assert_eq!(a.active_translated_text(), "partial one continues");
}

#[test]
fn stale_closing_drains_without_touching_open() {
    let mut a = Assembler::new();
    a.push_original("first speaker words", 1000);
    assert!(a.rotate_turn().is_none());
    a.push_original("second speaker words", 1500);
    assert!(a.has_closing());
    // Not stale yet: translation could still be streaming in.
    assert!(a.drain_stale_closing(2_000, 2_500).is_none());
    assert!(a.has_closing());
    a.push_translated("bản dịch", 2_200);
    // Now enough time has passed since the entry became closing.
    let sealed = a.drain_stale_closing(5_000, 2_500).expect("stale seal");
    assert_eq!(sealed.original, "first speaker words");
    assert_eq!(sealed.translated, "bản dịch");
    assert!(!a.has_closing());
    // The open entry (second speaker) must be untouched throughout.
    assert_eq!(a.open_original_text(), "second speaker words");
}

#[test]
fn stale_closing_deadline_is_not_reset_by_translation_activity() {
    // A passage that keeps streaming translation for many seconds must not
    // keep pushing the deadline back: it is fixed when the entry is set
    // aside, not extended by ongoing activity.
    let mut a = Assembler::new();
    a.push_original("first speaker words", 1000);
    assert!(a.rotate_turn().is_none());
    a.push_original("second speaker words", 1500);
    // Translation keeps trickling in: this must not stop it from going
    // stale.
    a.push_translated("một ", 2_000);
    a.push_translated("hai ", 3_000);
    a.push_translated("ba", 3_900);
    let sealed = a.drain_stale_closing(4_000, 2_500).expect("stale seal");
    assert_eq!(sealed.original, "first speaker words");
    assert_eq!(sealed.translated, "một hai ba");
    assert!(!a.has_closing());
}

#[test]
fn rotate_after_stale_drain_does_not_reseal_empty_closing() {
    let mut a = Assembler::new();
    a.push_original("one", 0);
    assert!(a.rotate_turn().is_none());
    assert!(a.drain_stale_closing(3_000, 2_500).is_some());
    assert!(!a.has_closing());
    a.push_original("two", 3_500);
    // No stale closing left to (re-)seal — only "two" moves to closing.
    assert!(a.rotate_turn().is_none());
    assert!(a.has_closing());
}

#[test]
fn translated_overshoot_carries_to_next_entry() {
    // Translation lags the original, so a rotation
    // timed off the original's sentence boundary can capture a few
    // words of the *next* sentence's translation too. Those words
    // must move to the following entry instead of sticking to this
    // one's tail.
    let mut a = Assembler::new();
    a.push_original("first speaker words", 1000);
    assert!(a.rotate_turn().is_none());
    a.push_original("second speaker words", 3000);
    // Translation overshoots: includes the start of the next
    // sentence before the rotation catches up.
    a.push_translated("First sentence done. And, first", 3200);
    let sealed = a.rotate_turn().expect("first entry sealed");
    assert_eq!(sealed.translated, "First sentence done.");
    // Overshoot words now sit at the front of the new closing entry.
    a.push_translated(" I wanted to ask you something.", 3400);
    let entries = a.finalize_turn();
    assert_eq!(entries[0].original, "second speaker words");
    assert_eq!(entries[0].translated, "And, first I wanted to ask you something.");
}

#[test]
fn translated_without_punctuation_is_not_split() {
    // No sentence terminator yet: take everything, carry nothing, since
    // there is no better cut point available.
    let mut a = Assembler::new();
    a.push_original("one", 0);
    assert!(a.rotate_turn().is_none());
    a.push_original("two", 1000);
    a.push_translated("một hai ba", 1100);
    let sealed = a.rotate_turn().expect("sealed");
    assert_eq!(sealed.translated, "một hai ba");
}

#[test]
fn second_split_finalizes_previous_closing() {
    let mut a = Assembler::new();
    a.push_original("one", 0);
    assert!(a.rotate_turn().is_none());
    a.push_original("two", 1000);
    a.push_translated("một", 1100);
    let sealed = a.rotate_turn().expect("first entry sealed");
    assert_eq!(sealed.original, "one");
    assert_eq!(sealed.translated, "một");
    a.push_original("three", 2000);
    let rest = a.finalize_turn();
    assert_eq!(rest.len(), 2);
    assert_eq!(rest[0].original, "two");
    assert_eq!(rest[1].original, "three");
    // Indices strictly increasing across all seals.
    assert!(sealed.index < rest[0].index && rest[0].index < rest[1].index);
}

#[test]
fn silence_does_not_dilute_mic_attribution() {
    let mut a = Assembler::new();
    a.push_original("my words", 0);
    // 6 chunks of me speaking, then 30 chunks of dead air: still You.
    for _ in 0..6 {
        a.push_activity(true, false, 0);
    }
    for _ in 0..30 {
        a.push_activity(false, false, 0);
    }
    let e = a.finalize_turn().pop().expect("entry");
    assert_eq!(e.speaker, "You");
}

#[test]
fn remote_dominated_turn_is_not_you() {
    let mut a = Assembler::new();
    a.push_original("their words", 0);
    for _ in 0..2 {
        a.push_activity(true, false, 0);
    }
    for _ in 0..10 {
        a.push_activity(false, true, 0);
    }
    let e = a.finalize_turn().pop().expect("entry");
    assert_eq!(e.speaker, "Meeting");
}

#[test]
fn closing_text_stays_visible_in_partial_after_rotate() {
    let mut a = Assembler::new();
    a.push_original("long frozen passage", 1000);
    assert!(a.rotate_turn().is_none());
    // Nothing sealed yet: the frozen text must still be in the partial.
    let p = a.partial().expect("partial");
    assert_eq!(p.original, "long frozen passage");
    assert_eq!(p.start_ms, 1000);
    // New open text joins it until the closing entry seals.
    a.push_original("new words", 3000);
    let p = a.partial().expect("partial");
    assert_eq!(p.original, "long frozen passage new words");
    assert_eq!(p.start_ms, 1000);
}

#[test]
fn empty_turn_produces_nothing() {
    let mut a = Assembler::new();
    a.push_original("   ", 0);
    assert!(a.finalize_turn().is_empty());
}

#[test]
fn indices_are_stable_and_increasing() {
    let mut a = Assembler::new();
    a.push_original("one", 0);
    let e1 = a.finalize_turn().pop().unwrap();
    let g = a.gap(5000, 9000);
    a.push_original("two", 10_000);
    let e2 = a.finalize_turn().pop().unwrap();
    assert_eq!((e1.index, g.index, e2.index), (0, 1, 2));
    assert_eq!(g.kind, EntryKind::Gap);
}

#[test]
fn timestamp_formats() {
    assert_eq!(format_timestamp(18_000), "[00:18]");
    assert_eq!(format_timestamp(65_000), "[01:05]");
    assert_eq!(format_timestamp(3_723_000), "[1:02:03]");
}

#[test]
fn mic_share_decides_who_spoke() {
    // Half of the active chunks or more with the microphone: You.
    for (mic, system, who) in [(3u32, 3u32, "You"), (2, 8, "Meeting")] {
        let mut a = Assembler::new();
        a.push_original("words", 0);
        for _ in 0..mic {
            a.push_activity(true, false, 0);
        }
        for _ in 0..system {
            a.push_activity(false, true, 0);
        }
        assert_eq!(a.finalize_turn().pop().unwrap().speaker, who);
    }
}

#[test]
fn sentences_are_counted() {
    let mut a = Assembler::new();
    assert_eq!(a.open_sentence_count(), 0);
    a.push_original("One. Two? 三。 four", 0);
    assert_eq!(a.open_sentence_count(), 3);
    assert!(!a.open_ends_sentence());
    a.push_original("!", 10);
    assert!(a.open_ends_sentence());
    assert_eq!(a.open_start_ms(), Some(0));
}

#[test]
fn no_text_is_lost_over_a_turn() {
    let mut a = Assembler::new();
    let mut heard = String::new();
    let mut sealed = String::new();
    for (i, piece) in ["one two.", " three", " four.", " five"].iter().enumerate() {
        a.push_original(piece, i as u64 * 100);
        heard.push_str(piece);
        if let Some(e) = a.rotate_turn() {
            sealed.push_str(&e.original);
        }
    }
    for e in a.finalize_turn() {
        sealed.push_str(&e.original);
    }
    let ink = |s: &str| s.chars().filter(|c| !c.is_whitespace()).collect::<String>();
    assert_eq!(ink(&sealed), ink(&heard));
}
