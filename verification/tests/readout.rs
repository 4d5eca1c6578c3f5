use sally::readout::{ReadoutGate, MAX_BUFFERED_SAMPLES};

#[test]
fn buffers_until_text_then_flushes_for_foreign_speech() {
    let mut g = ReadoutGate::new("vi");
    // Audio arrives before any text: buffered.
    assert!(g.push_audio(vec![1; 100], "").is_empty());
    assert!(g.push_audio(vec![2; 100], "nex").is_empty());
    // Enough English text: everything buffered comes out at once.
    let out = g.push_audio(vec![3; 100], "next Friday deadline");
    assert_eq!(out.len(), 300);
    // Later chunks in the same turn stream straight through.
    assert_eq!(g.push_audio(vec![4; 50], "next Friday deadline q").len(), 50);
}

#[test]
fn drops_target_language_speech() {
    let mut g = ReadoutGate::new("vi");
    assert!(g.push_audio(vec![1; 100], "").is_empty());
    let out = g.push_audio(vec![2; 100], "hạn chót thứ Sáu");
    assert!(out.is_empty());
    // Subsequent chunks also dropped.
    assert!(g.push_audio(vec![3; 100], "hạn chót thứ Sáu tuần sau").is_empty());
    // Next turn re-decides.
    g.end_turn("hạn chót thứ Sáu tuần sau");
    let out = g.push_audio(vec![4; 100], "ok let's do that then");
    assert_eq!(out.len(), 100);
}

#[test]
fn end_turn_flushes_short_undecided_turns() {
    let mut g = ReadoutGate::new("vi");
    assert!(g.push_audio(vec![1; 80], "yes").is_empty());
    // Short English turn ends before the char threshold: decided at end.
    let out = g.end_turn("yes");
    assert_eq!(out.len(), 80);
}

#[test]
fn end_turn_drops_short_vietnamese_turns() {
    let mut g = ReadoutGate::new("vi");
    assert!(g.push_audio(vec![1; 80], "dạ").is_empty());
    assert!(g.end_turn("dạ").is_empty());
}

#[test]
fn readout_buffer_is_bounded() {
    let mut g = ReadoutGate::new("vi");
    for _ in 0..40 {
        g.push_audio(vec![0; 24_000], ""); // 1 s each, never decidable
    }
    assert!(g.buffered() <= MAX_BUFFERED_SAMPLES);
}

#[test]
fn japanese_read_out_when_target_vietnamese() {
    let mut g = ReadoutGate::new("vi");
    let out = g.push_audio(vec![7; 10], "来週の金曜日ですか");
    assert_eq!(out.len(), 10);
}
