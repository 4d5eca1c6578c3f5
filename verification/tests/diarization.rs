use sally::audio::CHUNK_SAMPLES;
use sally::diarization::{
    label_for_span_in, nearest_voice, remap_speakers, DiarizerCore, Placement, SampleClock,
    SpeakerLabel, SpeakerLookup, SpeakerRange, Work,
};

/// Voices told apart by amplitude: quiet and loud ones are unlike each other.
struct Voices {
    core: DiarizerCore,
    known: Vec<bool>,
}

impl Voices {
    fn new() -> Voices {
        Voices { core: DiarizerCore::new_fallback(), known: Vec::new() }
    }

    fn settle(&mut self, work: Work) {
        if let Work::Embed(segment) = work {
            let sum: i64 = segment.samples.iter().map(|&s| (s as i64).abs()).sum();
            let quiet = sum / (segment.samples.len() as i64) < 10_000;
            let sims: Vec<i64> =
                self.known.iter().map(|&k| if k == quiet { 1000 } else { 0 }).collect();
            let nearest = nearest_voice(&sims, 800);
            match self.core.place(segment.start_ms, segment.end_ms, nearest) {
                Placement::Joined(_) => {}
                Placement::Founded(n) => {
                    assert_eq!(n as usize, self.known.len());
                    self.known.push(quiet);
                }
            }
        }
    }

    fn push(&mut self, samples: &Vec<i16>, t_ms: u64) {
        assert!(self.core.can_take(samples.len(), t_ms));
        let loud = samples.iter().any(|&s| s.abs() > 500);
        let work = self.core.push_chunk(samples, loud, t_ms);
        self.settle(work);
    }

    fn finish(&mut self) {
        let work = self.core.finish();
        self.settle(work);
        self.core.finished();
    }
}

fn speech_chunk(level: i16) -> Vec<i16> {
    (0..CHUNK_SAMPLES).map(|i| if i % 2 == 0 { level } else { -level }).collect()
}

fn silence_chunk() -> Vec<i16> {
    vec![0; CHUNK_SAMPLES]
}

fn run_segments(d: &mut Voices, levels: &[i16]) {
    let mut t = 0u64;
    for &lvl in levels {
        for _ in 0..10 {
            d.push(&speech_chunk(lvl), t);
            t += 100;
        }
        for _ in 0..10 {
            d.push(&silence_chunk(), t);
            t += 100;
        }
    }
}

#[test]
fn same_voice_gets_same_label() {
    let mut d = Voices::new();
    run_segments(&mut d, &[5000, 5000]);
    d.finish();
    let ranges = d.core.ranges();
    assert_eq!(ranges.len(), 2);
    assert_eq!(ranges[0].label, ranges[1].label);
}

#[test]
fn different_voices_get_different_labels() {
    let mut d = Voices::new();
    run_segments(&mut d, &[2000, 20000, 2000]);
    d.finish();
    let ranges = d.core.ranges();
    assert_eq!(ranges.len(), 3);
    assert_ne!(ranges[0].label, ranges[1].label);
    assert_eq!(ranges[0].label, ranges[2].label);
}

#[test]
fn short_blips_ignored() {
    let mut d = Voices::new();
    d.push(&speech_chunk(5000), 0);
    d.push(&speech_chunk(5000), 100);
    for i in 0..10 {
        d.push(&silence_chunk(), 200 + i * 100);
    }
    d.finish();
    assert!(d.core.ranges().is_empty());
}

#[test]
fn span_labeling_picks_dominant() {
    let mut d = Voices::new();
    run_segments(&mut d, &[5000]);
    d.finish();
    let ranges = d.core.ranges();
    let label = label_for_span_in(ranges, 0, 1000).expect("label");
    assert_eq!(label, SpeakerLabel::Speaker(1));
    assert!(label_for_span_in(ranges, 500_000, 501_000).is_none());
}

#[test]
fn overlap_of_distinct_speakers_is_multiple() {
    let ranges = vec![
        SpeakerRange { start_ms: 0, end_ms: 1000, label: SpeakerLabel::Speaker(1) },
        SpeakerRange { start_ms: 400, end_ms: 1400, label: SpeakerLabel::Speaker(2) },
    ];
    assert_eq!(label_for_span_in(&ranges, 0, 1400), Some(SpeakerLabel::MultipleSpeakers));
}

#[test]
fn a_speaker_dominates_in_pieces() {
    let range = |start_ms, end_ms, n| SpeakerRange {
        start_ms,
        end_ms,
        label: SpeakerLabel::Speaker(n),
    };
    let ranges = vec![range(0, 400, 1), range(500, 900, 1), range(900, 1000, 2)];
    assert_eq!(label_for_span_in(&ranges, 0, 1000), Some(SpeakerLabel::Speaker(1)));
    // Seven tenths are enough, less is not.
    let ranges = vec![range(0, 300, 2), range(300, 600, 1), range(600, 1000, 1)];
    assert_eq!(label_for_span_in(&ranges, 0, 1000), Some(SpeakerLabel::Speaker(1)));
    assert_eq!(label_for_span_in(&ranges, 0, 999), Some(SpeakerLabel::MultipleSpeakers));
}

#[test]
fn sample_clock_survives_gaps() {
    let mut clock = SampleClock::new();
    clock.push_chunk(1600, 0); // 0..100 ms
    clock.push_chunk(1600, 100); // 100..200 ms
    // 5 s gap (suppressed chunks), stream continues at 5200 ms.
    clock.push_chunk(1600, 5200);
    assert_eq!(clock.to_ms(0), 0);
    assert_eq!(clock.to_ms(1600), 100);
    assert_eq!(clock.to_ms(3200), 5200);
    assert_eq!(clock.to_ms(4000), 5250);
}

fn range(start_ms: u64, end_ms: u64, n: u32) -> SpeakerRange {
    SpeakerRange { start_ms, end_ms, label: SpeakerLabel::Speaker(n) }
}

#[test]
fn first_pass_labels_by_appearance_order() {
    // No previous ranges: pipeline ids (arbitrary numbers) map to
    // Speaker 1, 2, ... in order of first appearance.
    let mapping =
        remap_speakers(&vec![], &vec![(0, 2000, 7), (2000, 4000, 3), (4000, 6000, 7)]);
    assert_eq!(mapping[&7], 1);
    assert_eq!(mapping[&3], 2);
}

#[test]
fn renumbered_pipeline_ids_keep_stable_labels() {
    // Previous pass: Speaker 1 owned 0-10 s, Speaker 2 owned 10-20 s.
    // New pass returns the same people but with swapped raw ids; the
    // overlap vote must keep each person's label.
    let prev = vec![range(0, 10_000, 1), range(10_000, 20_000, 2)];
    let mapping = remap_speakers(
        &prev,
        &vec![(0, 9_000, 1), (10_000, 19_000, 0), (20_000, 22_000, 1)],
    );
    assert_eq!(mapping[&1], 1, "person in 0-10s must stay Speaker 1");
    assert_eq!(mapping[&0], 2, "person in 10-20s must stay Speaker 2");
}

#[test]
fn new_voice_gets_fresh_label() {
    let prev = vec![range(0, 10_000, 1), range(10_000, 20_000, 2)];
    let mapping = remap_speakers(
        &prev,
        &vec![(0, 9_000, 0), (10_000, 19_000, 1), (20_000, 25_000, 2)],
    );
    assert_eq!(mapping[&0], 1);
    assert_eq!(mapping[&1], 2);
    assert_eq!(mapping[&2], 3, "unseen voice must get the next label");
}

#[test]
fn fallback_labels_stay_stable_across_alternation() {
    let mut d = Voices::new();
    // Voice A, voice B, then voice A again across many segments.
    run_segments(&mut d, &[5000, 20000, 5000, 20000, 5000]);
    d.finish();
    let ranges = d.core.ranges();
    assert_eq!(ranges.len(), 5);
    assert_eq!(ranges[0].label, ranges[2].label);
    assert_eq!(ranges[2].label, ranges[4].label);
    assert_eq!(ranges[1].label, ranges[3].label);
    assert_ne!(ranges[0].label, ranges[1].label);
}

#[test]
fn finishing_shows_the_labels() {
    let mut d = Voices::new();
    run_segments(&mut d, &[5000]);
    d.finish();
    assert_eq!(d.core.label_for_span(0, 1000), Some(SpeakerLabel::Speaker(1)));
    assert!(d.core.version() >= 1);
    assert_eq!(d.core.latest_range(), Some((1, SpeakerLabel::Speaker(1))));
}

#[test]
fn labels_are_shown() {
    assert_eq!(SpeakerLabel::You.display(), "You");
    assert_eq!(SpeakerLabel::Speaker(12).display(), "Speaker 12");
    assert_eq!(SpeakerLabel::Meeting.display(), "Meeting");
    assert_eq!(SpeakerLabel::MultipleSpeakers.display(), "Multiple speakers");
}

#[test]
fn passes_replace_the_ranges_and_space_themselves() {
    let mut core = DiarizerCore::new_models();
    let chunk = vec![100i16; 16_000];
    let mut runs = 0;
    for second in 0..60u64 {
        if let Work::RunPass = core.push_chunk(&chunk, true, second * 1000) {
            runs += 1;
            let n = core.retained().expect("audio").len() as u64;
            let raw = vec![(0, 80_000, 4), (80_000, n, 9)];
            assert!(core.can_finish(&raw));
            core.finish_pass(Some(raw), 10);
        }
    }
    assert!(runs >= 2);
    let labels: Vec<SpeakerLabel> = core.ranges().iter().map(|r| r.label).collect();
    assert_eq!(labels, vec![SpeakerLabel::Speaker(1), SpeakerLabel::Speaker(2)]);
    // A pass without a result keeps them.
    core.finish_pass(None, 10);
    assert_eq!(core.ranges().len(), 2);
}

#[test]
fn nearest_is_the_first_best() {
    assert_eq!(nearest_voice(&vec![], 0), None);
    assert_eq!(nearest_voice(&vec![3, 9, 9], 5), Some((1, true)));
    assert_eq!(nearest_voice(&vec![3, 2], 5), Some((0, false)));
}
