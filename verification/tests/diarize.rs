use sally::audio::recorder::WavRecorder;
use sally::diarize::{
    assign_speakers, cluster, meeting_spans, model_url, number_speakers, read_wav_16k_mono,
    MAX_SPEAKERS, MODEL_URL,
};
use sally::error::SallyError;
use sally::store::TranscriptChunk;

fn unit(v: &[f32]) -> Vec<f32> {
    let n = v.iter().map(|x| x * x).sum::<f32>().sqrt();
    v.iter().map(|x| x / n).collect()
}

/// Similarities in millionths.
fn key(s: f32) -> i64 {
    (s as f64 * 1e6) as i64
}

fn sims(embeddings: &[Vec<f32>]) -> Vec<Vec<i64>> {
    embeddings
        .iter()
        .map(|a| {
            embeddings.iter().map(|b| key(a.iter().zip(b).map(|(x, y)| x * y).sum())).collect()
        })
        .collect()
}

#[test]
fn two_clear_groups_form_two_clusters() {
    let a1 = unit(&[1.0, 0.05, 0.0]);
    let a2 = unit(&[0.95, 0.1, 0.0]);
    let b1 = unit(&[0.0, 1.0, 0.05]);
    let b2 = unit(&[0.05, 0.95, 0.0]);
    let labels = cluster(&sims(&[a1, b1, a2, b2]), key(0.5));
    assert_eq!(labels[0], labels[2]);
    assert_eq!(labels[1], labels[3]);
    assert_ne!(labels[0], labels[1]);
}

#[test]
fn similar_embeddings_collapse_to_one_cluster() {
    let e1 = unit(&[1.0, 0.1, 0.1]);
    let e2 = unit(&[0.9, 0.2, 0.1]);
    let e3 = unit(&[0.95, 0.15, 0.05]);
    let labels = cluster(&sims(&[e1, e2, e3]), key(0.5));
    assert!(labels.iter().all(|&l| l == labels[0]));
}

#[test]
fn speaker_cap_forces_merges() {
    // 10 mutually orthogonal-ish embeddings but the cap is 8: forced
    // merges must leave at most MAX_SPEAKERS clusters.
    let mut embs = Vec::new();
    for i in 0..10 {
        let mut v = vec![0.02f32; 10];
        v[i] = 1.0;
        embs.push(unit(&v));
    }
    let labels = cluster(&sims(&embs), key(0.99));
    let distinct: std::collections::BTreeSet<usize> = labels.iter().copied().collect();
    assert!(distinct.len() <= MAX_SPEAKERS, "got {}", distinct.len());
}

#[test]
fn wav_roundtrip_through_recorder() {
    let (mut rec, mut file) = WavRecorder::create();
    let edit = rec.write(0, &vec![8000i16; 1600]);
    file.extend(vec![0u8; edit.pad_bytes as usize]);
    file.extend(&edit.bytes);
    let sizes = rec.finalize();
    file[4..8].copy_from_slice(&sizes.riff);
    file[40..44].copy_from_slice(&sizes.data);
    let samples = read_wav_16k_mono(&file).unwrap();
    assert_eq!(samples.len(), 1600);
    assert!((samples[0] as f32 / 32768.0 - 8000.0 / 32768.0).abs() < 1e-4);
}

#[test]
fn assignments_number_speakers_by_first_appearance() {
    let same_a = unit(&[1.0, 0.0]);
    let other = unit(&[0.0, 1.0]);
    let same_b = unit(&[0.98, 0.05]);
    let labels = cluster(&sims(&[same_a, other, same_b]), key(0.5));
    assert_eq!(labels[0], labels[2]);
    assert_ne!(labels[0], labels[1]);
}

#[test]
fn groups_join_by_their_weakest_pair() {
    // 0-1 are alike and 1-2 are alike, but 0-2 are not.
    let s = vec![vec![100, 80, 10], vec![80, 100, 70], vec![10, 70, 100]];
    assert_eq!(cluster(&s, 50), vec![0, 0, 1]);
    assert_eq!(cluster(&s, 10), vec![0, 0, 0]);
    assert_eq!(cluster(&s, 90), vec![0, 1, 2]);
    assert!(cluster(&vec![], 0).is_empty());
}

#[test]
fn speakers_are_numbered_as_they_are_heard() {
    let out = number_speakers(&vec![5, 10, 20, 30], &vec![7, 2, 7, 4]);
    let labels: Vec<&str> = out.iter().map(|a| a.label.as_str()).collect();
    assert_eq!(labels, vec!["Speaker 1", "Speaker 2", "Speaker 1", "Speaker 3"]);
    assert_eq!(out[2].start_ms, 20);
}

#[test]
fn entries_get_the_label_of_their_voice() {
    let s = vec![vec![9, 0, 8], vec![0, 9, 1], vec![8, 1, 9]];
    let out = assign_speakers(&vec![0, 1000, 2000], &s, 5);
    let labels: Vec<&str> = out.iter().map(|a| a.label.as_str()).collect();
    assert_eq!(labels, vec!["Speaker 1", "Speaker 2", "Speaker 1"]);
}

fn chunk(start_ms: u64, speaker: &str) -> TranscriptChunk {
    TranscriptChunk { start_ms, speaker: speaker.to_string() }
}

#[test]
fn spans_follow_the_entries() {
    let chunks = vec![
        chunk(0, "Meeting"),
        chunk(2_000, "You"),
        chunk(5_000, "Meeting"),
        chunk(5_500, "Meeting"),
        chunk(50_000, "Meeting"),
    ];
    // 60 s of audio.
    let spans = meeting_spans(&chunks, 60_000 * 16);
    let shown: Vec<(u64, usize, usize)> =
        spans.iter().map(|s| (s.start_ms, s.lo / 16, s.hi / 16)).collect();
    // The entry at 5 s is too short; the next one is cut at the longest look.
    assert_eq!(
        shown,
        vec![(0, 0, 2_000), (5_500, 5_500, 35_500), (50_000, 50_000, 60_000)]
    );
    // What lies behind the end of the audio is not looked at.
    assert_eq!(meeting_spans(&chunks, 1_000 * 16).len(), 1);
    assert!(meeting_spans(&chunks, 700 * 16).is_empty());
}

fn refused(bytes: &Vec<u8>) -> String {
    match read_wav_16k_mono(bytes) {
        Err(SallyError::Storage(m)) => m,
        other => panic!("{:?}", other),
    }
}

#[test]
fn other_files_are_refused() {
    assert_eq!(refused(&b"RIFF".to_vec()), "not a WAV file");
    let (_, file) = WavRecorder::create();
    let mut stereo = file.clone();
    stereo[22] = 2;
    assert_eq!(
        refused(&stereo),
        "unsupported WAV format (1/2ch/16000Hz/16bit); expected PCM mono 16 kHz 16-bit"
    );
    assert_eq!(refused(&file[..36].to_vec()), "WAV missing fmt/data chunk");
}

#[test]
fn other_chunks_are_passed_over() {
    let (_, file) = WavRecorder::create();
    let mut odd = file[..36].to_vec();
    // A chunk of odd size is padded to an even one.
    odd.extend(b"LIST\x03\x00\x00\x00abc\x00");
    odd.extend(b"data\x04\x00\x00\x00\x01\x00\xff\xff");
    assert_eq!(read_wav_16k_mono(&odd).unwrap(), vec![1, -1]);
    // A size that tells of more than there is ends with the file.
    let mut cut = file[..36].to_vec();
    cut.extend(b"data\xff\xff\x00\x00\x02\x00\x07");
    assert_eq!(read_wav_16k_mono(&cut).unwrap(), vec![2]);
}

#[test]
fn the_embedding_model_address_can_be_overridden() {
    assert_eq!(model_url(""), MODEL_URL);
    assert_eq!(model_url("http://local/e.onnx"), "http://local/e.onnx");
}
