use sally::path::FilePath;
use sally::split::FrameState::{Overlap, Silence, Solo};
use sally::split::{
    decode, find_boundary, model_frames, model_url, models_dir, smooth, Feed, FrameState,
    SplitWindow, Step, HOP_SAMPLES, MODEL_URL, WINDOW_SAMPLES,
};

/// ~17 ms per frame like the real model output.
const STEP: Step = Step { ms: 17, frames: 1 };

fn run(state: FrameState, ms: f64) -> Vec<FrameState> {
    vec![state; (ms / 17.0).ceil() as usize]
}

/// Bits are ordered as the numbers are, from nought up.
fn ranks(frame: &[f32; 7]) -> [i64; 7] {
    frame.map(|x| x.to_bits() as i64)
}

#[test]
fn decode_maps_powerset_classes() {
    let mut silence = [0f32; 7];
    silence[0] = 1.0;
    let mut solo1 = [0f32; 7];
    solo1[2] = 1.0;
    let mut overlap = [0f32; 7];
    overlap[5] = 1.0;
    assert_eq!(
        decode(&vec![ranks(&silence), ranks(&solo1), ranks(&overlap)]),
        vec![Silence, Solo(1), Overlap]
    );
}

#[test]
fn smooth_removes_single_frame_flicker() {
    let mut states = vec![Solo(0); 20];
    states[10] = Solo(1);
    assert_eq!(smooth(&states, 9), vec![Solo(0); 20]);
}

#[test]
fn clean_handoff_is_a_boundary() {
    let mut s = run(Solo(0), 2000.0);
    let b_start_frame = s.len();
    s.extend(run(Solo(1), 2000.0));
    let b = find_boundary(&s, STEP, 10_000, None).expect("boundary");
    assert_eq!(b, 10_000 + (b_start_frame as f64 * 17.0) as u64);
}

#[test]
fn handoff_across_short_silence_is_a_boundary() {
    let mut s = run(Solo(0), 2000.0);
    s.extend(run(Silence, 400.0));
    s.extend(run(Solo(2), 1500.0));
    assert!(find_boundary(&s, STEP, 0, None).is_some());
}

#[test]
fn long_silence_is_not_a_boundary() {
    let mut s = run(Solo(0), 2000.0);
    s.extend(run(Silence, 3000.0));
    s.extend(run(Solo(1), 2000.0));
    assert!(find_boundary(&s, STEP, 0, None).is_none());
}

#[test]
fn short_interjection_is_not_a_boundary() {
    let mut s = run(Solo(0), 3000.0);
    s.extend(run(Solo(1), 300.0)); // "mm-hm"
    s.extend(run(Solo(0), 3000.0));
    assert!(find_boundary(&s, STEP, 0, None).is_none());
}

#[test]
fn same_speaker_resuming_is_not_a_boundary() {
    let mut s = run(Solo(1), 2000.0);
    s.extend(run(Silence, 500.0));
    s.extend(run(Solo(1), 2000.0));
    assert!(find_boundary(&s, STEP, 0, None).is_none());
}

#[test]
fn handoff_through_overlap_is_a_boundary() {
    let mut s = run(Solo(0), 2000.0);
    s.extend(run(Overlap, 500.0)); // interruption
    s.extend(run(Solo(1), 1500.0));
    assert!(find_boundary(&s, STEP, 0, None).is_some());
}

#[test]
fn refractory_suppresses_rapid_boundaries() {
    let mut s = run(Solo(0), 2000.0);
    s.extend(run(Solo(1), 2000.0));
    let b = find_boundary(&s, STEP, 0, None).expect("boundary");
    assert!(find_boundary(&s, STEP, 0, Some(b)).is_none(), "same boundary again");
}

#[test]
fn silence_only_window_has_no_boundary() {
    let s = run(Silence, 10_000.0);
    assert!(find_boundary(&s, STEP, 0, None).is_none());
}

#[test]
fn windows_slide_and_hop() {
    let mut w: SplitWindow<u32> = SplitWindow::new();
    let mut full = Vec::new();
    let mut t = 0u64;
    while full.is_empty() {
        let samples: Vec<u32> = (0..1600).map(|i| t as u32 * 16 + i).collect();
        full.extend(w.feed(&Feed { samples, t_ms: t, suppress: false }, 0));
        t += 100;
    }
    assert_eq!(t as usize * 16, WINDOW_SAMPLES);
    assert_eq!(full[0].samples.len(), WINDOW_SAMPLES);
    assert_eq!(full[0].end_ms, 10_000);
    // The next window comes after the hop, and what was suppressed is silent.
    let samples = vec![7; HOP_SAMPLES];
    let next = w.feed(&Feed { samples, t_ms: t, suppress: true }, 0).expect("window");
    assert_eq!(next.samples[0], HOP_SAMPLES as u32);
    assert!(next.samples[WINDOW_SAMPLES - HOP_SAMPLES..].iter().all(|&s| s == 0));
}

#[test]
fn a_window_tells_its_newest_handoff_once() {
    let mut w: SplitWindow<f32> = SplitWindow::new();
    // 100 frames of 100 ms each.
    let (first, second) = ([0, 9, 0, 0, 0, 0, 0], [0, 8, 9, 0, 0, 0, 0]);
    let frames: Vec<[i64; 7]> = (0..100).map(|i| if i < 50 { first } else { second }).collect();
    assert_eq!(w.boundary(&frames, 20_000), Some(15_000));
    assert_eq!(w.boundary(&frames, 20_000), None);
}

#[test]
fn the_first_of_the_likeliest_classes_counts() {
    assert_eq!(decode(&vec![[5, 5, 5, 5, 5, 5, 5]]), vec![Silence]);
    assert_eq!(decode(&vec![[-3, -1, -2, -1, -9, -9, -9]]), vec![Solo(0)]);
    // What the model has no class for ranks as nought.
    let rows = model_frames(&vec![-1, -2, -3, -4], 2, 2);
    assert_eq!(rows, vec![[-1, -2, 0, 0, 0, 0, 0], [-3, -4, 0, 0, 0, 0, 0]]);
    let wide = model_frames(&(0..9).collect(), 1, 9);
    assert_eq!(wide, vec![[0, 1, 2, 3, 4, 5, 6]]);
}

#[test]
fn the_model_address_can_be_overridden() {
    assert_eq!(model_url(""), MODEL_URL);
    assert_eq!(model_url("http://local/m.onnx"), "http://local/m.onnx");
    assert_eq!(models_dir(&FilePath::new("/d")).names, vec!["models".to_string()]);
}
