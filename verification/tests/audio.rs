use sally::audio::app_capture::{
    choose_screen_source, list_audio_apps, process_name, resolve_app_pid, sort_apps,
    visible_app_names, AudioApp, AudioSession, ScreenSource,
};
use sally::audio::capture::{
    find_device, find_loopback_device, is_loopback_name, macos_version, wants_tap, CaptureOutcome, CapturePlan,
    CaptureStep, CaptureWay, DevicePick,
};
use sally::audio::frames::{
    buffer_words, interleaved_frames, planar_frames, take_frames, tap_frames, TapBuffer,
};
use sally::audio::pipeline::{Pipeline, MAX_BUFFERED_SAMPLES};
use sally::audio::playback::Player;
use sally::audio::recorder::{WavEdit, WavRecorder, WavSizes};
use sally::audio::tap::{aggregate_uid, teardown, TapPart, TapSetup};
use sally::audio::{AudioSource, CHUNK_SAMPLES, TARGET_SAMPLE_RATE};
use sally::error::SallyError;
use std::collections::VecDeque;

#[test]
fn a_missing_lane_is_padded() {
    let mut p: Pipeline<f32> = Pipeline::new();
    // A lane with no counterpart must be a full chunk ahead before the
    // pipeline gives up on the other lane and pads it.
    p.push(AudioSource::System, 0, &vec![0.5; CHUNK_SAMPLES * 2]);
    let chunk = p.next_chunk(0.0).expect("chunk");
    assert_eq!(chunk.system, vec![0.5; CHUNK_SAMPLES]);
    assert_eq!(chunk.mic, vec![0.0; CHUNK_SAMPLES]);
}

#[test]
fn waits_for_lagging_lane_instead_of_padding() {
    let mut p: Pipeline<f32> = Pipeline::new();
    p.push(AudioSource::Microphone, 0, &vec![0.3; CHUNK_SAMPLES]);
    // System lane is 10 samples short (delivery jitter): must wait, not
    // splice silence into the middle of continuous audio.
    p.push(AudioSource::System, 0, &vec![0.5; CHUNK_SAMPLES - 10]);
    assert!(!p.chunk_ready(), "must wait for the lagging lane");
    p.push(AudioSource::System, 0, &vec![0.5; 10]);
    let chunk = p.next_chunk(0.0).expect("chunk");
    assert!(
        chunk.system.iter().all(|&s| s != 0.0),
        "no silence spliced into the system lane"
    );
}

#[test]
fn sequence_numbers_increase() {
    let mut p: Pipeline<f32> = Pipeline::new();
    p.push(AudioSource::System, 0, &vec![0.1; CHUNK_SAMPLES * 4]);
    assert_eq!(p.next_chunk(0.0).unwrap().seq, 0);
    assert_eq!(p.next_chunk(0.0).unwrap().seq, 1);
    assert_eq!(p.next_chunk(0.0).unwrap().seq, 2);
}

#[test]
fn pipeline_buffer_is_bounded() {
    let mut p: Pipeline<f32> = Pipeline::new();
    for _ in 0..40 {
        p.push(
            AudioSource::System,
            0,
            &vec![0.1; TARGET_SAMPLE_RATE as usize], // 1 s each
        );
    }
    assert!(p.available(AudioSource::System) <= MAX_BUFFERED_SAMPLES);
    assert!(p.take_drop_flag());
    assert!(!p.take_drop_flag());
}

#[test]
fn chunks_tell_their_time_and_keep_the_audio() {
    let mut p: Pipeline<u32> = Pipeline::default();
    let all: Vec<u32> = (0..4000).collect();
    p.push(AudioSource::Microphone, 730, &all);
    p.push(AudioSource::System, 999, &all);
    let mut out = Vec::new();
    let mut t = 730;
    while p.has_room() {
        let Some(c) = p.next_chunk(0) else { break };
        assert_eq!(c.t_ms, t);
        t += 50;
        out.extend(c.mic);
    }
    assert_eq!(out, all);
    assert!(!p.take_drop_flag());
}

#[test]
fn the_oldest_audio_is_dropped() {
    let mut p: Pipeline<u32> = Pipeline::new();
    let n = MAX_BUFFERED_SAMPLES as u32;
    p.push(AudioSource::System, 0, &(0..n + 5).collect());
    assert_eq!(p.next_chunk(0).unwrap().system[0], 5);
}

#[test]
fn playback_is_bounded_and_has_a_tail() {
    let mut p: Player<i32> = Player::new(2);
    assert!(!p.is_active(0));
    // 15 s at two samples a second.
    p.push(&(0..40).collect(), 100);
    assert_eq!(p.pull(-1), 10);
    assert!(p.is_active(10_000));
    for _ in 0..29 {
        p.pull(-1);
    }
    assert_eq!(p.pull(-1), -1);
    assert!(p.is_active(10_499));
    assert!(!p.is_active(10_500));
    p.push(&vec![1, 2], 11_000);
    p.clear();
    assert_eq!(p.pull(-1), -1);
}

fn patch(file: &mut Vec<u8>, s: &WavSizes) {
    file[4..8].copy_from_slice(&s.riff);
    file[40..44].copy_from_slice(&s.data);
}

fn apply(file: &mut Vec<u8>, e: &WavEdit) {
    file.extend(vec![0u8; e.pad_bytes as usize]);
    file.extend(&e.bytes);
    if let Some(s) = &e.sizes {
        patch(file, s);
    }
}

#[test]
fn pads_silence_to_timestamp_and_patches_header() {
    let (mut rec, mut bytes) = WavRecorder::create();
    // First chunk starts at 500 ms: 8000 samples of silence expected first.
    assert!(rec.can_take(500, 800));
    apply(&mut bytes, &rec.write(500, &vec![1000i16; 800]));
    patch(&mut bytes, &rec.finalize());
    assert_eq!(&bytes[0..4], b"RIFF");
    assert_eq!(&bytes[8..12], b"WAVE");
    let data_len = u32::from_le_bytes(bytes[40..44].try_into().unwrap());
    assert_eq!(data_len as usize, (8000 + 800) * 2);
    assert_eq!(bytes.len(), 44 + data_len as usize);
    // The pad region is silence; the payload follows it.
    assert_eq!(bytes[44], 0);
    assert_eq!(
        i16::from_le_bytes(bytes[44 + 8000 * 2..44 + 8000 * 2 + 2].try_into().unwrap()),
        1000
    );
}

#[test]
fn contiguous_chunks_do_not_pad() {
    let (mut rec, mut bytes) = WavRecorder::create();
    apply(&mut bytes, &rec.write(0, &vec![1i16; 800])); // 0–50 ms
    apply(&mut bytes, &rec.write(50, &vec![2i16; 800])); // 50–100 ms
    patch(&mut bytes, &rec.finalize());
    let data_len = u32::from_le_bytes(bytes[40..44].try_into().unwrap());
    assert_eq!(data_len as usize, 1600 * 2);
}

#[test]
fn sizes_are_patched_along_the_way() {
    let (mut rec, mut bytes) = WavRecorder::create();
    let mut patched = false;
    for i in 0..110u64 {
        let e = rec.write(i * 50, &vec![3i16; 800]);
        patched = patched || e.sizes.is_some();
        apply(&mut bytes, &e);
    }
    assert!(patched);
    let told = u32::from_le_bytes(bytes[40..44].try_into().unwrap()) as usize;
    assert!(told > 0 && told <= bytes.len() - 44);
}

fn session(pid: u32, name: &str) -> AudioSession {
    AudioSession { pid, name: Some(name.to_string()) }
}

#[test]
fn applications_are_listed_by_name() {
    let apps = list_audio_apps(&vec![
        session(4, "Zoom.exe"),
        session(0, "System"),
        session(7, "chrome.exe"),
        session(8, "ZOOM.EXE"),
        AudioSession { pid: 9, name: None },
        session(5, "ÉCRAN"),
        session(6, "éclair"),
    ]);
    let shown: Vec<(u32, &str)> = apps.iter().map(|a| (a.pid, a.name.as_str())).collect();
    assert_eq!(shown, vec![(7, "chrome.exe"), (4, "Zoom.exe"), (6, "éclair"), (5, "ÉCRAN")]);
    assert_eq!(resolve_app_pid(&apps, "zoom.EXE"), Some(4));
    assert_eq!(resolve_app_pid(&apps, "teams.exe"), None);
}

#[test]
fn processes_are_named_by_their_file() {
    assert_eq!(process_name("\\Device\\Vol\\Zoom.exe").unwrap(), "Zoom.exe");
    assert_eq!(process_name("/bin/app").unwrap(), "app");
    assert_eq!(process_name("plain").unwrap(), "plain");
    assert!(process_name("dir/").is_none());
    assert!(process_name("").is_none());
}

#[test]
fn only_applications_on_screen_are_offered() {
    let s = |v: &[&str]| v.iter().map(|x| x.to_string()).collect::<Vec<String>>();
    let names = visible_app_names(
        &s(&["Zoom", "", "Finder", "Zoom"]),
        &s(&["loginwindow", "Zoom", "", "Finder", "Zoom"]),
    );
    assert_eq!(names, s(&["Finder", "Zoom"]));
}

fn devices(names: &[&str]) -> Vec<Option<String>> {
    let mut out: Vec<Option<String>> = names.iter().map(|n| Some(n.to_string())).collect();
    out.insert(0, None);
    out
}

#[test]
fn devices_are_picked_by_name() {
    let list = devices(&["Desk mic", "Headset"]);
    assert_eq!(find_device(Some(&list), ""), DevicePick::Default);
    assert_eq!(find_device(Some(&list), "Headset"), DevicePick::At(2));
    assert_eq!(find_device(Some(&list), "Unplugged"), DevicePick::Default);
    assert_eq!(find_device(None, "Headset"), DevicePick::Nothing);
}

#[test]
fn the_microphone_is_never_the_loopback() {
    let list = devices(&["Desk mic", "BlackHole 2ch"]);
    assert_eq!(find_loopback_device(Some(&list), ""), DevicePick::At(2));
    assert_eq!(find_loopback_device(Some(&list), "Desk mic"), DevicePick::At(1));
    assert_eq!(find_loopback_device(Some(&list), "Unplugged"), DevicePick::Nothing);
    assert_eq!(find_loopback_device(Some(&devices(&["Desk mic"])), ""), DevicePick::Nothing);
    assert_eq!(find_loopback_device(None, ""), DevicePick::Nothing);
}

#[test]
fn versions_are_read() {
    assert_eq!(macos_version("14.4.1\n"), Some((14, 4)));
    assert_eq!(macos_version("15"), Some((15, 0)));
    assert_eq!(macos_version("13.x"), Some((13, 0)));
    assert_eq!(macos_version("+12.+6"), Some((12, 6)));
    assert_eq!(macos_version("99999999999.1"), None);
    assert_eq!(macos_version("beta"), None);
    assert_eq!(macos_version(""), None);
}

#[test]
fn taps_need_a_new_system_or_a_wish() {
    assert!(wants_tap("auto", Some((14, 4))));
    assert!(!wants_tap("auto", Some((14, 3))));
    assert!(wants_tap("", Some((15, 0))));
    assert!(!wants_tap("auto", None));
    assert!(wants_tap("tap", None));
    assert!(!wants_tap("screencapturekit", Some((15, 0))));
}

#[test]
fn capture_falls_back_in_turn() {
    let mut plan = CapturePlan::new("", true);
    assert_eq!(plan.way, CaptureWay::Tap);
    assert!(matches!(plan.step(CaptureOutcome::Failed("denied".into())), CaptureStep::Next));
    assert_eq!(plan.way, CaptureWay::ScreenCapture);
    assert!(matches!(plan.step(CaptureOutcome::Failed("no screen".into())), CaptureStep::Next));
    assert_eq!(plan.way, CaptureWay::Loopback);
    match plan.no_device_error() {
        SallyError::Audio(m) => assert!(
            m.contains("either:\nCore Audio tap: denied\nScreenCaptureKit: no screen\nInstall"),
            "{m}"
        ),
        _ => panic!("kind"),
    }
    match plan.step(CaptureOutcome::Failed("loopback config: x".into())) {
        CaptureStep::GiveUp(SallyError::Audio(m)) => assert_eq!(m, "loopback config: x"),
        _ => panic!("must give up"),
    }
}

#[test]
fn one_application_is_isolated_where_it_can_be() {
    let mut plan = CapturePlan::new("Zoom", true);
    assert_eq!(plan.way, CaptureWay::AppTap);
    assert!(matches!(plan.step(CaptureOutcome::AppNotFound), CaptureStep::Next));
    assert!(plan.attempts.is_empty());
    assert!(matches!(
        plan.step(CaptureOutcome::Started),
        CaptureStep::Running { app_isolated: true }
    ));
    let mut plan = CapturePlan::new("", false);
    assert_eq!(plan.way, CaptureWay::ScreenCapture);
    assert!(matches!(
        plan.step(CaptureOutcome::Started),
        CaptureStep::Running { app_isolated: false }
    ));
}

#[test]
fn equal_keys_keep_their_order() {
    let app = |pid: u32, name: &str| AudioApp { pid, name: name.to_string() };
    let apps = vec![app(1, "b"), app(2, "a"), app(3, "B")];
    let keys = vec!["b".to_string(), "a".to_string(), "b".to_string()];
    let pids: Vec<u32> = sort_apps(&apps, &keys).iter().map(|a| a.pid).collect();
    assert_eq!(pids, vec![2, 1, 3]);
}

#[test]
fn frames_wait_until_they_are_whole() {
    let stream: Vec<u8> = (0..21).collect();
    let mut queue: VecDeque<u8> = stream[..13].iter().copied().collect();
    let mut words = take_frames(&mut queue, 2);
    assert_eq!(words, vec![0x0302_0100, 0x0706_0504]);
    assert_eq!(queue.len(), 5);
    queue.extend(&stream[13..]);
    words.extend(take_frames(&mut queue, 2));
    let mut whole: VecDeque<u8> = stream.iter().copied().collect();
    assert_eq!(words, take_frames(&mut whole, 2));
    assert_eq!(queue, whole);
    assert_eq!(buffer_words(&1.5f32.to_le_bytes().to_vec()), vec![1.5f32.to_bits()]);
}

#[test]
fn moments_are_told_apart() {
    assert_eq!(interleaved_frames(&vec![1, 2, 3, 4, 5], 2), vec![vec![1, 2], vec![3, 4]]);
    assert_eq!(planar_frames(&vec![vec![1, 2, 3], vec![4, 5]]), vec![vec![1, 4], vec![2, 5]]);
    let none: Vec<Vec<i32>> = Vec::new();
    assert_eq!(planar_frames(&none), none);
}

#[test]
fn taps_come_in_several_layouts() {
    let buffer = |channels: usize, samples: &[i32]| TapBuffer {
        channels,
        samples: Some(samples.to_vec()),
    };
    assert_eq!(tap_frames(&vec![buffer(1, &[1, 2])]), Some(vec![vec![1], vec![2]]));
    assert_eq!(tap_frames(&vec![buffer(2, &[1, 2, 3])]), Some(vec![vec![1, 2]]));
    assert_eq!(
        tap_frames(&vec![buffer(1, &[1, 2]), buffer(1, &[3, 4])]),
        Some(vec![vec![1, 3], vec![2, 4]])
    );
    // A buffer without audio is passed over.
    let gone: TapBuffer<i32> = TapBuffer { channels: 1, samples: None };
    assert_eq!(tap_frames(&vec![gone, buffer(1, &[5])]), Some(vec![vec![5]]));
    assert_eq!(tap_frames(&vec![buffer(0, &[5])]), None);
    let none: Vec<TapBuffer<i32>> = Vec::new();
    assert_eq!(tap_frames(&none), None);
}

#[test]
fn a_failed_tap_leaves_nothing_behind() {
    let mut setup = TapSetup::new();
    let mut made = Vec::new();
    while let Some(part) = setup.next() {
        made.push(part);
        assert!(setup.made(0).is_ok());
    }
    assert_eq!(made.last(), Some(&TapPart::Running));
    assert_eq!(teardown().len(), made.len());

    let mut setup = TapSetup::new();
    for _ in 0..4 {
        assert!(setup.made(0).is_ok());
    }
    let failure = setup.made(-50).err().expect("failure");
    assert_eq!(
        failure.release,
        vec![TapPart::Callback, TapPart::Context, TapPart::Aggregate, TapPart::Tap]
    );
    assert!(matches!(failure.error, SallyError::Audio(m)
        if m == "AudioDeviceStart failed: OSStatus -50"));

    let failure = TapSetup::new().made(7).err().expect("failure");
    assert!(failure.release.is_empty());
    assert!(matches!(failure.error, SallyError::Audio(m)
        if m == "AudioHardwareCreateProcessTap failed: OSStatus 7 \
                 (Screen Recording / audio capture permission may be required)"));
    assert_eq!(aggregate_uid(42), "com.sally.app.tap.42");
}

#[test]
fn a_screen_capture_needs_a_display() {
    let apps = vec!["Zoom".to_string(), "Teams".to_string()];
    assert_eq!(choose_screen_source(1, &apps, "").ok(), Some(ScreenSource::Everything));
    assert_eq!(choose_screen_source(1, &apps, "Teams").ok(), Some(ScreenSource::App(1)));
    assert!(matches!(choose_screen_source(1, &apps, "Meet"), Err(SallyError::Audio(m))
        if m == "'Meet' has no active audio session"));
    assert!(matches!(choose_screen_source(0, &apps, ""), Err(SallyError::Audio(m))
        if m == "no display found"));
}

#[test]
fn loopback_drivers_are_known_by_name() {
    assert!(is_loopback_name("blackhole 2ch"));
    assert!(is_loopback_name("my loopback"));
    assert!(!is_loopback_name("built-in microphone"));
}
