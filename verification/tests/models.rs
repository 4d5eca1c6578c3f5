use sally::models::{
    download_failed, download_refused, existing_models, missing_models, model_paths, models_dir,
    stale_models, SEGMENTATION_URL, SPEAKER_FILE,
};
use sally::path::FilePath;

#[test]
fn both_models_must_be_there() {
    let d = FilePath::new("d");
    assert!(existing_models(&d, true, false).is_none());
    assert!(existing_models(&d, false, true).is_none());
    let paths = existing_models(&d, true, true).expect("paths");
    assert_eq!(paths.speaker.names, vec!["models".to_string(), SPEAKER_FILE.to_string()]);
    assert_eq!(models_dir(&d).names, vec!["models".to_string()]);
}

#[test]
fn only_what_is_missing_is_fetched() {
    let d = FilePath::new("d");
    assert!(missing_models(&d, true, true, "", "").is_empty());
    let all = missing_models(&d, false, false, "", "http://local/s.onnx");
    assert_eq!(all.len(), 2);
    assert_eq!(all[0].url, SEGMENTATION_URL);
    assert_eq!(all[1].url, "http://local/s.onnx");
    assert_eq!(all[1].dest.names, model_paths(&d).speaker.names);
    assert_eq!(missing_models(&d, true, false, "", "").len(), 1);
}

#[test]
fn downloads_fail_with_a_message() {
    assert_eq!(
        download_failed("model", "timed out").message(),
        "configuration error: model download failed: timed out"
    );
    assert_eq!(
        download_refused("embedding model", "404 Not Found", "http://x").message(),
        "configuration error: embedding model download failed: HTTP 404 Not Found for http://x"
    );
}

#[test]
fn stale_models_lie_with_the_others() {
    let names: Vec<String> =
        stale_models(&FilePath::new("d")).iter().map(|p| p.names.join("/")).collect();
    assert_eq!(
        names,
        vec!["models/speaker_embedding_campp.onnx", "models/segmentation_pyannote3.onnx"]
    );
}
