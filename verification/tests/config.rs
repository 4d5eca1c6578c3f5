use sally::config::{
    data_dir_pointer_path, parse_env, read_data_dir_pointer, redact_key, AppConfig,
    DEFAULT_CLEANUP_MODEL, DEFAULT_LIVE_API_VERSION, DEFAULT_LIVE_MODEL,
};
use sally::path::FilePath;

#[test]
fn env_roundtrip_preserves_unknown_keys() {
    let file = "CUSTOM_FLAG=1\nGEMINI_API_KEY=abc\n";
    let mut cfg = AppConfig::load(FilePath::new("sally-cfg"), Some(file));
    assert_eq!(cfg.api_key, "abc");
    cfg.api_key = "xyz".into();
    let text = cfg.save(Some(file));
    assert!(text.contains("CUSTOM_FLAG=1"));
    assert!(text.contains("GEMINI_API_KEY=xyz"));
}

#[test]
fn redaction_removes_key() {
    let msg = "request to https://x?key=SECRET123 failed";
    assert!(!redact_key(msg, "SECRET123").contains("SECRET123"));
    assert_eq!(redact_key(msg, ""), msg);
}

#[test]
fn defaults_applied_when_env_missing() {
    let cfg = AppConfig::load(FilePath::new("sally-none"), None);
    assert_eq!(cfg.live_model, DEFAULT_LIVE_MODEL);
    assert_eq!(cfg.cleanup_model, DEFAULT_CLEANUP_MODEL);
    assert!(!cfg.always_on_top, "always-on-top must default off");
    assert!(!cfg.readout_enabled);
    assert_eq!(cfg.live_api_version, DEFAULT_LIVE_API_VERSION);
}

#[test]
fn a_file_without_a_setting_leaves_the_default() {
    let cfg = AppConfig::load(FilePath::new("d"), Some("GEMINI_API_KEY=abc\n"));
    assert!(!cfg.always_on_top);
    assert_eq!(cfg.target_language, "Vietnamese");
    assert_eq!(cfg.ui_language, "en");
}

#[test]
fn saved_configurations_are_loaded() {
    let mut cfg = AppConfig::new(FilePath::new("d"));
    cfg.api_key = "k".into();
    cfg.mic_device = "Desk mic = best".into();
    cfg.always_on_top = true;
    cfg.readout_enabled = true;
    let text = cfg.save(None);
    let back = AppConfig::load(FilePath::new("d"), Some(text.as_str()));
    assert_eq!(back.api_key, "k");
    assert_eq!(back.mic_device, "Desk mic = best");
    assert!(back.always_on_top && back.readout_enabled);
    assert_eq!(back.save(Some(text.as_str())), text);
}

#[test]
fn untrimmed_settings_touch_no_other_key() {
    let file = "CUSTOM_FLAG=1\nOTHER = x y \n";
    let mut cfg = AppConfig::load(FilePath::new("d"), Some(file));
    cfg.api_key = "k".into();
    cfg.mic_device = " Desk mic \r".into();
    let m = parse_env(&cfg.save(Some(file)));
    assert_eq!(m.get("CUSTOM_FLAG"), Some("1"));
    assert_eq!(m.get("OTHER"), Some("x y"));
    assert_eq!(m.get("GEMINI_API_KEY"), Some("k"));
    assert_eq!(m.get("SALLY_MIC_DEVICE"), Some("Desk mic"));
}

#[test]
fn settings_are_lines() {
    let m = parse_env("# comment\n\nA = 1 \nno value\nA=2\nB=x=y\n");
    assert_eq!(m.len(), 2);
    assert_eq!(m.get("A"), Some("2"));
    assert_eq!(m.get("B"), Some("x=y"));
    assert_eq!(m.get("C"), None);
}

#[test]
fn the_key_stays_behind() {
    let mut cfg = AppConfig::new(FilePath::new("d"));
    assert!(!cfg.redacted().has_api_key);
    cfg.api_key = "SECRET123".into();
    let shown = cfg.redacted();
    assert!(shown.has_api_key);
    assert!(!format!("{:?}", shown).contains("SECRET123"));
}

#[test]
fn folders_lie_in_the_data_folder() {
    let cfg = AppConfig::new(FilePath::new("d"));
    assert_eq!(cfg.env_path().names, vec![".env".to_string()]);
    assert_eq!(cfg.meetings_dir().names, vec!["meetings".to_string()]);
    assert_eq!(cfg.recovery_dir().names, vec![".recovery".to_string()]);
}

#[test]
fn the_pointer_names_the_data_folder() {
    assert_eq!(read_data_dir_pointer(Some(" /home/me/Sally \n")).unwrap().root, "/home/me/Sally");
    assert!(read_data_dir_pointer(Some(" \n")).is_none());
    assert!(read_data_dir_pointer(None).is_none());
    let p = data_dir_pointer_path(&FilePath::new("/etc"));
    assert_eq!(p.names, vec!["sally-data-dir.txt".to_string()]);
}
