use sally::error::SallyError;
use sally::gemini::cleanup::{
    clean_request, cleanup_prompt, extract_text, generate_url, render_polished, reply_from,
    reply_outcome, reply_text, section_tail, split_sections, summarize_request, summary_prompt, ActionItem, MeetingSummary,
    SECTION_BUDGET,
};
use sally::gemini::json::Json;
use sally::gemini::live::{
    audio_message, close_event, failure, live_url, message_events, parse_server_message,
    server_events, setup_message, LiveEvent, ServerMessage,
};

fn read(s: &str) -> serde_json::Value {
    serde_json::from_str(s).expect("json")
}

#[test]
fn sections_respect_budget_and_boundaries() {
    let entry = "[00:01] **You**\n\nOriginal: hello hello hello\n\nVietnamese: xin chào";
    let raw = vec![entry; 50].join("\n\n");
    let sections = split_sections(&raw, 500);
    assert!(sections.len() > 1);
    for s in &sections {
        assert!(s.len() <= 500 + entry.len(), "section too large");
        // Sections start at an entry boundary, not mid-entry.
        assert!(s.starts_with('['), "section starts mid-entry: {}", &s[..20.min(s.len())]);
    }
    let rejoined = sections.join("\n\n");
    assert_eq!(rejoined, raw, "no content lost");
}

#[test]
fn single_small_transcript_is_one_section() {
    let raw = "[00:01] **You**\n\nOriginal: hi\n\nVietnamese: chào";
    assert_eq!(split_sections(raw, SECTION_BUDGET).len(), 1);
}

#[test]
fn polished_renders_all_sections() {
    let summary = MeetingSummary {
        summary: "Short sync.".into(),
        decisions: vec!["Ship Friday".into()],
        action_items: vec![ActionItem {
            item: "Prepare demo".into(),
            owner: "Rey".into(),
            deadline: "next Friday".into(),
        }],
        open_questions: vec![],
    };
    let out = render_polished("Weekly", &summary, "cleaned text", "en");
    assert!(out.contains("## Summary"));
    assert!(out.contains("Ship Friday"));
    assert!(out.contains("Prepare demo — Rey (due next Friday)"));
    assert!(out.contains("_None recorded._"));
    assert!(out.contains("cleaned text"));
}

#[test]
fn parses_transcriptions_and_turn_complete() {
    let msg = read(
        r#"{"serverContent": {
            "inputTranscription": { "text": "こんにちは" },
            "outputTranscription": { "text": "xin chào" },
            "turnComplete": true
        }}"#,
    );
    let events = parse_server_message(&msg);
    assert_eq!(events.len(), 3);
    assert!(matches!(&events[0], LiveEvent::Original(t) if t == "こんにちは"));
    assert!(matches!(&events[1], LiveEvent::Translated(t) if t == "xin chào"));
    assert!(matches!(events[2], LiveEvent::TurnComplete));
}

#[test]
fn ignores_model_audio_parts() {
    let msg = read(
        r#"{"serverContent": { "modelTurn": {
            "parts": [{ "inlineData": { "mimeType": "audio/pcm", "data": "AAAA" } }]
        }}}"#,
    );
    assert!(parse_server_message(&msg).is_empty());
}

#[test]
fn setup_complete_is_ready() {
    let events = parse_server_message(&read(r#"{ "setupComplete": {} }"#));
    assert!(matches!(events.as_slice(), [LiveEvent::Ready]));
}

#[test]
fn go_away_closes() {
    let events = parse_server_message(&read(r#"{ "goAway": { "timeLeft": "1s" } }"#));
    assert!(matches!(events.as_slice(), [LiveEvent::Closed(_)]));
}

#[test]
fn messages_are_read_from_text() {
    assert!(matches!(server_events("{\"setupComplete\":{}}").as_slice(), [LiveEvent::Ready]));
    assert!(server_events("not json").is_empty());
    // Empty fragments and turns that go on stand for nothing.
    assert!(server_events(
        "{\"serverContent\":{\"inputTranscription\":{\"text\":\"\"},\"turnComplete\":false}}"
    )
    .is_empty());
}

/// The value at a place of a message, by keys and indices.
fn at<'a>(j: &'a Json, path: &[&str]) -> &'a Json {
    match path.split_first() {
        None => j,
        Some((key, rest)) => match j {
            Json::Object(fields) => {
                let f = fields.iter().find(|f| f.0 == *key).expect("key");
                at(&f.1, rest)
            }
            Json::List(items) => at(&items[key.parse::<usize>().expect("index")], rest),
            _ => panic!("no {key}"),
        },
    }
}

fn words(j: &Json) -> &str {
    match j {
        Json::Text(s) => s,
        _ => panic!("no text"),
    }
}

#[test]
fn audio_is_sent_as_base64() {
    // Two samples: 01 00 ff ff.
    let m = audio_message(&vec![1, -1]);
    assert_eq!(words(at(&m, &["realtimeInput", "audio", "data"])), "AQD//w==");
    assert_eq!(words(at(&m, &["realtimeInput", "audio", "mimeType"])), "audio/pcm;rate=16000");
    let data = |samples: Vec<i16>| {
        words(at(&audio_message(&samples), &["realtimeInput", "audio", "data"])).to_string()
    };
    assert_eq!(data(vec![]), "");
    // 02 01: one byte short of a group.
    assert_eq!(data(vec![0x0102]), "AgE=");
    // fb ef be fb ef be: the last characters of the alphabet.
    assert_eq!(data(vec![-0x1005, -0x0442, -0x4111]), "++++++++");
}

#[test]
fn setup_names_the_model_and_the_language() {
    let m = setup_message("live-model", "Vietnamese");
    assert_eq!(words(at(&m, &["setup", "model"])), "models/live-model");
    let config = at(&m, &["setup", "generationConfig", "translationConfig"]);
    assert_eq!(words(at(config, &["targetLanguageCode"])), "vi");
    assert!(matches!(at(config, &["echoTargetLanguage"]), Json::Flag(true)));
}

#[test]
fn connections_have_an_address() {
    let url = live_url("v1alpha", "K");
    assert!(url.starts_with("wss://generativelanguage.googleapis.com/"));
    assert!(url.contains("v1alpha"));
    assert!(url.ends_with("key=K"));
    assert_eq!(
        generate_url("m", "K"),
        "https://generativelanguage.googleapis.com/v1beta/models/m:generateContent?key=K"
    );
}

#[test]
fn errors_never_show_the_key() {
    assert!(!failure("connect", "wss://x?key=SECRET123", "SECRET123").contains("SECRET123"));
    let e = close_event(Some((1008, "bad key SECRET123")), "SECRET123");
    assert!(!format!("{:?}", e).contains("SECRET123"));
    assert!(format!("{:?}", e).contains("1008"));
}

#[test]
fn replies_are_unpacked() {
    let ok = read(r#"{"candidates":[{"content":{"parts":[{"text":"done"}]}}]}"#);
    assert_eq!(extract_text(&ok).unwrap(), "done");
    assert_eq!(reply_text(true, "200 OK", &ok, "K").unwrap(), "done");
    match extract_text(&read("{}")) {
        Err(SallyError::Gemini(m)) => assert_eq!(m, "cleanup response had no text"),
        other => panic!("{:?}", other),
    }
    let refused = read(r#"{"error":{"message":"quota of SECRET123 exceeded"}}"#);
    match reply_text(false, "429", &refused, "SECRET123") {
        Err(SallyError::Gemini(m)) => {
            assert!(m.contains("quota") && !m.contains("SECRET123"), "{m}")
        }
        other => panic!("{:?}", other),
    }
}

#[test]
fn prompts_follow_the_settings() {
    for keep in [true, false] {
        let p = cleanup_prompt(keep, "");
        assert_eq!(p.contains("- Keep timestamps."), keep);
        assert_eq!(p.contains("- Remove timestamps."), !keep);
        assert!(cleanup_prompt(keep, "more").starts_with(&p));
    }
    assert!(cleanup_prompt(true, "[00:01] **Ann**").ends_with("[00:01] **Ann**"));
    assert!(summary_prompt("vi").contains("Vietnamese"));
    assert!(summary_prompt("en").contains("English"));
}

#[test]
fn requests_carry_the_text() {
    let r = clean_request("the section", true, "");
    assert_eq!(words(at(&r, &["contents", "0", "parts", "0", "text"])), "the section");
    let r = summarize_request("the whole", "en");
    assert_eq!(words(at(&r, &["contents", "0", "parts", "0", "text"])), "the whole");
    assert_eq!(
        words(at(&r, &["generationConfig", "responseMimeType"])),
        "application/json"
    );
}

#[test]
fn context_is_the_last_entry() {
    let cleaned = "[00:01] **Ann**\n\nhello\n\n[00:05] **Ben**\n\nbye";
    assert_eq!(section_tail(cleaned), "[00:05] **Ben**\n\nbye");
    assert_eq!(section_tail(""), "");
}

#[test]
fn messages_become_events_in_order() {
    let events = message_events(ServerMessage {
        setup_complete: true,
        original: Some("hello".to_string()),
        translated: Some(String::new()),
        turn_complete: true,
        go_away: true,
    });
    assert_eq!(events.len(), 4);
    assert!(matches!(events[0], LiveEvent::Ready));
    assert!(matches!(&events[1], LiveEvent::Original(t) if t == "hello"));
    assert!(matches!(events[2], LiveEvent::TurnComplete));
    assert!(matches!(&events[3], LiveEvent::Closed(t) if t == "server requested reconnect"));
}

#[test]
fn refusals_are_told_with_their_message() {
    let told = reply_outcome(false, "429", None, Some("quota of k1 used".to_string()), "k1");
    assert!(matches!(told, Err(SallyError::Gemini(m))
        if m == "cleanup failed (429): quota of [REDACTED] used"));
    let bare = reply_outcome(false, "500", Some("x".to_string()), None, "k1");
    assert!(matches!(bare, Err(SallyError::Gemini(m))
        if m == "cleanup failed (500): unknown error"));
    assert!(matches!(reply_outcome(true, "200", Some("x".to_string()), None, "k1"), Ok(t)
        if t == "x"));
    assert!(reply_outcome(true, "200", None, None, "k1").is_err());
}

#[test]
fn replies_are_read_from_their_body() {
    let body = r#"{"candidates":[{"content":{"parts":[{"text":"clean"}]}}]}"#;
    assert!(matches!(reply_from(true, "200 OK", body, "k1"), Ok(t) if t == "clean"));
    assert!(matches!(reply_from(true, "200 OK", "{}", "k1"), Err(SallyError::Gemini(m))
        if m == "cleanup response had no text"));
    let refused = r#"{"error":{"message":"no quota for k1"}}"#;
    assert!(matches!(reply_from(false, "429", refused, "k1"), Err(SallyError::Gemini(m))
        if m == "cleanup failed (429): no quota for [REDACTED]"));
    for success in [true, false] {
        for body in ["", "<html>"] {
            assert!(matches!(reply_from(success, "502", body, "k1"), Err(SallyError::Gemini(m))
                if m == "cleanup response invalid: error decoding response body"));
        }
    }
}
