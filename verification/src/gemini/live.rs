//! The Gemini Live session: what is sent over its WebSocket and what the
//! server's messages mean. Reconnection policy lives in the session.
use vstd::prelude::*;
use crate::config;
use crate::config::redact_key;
use crate::gemini::json;
use crate::gemini::json::{flag, node_at, nothing, one, only, read_json, text_at, with, words, Json,
    JsonModel, Leaf, Node};
use crate::gemini::LIVE_HOST;
use crate::lang;
use crate::lang::bcp47;
use crate::text;

verus! {

/// One thing that happened on a live connection.
#[derive(Debug)]
pub enum LiveEvent {
    /// Setup acknowledged; audio may flow.
    Ready,
    /// Fragment of the original-language input transcription.
    Original(String),
    /// Fragment of the target-language output transcription.
    Translated(String),
    /// Spoken translation, 24 kHz mono.
    Audio(Vec<i16>),
    /// The model finished a turn; the assembler closes the entry.
    TurnComplete,
    /// Connection ended (reason, already key-redacted).
    Closed(String),
}

/// A [`LiveEvent`] by its characters.
pub enum LiveModel {
    Ready,
    Original(Seq<char>),
    Translated(Seq<char>),
    Audio(Seq<i16>),
    TurnComplete,
    Closed(Seq<char>),
}

impl View for LiveEvent {
    type V = LiveModel;

    open spec fn view(&self) -> LiveModel {
        match self {
            LiveEvent::Ready => LiveModel::Ready,
            LiveEvent::Original(s) => LiveModel::Original(s@),
            LiveEvent::Translated(s) => LiveModel::Translated(s@),
            LiveEvent::Audio(v) => LiveModel::Audio(v@),
            LiveEvent::TurnComplete => LiveModel::TurnComplete,
            LiveEvent::Closed(s) => LiveModel::Closed(s@),
        }
    }
}

/// The events of a list by their characters.
pub open spec fn live_events(v: Seq<LiveEvent>) -> Seq<LiveModel> {
    Seq::new(v.len(), |i: int| v[i]@)
}

// ---------------------------------------------------------------------------
// Messages from the server
// ---------------------------------------------------------------------------

/// The event that a fragment of text stands for; an empty one stands for none.
pub open spec fn fragment(t: Option<Seq<char>>, original: bool) -> Seq<LiveModel> {
    match t {
        Some(s) if s.len() > 0 => seq![
            if original {
                LiveModel::Original(s)
            } else {
                LiveModel::Translated(s)
            },
        ],
        _ => Seq::empty(),
    }
}

/// What a message of the server says, as far as it matters.
#[derive(Debug)]
pub struct ServerMessage {
    pub setup_complete: bool,
    pub original: Option<String>,
    pub translated: Option<String>,
    pub turn_complete: bool,
    pub go_away: bool,
}

/// A [`ServerMessage`] by its characters.
pub struct MessageModel {
    pub setup_complete: bool,
    pub original: Option<Seq<char>>,
    pub translated: Option<Seq<char>>,
    pub turn_complete: bool,
    pub go_away: bool,
}

impl View for ServerMessage {
    type V = MessageModel;

    open spec fn view(&self) -> MessageModel {
        MessageModel {
            setup_complete: self.setup_complete,
            original: match self.original {
                Some(s) => Some(s@),
                None => None,
            },
            translated: match self.translated {
                Some(s) => Some(s@),
                None => None,
            },
            turn_complete: self.turn_complete,
            go_away: self.go_away,
        }
    }
}

/// What a document from the server says. Audio that the model sends along is
/// passed over.
pub open spec fn message_in(m: Map<Seq<char>, Node>) -> MessageModel {
    MessageModel {
        setup_complete: m.contains_key("/setupComplete"@),
        original: json::text_node(m, "/serverContent/inputTranscription/text"@),
        translated: json::text_node(m, "/serverContent/outputTranscription/text"@),
        turn_complete: m.contains_key("/serverContent/turnComplete"@)
            && m["/serverContent/turnComplete"@] == Node::Flag(true),
        go_away: m.contains_key("/goAway"@),
    }
}

/// One event, if it is there.
pub open spec fn event_if(there: bool, e: LiveModel) -> Seq<LiveModel> {
    if there {
        seq![e]
    } else {
        Seq::empty()
    }
}

/// The events that a message stands for, in order: setup done, original text,
/// translated text, end of turn, end of connection.
pub open spec fn events_of(m: MessageModel) -> Seq<LiveModel> {
    event_if(m.setup_complete, LiveModel::Ready) + fragment(m.original, true) + fragment(
        m.translated,
        false,
    ) + event_if(m.turn_complete, LiveModel::TurnComplete) + event_if(
        m.go_away,
        LiveModel::Closed("server requested reconnect"@),
    )
}

/// The events that a document from the server stands for.
pub open spec fn events_in(m: Map<Seq<char>, Node>) -> Seq<LiveModel> {
    events_of(message_in(m))
}

/// The events that a message of the server stands for.
pub fn message_events(m: ServerMessage) -> (r: Vec<LiveEvent>)
    ensures
        live_events(r@) == events_of(m@),
{
    let ghost model = m@;
    let mut events: Vec<LiveEvent> = Vec::new();
    if m.setup_complete {
        events.push(LiveEvent::Ready);
    }
    if let Some(t) = m.original {
        if !t.as_str().is_empty() {
            events.push(LiveEvent::Original(t));
        }
    }
    if let Some(t) = m.translated {
        if !t.as_str().is_empty() {
            events.push(LiveEvent::Translated(t));
        }
    }
    if m.turn_complete {
        events.push(LiveEvent::TurnComplete);
    }
    if m.go_away {
        events.push(LiveEvent::Closed(text::owned("server requested reconnect")));
    }
    assert(live_events(events@) =~= events_of(model));
    events
}

/// Turns one JSON message of the server into events. Model audio parts
/// (`inlineData`) are ignored.
pub fn parse_server_message(value: &serde_json::Value) -> (r: Vec<LiveEvent>)
    ensures
        live_events(r@) == events_in(json::json_nodes(*value)),
{
    message_events(
        ServerMessage {
            setup_complete: node_at(value, "/setupComplete").is_some(),
            original: text_at(value, "/serverContent/inputTranscription/text"),
            translated: text_at(value, "/serverContent/outputTranscription/text"),
            turn_complete: match node_at(value, "/serverContent/turnComplete") {
                Some(Leaf::Flag(b)) => b,
                _ => false,
            },
            go_away: node_at(value, "/goAway").is_some(),
        },
    )
}

/// The events that one text message of the server stands for. A message that
/// is no JSON stands for none.
pub fn server_events(message: &str) -> (r: Vec<LiveEvent>)
    ensures
        live_events(r@) == match json::json_read(message@) {
            Some(m) => events_in(m),
            None => Seq::empty(),
        },
{
    match read_json(message) {
        Some(v) => parse_server_message(&v),
        None => {
            let none: Vec<LiveEvent> = Vec::new();
            assert(live_events(none@) =~= Seq::empty());
            none
        },
    }
}

// ---------------------------------------------------------------------------
// Messages to the server
// ---------------------------------------------------------------------------

/// The address of a live session.
pub open spec fn url_text(api_version: Seq<char>, api_key: Seq<char>) -> Seq<char> {
    "wss://"@ + LIVE_HOST@ + "/ws/google.ai.generativelanguage."@ + api_version
        + ".GenerativeService.BidiGenerateContent?key="@ + api_key
}

/// The address of a live session.
pub fn live_url(api_version: &str, api_key: &str) -> (r: String)
    ensures
        r@ == url_text(api_version@, api_key@),
{
    let mut out = text::owned("wss://");
    out.push_str(LIVE_HOST);
    out.push_str("/ws/google.ai.generativelanguage.");
    out.push_str(api_version);
    out.push_str(".GenerativeService.BidiGenerateContent?key=");
    out.push_str(api_key);
    out
}

/// What the model is told to do.
pub open spec fn instruction_text(target_language: Seq<char>) -> Seq<char> {
    "You are a live meeting translator. Detect the source language automatically and translate everything you hear into "@
        + target_language + ". Translate faithfully without adding commentary."@
}

/// The first message of a live session: spoken output (required by
/// live-translate models), the target language, and transcriptions of both
/// directions.
pub open spec fn setup_model(model: Seq<char>, target_language: Seq<char>) -> JsonModel {
    JsonModel::Object(
        seq![
            (
                "setup"@,
                JsonModel::Object(
                    seq![
                        ("model"@, JsonModel::Text("models/"@ + model)),
                        (
                            "generationConfig"@,
                            JsonModel::Object(
                                seq![
                                    (
                                        "responseModalities"@,
                                        JsonModel::List(seq![JsonModel::Text("AUDIO"@)]),
                                    ),
                                    (
                                        "translationConfig"@,
                                        JsonModel::Object(
                                            seq![
                                                (
                                                    "targetLanguageCode"@,
                                                    JsonModel::Text(lang::code_of(target_language)),
                                                ),
                                                ("echoTargetLanguage"@, JsonModel::Flag(true)),
                                            ],
                                        ),
                                    ),
                                ],
                            ),
                        ),
                        ("systemInstruction"@, parts_model(instruction_text(target_language))),
                        ("inputAudioTranscription"@, JsonModel::Object(Seq::empty())),
                        ("outputAudioTranscription"@, JsonModel::Object(Seq::empty())),
                    ],
                ),
            ),
        ],
    )
}

/// Content of one text part.
pub open spec fn parts_model(t: Seq<char>) -> JsonModel {
    JsonModel::Object(
        seq![
            ("parts"@, JsonModel::List(seq![JsonModel::Object(seq![("text"@, JsonModel::Text(t))])])),
        ],
    )
}

/// Content of one text part.
pub fn parts(t: &str) -> (r: Json)
    ensures
        r@ == parts_model(t@),
{
    only("parts", one(only("text", words(t))))
}

/// The first message of a live session.
pub fn setup_message(model: &str, target_language: &str) -> (r: Json)
    ensures
        r@ == setup_model(model@, target_language@),
{
    let mut name = text::owned("models/");
    name.push_str(model);
    let mut instruction = text::owned(
        "You are a live meeting translator. Detect the source language automatically and translate everything you hear into ",
    );
    instruction.push_str(target_language);
    instruction.push_str(". Translate faithfully without adding commentary.");
    let translation = with(
        only("targetLanguageCode", words(bcp47(target_language))),
        "echoTargetLanguage",
        flag(true),
    );
    let generation = with(
        only("responseModalities", one(words("AUDIO"))),
        "translationConfig",
        translation,
    );
    let setup = with(
        with(
            with(
                with(only("model", words(&name)), "generationConfig", generation),
                "systemInstruction",
                parts(&instruction),
            ),
            "inputAudioTranscription",
            nothing(),
        ),
        "outputAudioTranscription",
        nothing(),
    );
    let r = only("setup", setup);
    proof {
        let spec = setup_model(model@, target_language@);
        let inner = spec->Object_0[0].1;
        assert(translation@->Object_0 =~= inner->Object_0[1].1->Object_0[1].1->Object_0);
        assert(generation@->Object_0 =~= inner->Object_0[1].1->Object_0);
        assert(setup@->Object_0 =~= inner->Object_0);
        assert(r@->Object_0 =~= spec->Object_0);
    }
    r
}

/// The two bytes of a sample, the lower one first.
pub open spec fn sample_bytes(s: i16) -> Seq<u8> {
    let u = if s < 0 {
        s + 0x1_0000
    } else {
        s as int
    };
    seq![(u % 256) as u8, (u / 256) as u8]
}

/// The bytes of a list of samples.
pub open spec fn pcm_bytes(samples: Seq<i16>) -> Seq<u8>
    decreases samples.len(),
{
    if samples.len() == 0 {
        Seq::empty()
    } else {
        pcm_bytes(samples.drop_last()) + sample_bytes(samples.last())
    }
}

/// Appends the two bytes of a sample, the lower one first.
pub fn push_sample(out: &mut Vec<u8>, s: i16)
    ensures
        final(out)@ == old(out)@ + sample_bytes(s),
{
    let u: u32 = if s < 0 {
        (s as i32 + 0x1_0000) as u32
    } else {
        s as u32
    };
    out.push((u % 256) as u8);
    out.push((u / 256) as u8);
    assert(out@ =~= old(out)@ + sample_bytes(s));
}

/// The bytes of a list of samples, little-endian.
pub fn samples_to_bytes(samples: &Vec<i16>) -> (out: Vec<u8>)
    ensures
        out@ == pcm_bytes(samples@),
{
    let mut out: Vec<u8> = Vec::new();
    let mut i: usize = 0;
    assert(samples@.take(0) =~= Seq::empty());
    while i < samples.len()
        invariant
            i <= samples.len(),
            out@ == pcm_bytes(samples@.take(i as int)),
        decreases samples.len() - i,
    {
        assert(samples@.take(i + 1).drop_last() =~= samples@.take(i as int));
        push_sample(&mut out, samples[i]);
        i += 1;
    }
    assert(samples@.take(i as int) =~= samples@);
    out
}

/// The character of six bits in the alphabet of RFC 4648.
pub open spec fn base64_char(n: int) -> char {
    if n < 26 {
        ('A' as int + n) as char
    } else if n < 52 {
        ('a' as int + n - 26) as char
    } else if n < 62 {
        ('0' as int + n - 52) as char
    } else if n == 62 {
        '+'
    } else {
        '/'
    }
}

/// The four characters of three bytes.
pub open spec fn base64_group(a: u8, b: u8, c: u8) -> Seq<char> {
    seq![
        base64_char(a as int / 4),
        base64_char(a as int % 4 * 16 + b as int / 16),
        base64_char(b as int % 16 * 4 + c as int / 64),
        base64_char(c as int % 64),
    ]
}

/// The base64 text of a list of bytes: four characters for every three bytes,
/// the last group padded with `=`.
pub open spec fn base64_text(bytes: Seq<u8>) -> Seq<char>
    decreases bytes.len(),
{
    if bytes.len() == 0 {
        Seq::empty()
    } else if bytes.len() == 1 {
        base64_group(bytes[0], 0, 0).take(2) + seq!['=', '=']
    } else if bytes.len() == 2 {
        base64_group(bytes[0], bytes[1], 0).take(3) + seq!['=']
    } else {
        base64_group(bytes[0], bytes[1], bytes[2]) + base64_text(bytes.skip(3))
    }
}

/// The `STANDARD` engine of `base64` encodes bytes with the standard alphabet of
/// RFC 4648 and with padding: three bytes make four characters of six bits
/// each, the highest bits first, and an incomplete last group is filled up with
/// noughts and padded with `=`.
#[verifier::external_body]
fn encode_base64(bytes: &Vec<u8>) -> (r: String)
    ensures
        r@ == base64_text(bytes@),
{
    base64::Engine::encode(&base64::engine::general_purpose::STANDARD, bytes)
}

/// The message that carries one chunk of 16 kHz mono audio.
pub open spec fn audio_model(samples: Seq<i16>) -> JsonModel {
    audio_data_model(base64_text(pcm_bytes(samples)))
}

/// The message around encoded audio data.
pub open spec fn audio_data_model(data: Seq<char>) -> JsonModel {
    JsonModel::Object(
        seq![
            (
                "realtimeInput"@,
                JsonModel::Object(
                    seq![
                        (
                            "audio"@,
                            JsonModel::Object(
                                seq![
                                    ("mimeType"@, JsonModel::Text("audio/pcm;rate=16000"@)),
                                    ("data"@, JsonModel::Text(data)),
                                ],
                            ),
                        ),
                    ],
                ),
            ),
        ],
    )
}

/// The message around encoded audio data.
pub fn audio_data_message(data: &str) -> (r: Json)
    ensures
        r@ == audio_data_model(data@),
{
    let audio = with(only("mimeType", words("audio/pcm;rate=16000")), "data", words(data));
    let r = only("realtimeInput", only("audio", audio));
    proof {
        let inner = audio_data_model(data@)->Object_0[0].1->Object_0[0].1;
        assert(audio@->Object_0 =~= inner->Object_0);
    }
    r
}

/// The message that carries one chunk of 16 kHz mono audio.
pub fn audio_message(samples: &Vec<i16>) -> (r: Json)
    ensures
        r@ == audio_model(samples@),
{
    audio_data_message(&encode_base64(&samples_to_bytes(samples)))
}

// ---------------------------------------------------------------------------
// Failures and closes
// ---------------------------------------------------------------------------

/// What is told of a failed step: its name and the detail, without the key.
pub open spec fn failure_text(step: Seq<char>, detail: Seq<char>, api_key: Seq<char>) -> Seq<char> {
    config::key_redacted(step + ": "@ + detail, api_key)
}

/// What is told of a failed step, without the key.
pub fn failure(step: &str, detail: &str, api_key: &str) -> (r: String)
    ensures
        r@ == failure_text(step@, detail@, api_key@),
{
    let mut m = text::owned(step);
    m.push_str(": ");
    m.push_str(detail);
    redact_key(&m, api_key)
}

/// The event of a closed connection: the server's code and reason, if it sent
/// a close frame that has them, without the key.
pub fn close_event(code_and_reason: Option<(u64, &str)>, api_key: &str) -> (r: LiveEvent)
    ensures
        r@ == LiveModel::Closed(
            config::key_redacted(
                match code_and_reason {
                    Some((code, reason)) => text::decimal(code as nat) + " "@ + reason@,
                    None => "connection closed"@,
                },
                api_key@,
            ),
        ),
{
    let why = match code_and_reason {
        Some((code, reason)) => {
            let mut w = String::new();
            text::push_decimal(&mut w, code);
            assert(w@ =~= text::decimal(code as nat));
            w.push_str(" ");
            w.push_str(reason);
            w
        },
        None => text::owned("connection closed"),
    };
    LiveEvent::Closed(redact_key(&why, api_key))
}

} // verus!
