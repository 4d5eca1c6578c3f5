//! What holds of live sessions: what a message of the server says comes out as
//! events, and what is sent carries what it was made from.
use vstd::prelude::*;
use crate::gemini::json::{JsonModel, Node};
use crate::gemini::live;
use crate::gemini::live::{LiveModel, MessageModel};
use crate::gemini::LIVE_HOST;
use crate::lang;
use crate::text;

verus! {

// ---------------------------------------------------------------------------
// Messages from the server
// ---------------------------------------------------------------------------

/// The original texts among events, in order.
pub open spec fn originals(es: Seq<LiveModel>) -> Seq<Seq<char>>
    decreases es.len(),
{
    if es.len() == 0 {
        Seq::empty()
    } else {
        match es.last() {
            LiveModel::Original(s) => originals(es.drop_last()).push(s),
            _ => originals(es.drop_last()),
        }
    }
}

/// The translated texts among events, in order.
pub open spec fn translations(es: Seq<LiveModel>) -> Seq<Seq<char>>
    decreases es.len(),
{
    if es.len() == 0 {
        Seq::empty()
    } else {
        match es.last() {
            LiveModel::Translated(s) => translations(es.drop_last()).push(s),
            _ => translations(es.drop_last()),
        }
    }
}

proof fn texts_of_join(a: Seq<LiveModel>, b: Seq<LiveModel>)
    ensures
        originals(a + b) == originals(a) + originals(b),
        translations(a + b) == translations(a) + translations(b),
    decreases b.len(),
{
    if b.len() == 0 {
        assert(a + b =~= a);
        assert(originals(b) =~= Seq::empty());
        assert(translations(b) =~= Seq::empty());
    } else {
        assert((a + b).drop_last() =~= a + b.drop_last());
        assert((a + b).last() == b.last());
        texts_of_join(a, b.drop_last());
        assert(originals(a + b) =~= originals(a) + originals(b));
        assert(translations(a + b) =~= translations(a) + translations(b));
    }
}

proof fn texts_of_one(e: LiveModel)
    ensures
        originals(seq![e]) == match e {
            LiveModel::Original(s) => seq![s],
            _ => Seq::empty(),
        },
        translations(seq![e]) == match e {
            LiveModel::Translated(s) => seq![s],
            _ => Seq::empty(),
        },
{
    assert(seq![e].drop_last() =~= Seq::empty());
    assert(originals(Seq::empty()) =~= Seq::empty());
    assert(translations(Seq::empty()) =~= Seq::empty());
    assert(seq![e].last() == e);
    assert(originals(seq![e]) =~= match e {
        LiveModel::Original(s) => seq![s],
        _ => Seq::empty(),
    });
    assert(translations(seq![e]) =~= match e {
        LiveModel::Translated(s) => seq![s],
        _ => Seq::empty(),
    });
}

proof fn texts_of_none()
    ensures
        originals(Seq::empty()) == Seq::<Seq<char>>::empty(),
        translations(Seq::empty()) == Seq::<Seq<char>>::empty(),
{
}

/// The one text that is there and not empty, or none.
pub open spec fn spoken(t: Option<Seq<char>>) -> Seq<Seq<char>> {
    match t {
        Some(s) if s.len() > 0 => seq![s],
        _ => Seq::empty(),
    }
}

/// Whatever else a message holds, a text that was heard comes out as exactly one
/// original and a text that was translated as exactly one translation; an empty
/// or missing one does not come out.
pub proof fn texts_come_out_once(m: MessageModel)
    ensures
        originals(live::events_of(m)) == spoken(m.original),
        translations(live::events_of(m)) == spoken(m.translated),
{
    let a = live::event_if(m.setup_complete, LiveModel::Ready);
    let b = live::fragment(m.original, true);
    let c = live::fragment(m.translated, false);
    let d = live::event_if(m.turn_complete, LiveModel::TurnComplete);
    let e = live::event_if(m.go_away, LiveModel::Closed("server requested reconnect"@));
    texts_of_join(a + b + c + d, e);
    texts_of_join(a + b + c, d);
    texts_of_join(a + b, c);
    texts_of_join(a, b);
    texts_of_none();
    texts_of_one(LiveModel::Ready);
    texts_of_one(LiveModel::TurnComplete);
    texts_of_one(LiveModel::Closed("server requested reconnect"@));
    if let Some(s) = m.original {
        texts_of_one(LiveModel::Original(s));
    }
    if let Some(s) = m.translated {
        texts_of_one(LiveModel::Translated(s));
    }
    assert(originals(live::events_of(m)) =~= spoken(m.original));
    assert(translations(live::events_of(m)) =~= spoken(m.translated));
}

/// A message tells that the setup is done, that the turn is over and that the
/// connection ends exactly when it says so. The setup comes before all else, the
/// original before its translation, and the end of the connection last.
pub proof fn messages_say_what_they_hold(m: MessageModel)
    ensures
        ({
            let es = live::events_of(m);
            &&& es.contains(LiveModel::Ready) <==> m.setup_complete
            &&& es.contains(LiveModel::TurnComplete) <==> m.turn_complete
            &&& (exists|i: int| 0 <= i < es.len() && #[trigger] es[i] is Closed) <==> m.go_away
            &&& forall|i: int| 0 <= i < es.len() ==> !(#[trigger] es[i] is Audio)
            &&& forall|i: int| 0 <= i < es.len() && #[trigger] es[i] is Ready ==> i == 0
            &&& forall|i: int| 0 <= i < es.len() && #[trigger] es[i] is Closed ==> i == es.len() - 1
            &&& forall|i: int, j: int|
                0 <= i < es.len() && 0 <= j < es.len() && #[trigger] es[i] is Original
                    && #[trigger] es[j] is Translated ==> i < j
            &&& forall|i: int, j: int|
                0 <= i < es.len() && 0 <= j < es.len() && #[trigger] es[i] is Translated
                    && #[trigger] es[j] is TurnComplete ==> i < j
            &&& es.len() <= 5
        }),
{
    let es = live::events_of(m);
    if m.setup_complete {
        assert(es[0] == LiveModel::Ready);
    }
    if m.go_away {
        assert(es[es.len() - 1] is Closed);
    }
    if m.turn_complete {
        let i = es.len() - if m.go_away {
            2int
        } else {
            1int
        };
        assert(es[i] == LiveModel::TurnComplete);
    }
}

/// What a document of the server transcribes comes out: the text under
/// `inputTranscription` as the only original and the text under
/// `outputTranscription` as the only translation, each whether or not the other
/// is there.
pub proof fn documents_are_transcribed(m: Map<Seq<char>, Node>, s: Seq<char>)
    requires
        s.len() > 0,
    ensures
        m.contains_key("/serverContent/inputTranscription/text"@)
            && m["/serverContent/inputTranscription/text"@] == Node::Text(s) ==> originals(
            live::events_in(m),
        ) == seq![s],
        m.contains_key("/serverContent/outputTranscription/text"@)
            && m["/serverContent/outputTranscription/text"@] == Node::Text(s) ==> translations(
            live::events_in(m),
        ) == seq![s],
        !m.contains_key("/serverContent/inputTranscription/text"@) ==> originals(
            live::events_in(m),
        ).len() == 0,
        !m.contains_key("/serverContent/outputTranscription/text"@) ==> translations(
            live::events_in(m),
        ).len() == 0,
        m.contains_key("/setupComplete"@) <==> live::events_in(m).contains(LiveModel::Ready),
        (m.contains_key("/serverContent/turnComplete"@) && m["/serverContent/turnComplete"@]
            == Node::Flag(true)) <==> live::events_in(m).contains(LiveModel::TurnComplete),
        m.contains_key("/goAway"@) ==> live::events_in(m).len() > 0 && live::events_in(m).last()
            is Closed,
{
    texts_come_out_once(live::message_in(m));
    messages_say_what_they_hold(live::message_in(m));
}

// ---------------------------------------------------------------------------
// Messages to the server
// ---------------------------------------------------------------------------

/// Object `o` has a field `key` with value `v`.
pub open spec fn has(o: JsonModel, key: Seq<char>, v: JsonModel) -> bool {
    o matches JsonModel::Object(fields) && fields.contains((key, v))
}

/// The first message names the model, asks for speech in the code of the target
/// language, says the language in the instruction, and asks for transcriptions of
/// both directions.
pub proof fn setup_asks_for_the_language(model: Seq<char>, target_language: Seq<char>)
    ensures
        exists|setup: JsonModel, generation: JsonModel, translation: JsonModel, instruction: JsonModel|
            {
                &&& #[trigger] has(live::setup_model(model, target_language), "setup"@, setup)
                &&& has(setup, "model"@, JsonModel::Text("models/"@ + model))
                &&& #[trigger] has(setup, "generationConfig"@, generation)
                &&& has(
                    generation,
                    "responseModalities"@,
                    JsonModel::List(seq![JsonModel::Text("AUDIO"@)]),
                )
                &&& #[trigger] has(generation, "translationConfig"@, translation)
                &&& has(
                    translation,
                    "targetLanguageCode"@,
                    JsonModel::Text(lang::code_of(target_language)),
                )
                &&& has(translation, "echoTargetLanguage"@, JsonModel::Flag(true))
                &&& #[trigger] has(setup, "systemInstruction"@, instruction)
                &&& instruction == live::parts_model(live::instruction_text(target_language))
                &&& has(setup, "inputAudioTranscription"@, JsonModel::Object(Seq::empty()))
                &&& has(setup, "outputAudioTranscription"@, JsonModel::Object(Seq::empty()))
            },
        text::occurs(live::instruction_text(target_language), target_language),
{
    let m = live::setup_model(model, target_language);
    let setup = m->Object_0[0].1;
    let generation = setup->Object_0[1].1;
    let translation = generation->Object_0[1].1;
    let instruction = setup->Object_0[2].1;
    assert(m->Object_0.contains(m->Object_0[0]));
    assert(has(m, "setup"@, setup));
    assert(setup->Object_0.contains(setup->Object_0[0]));
    assert(setup->Object_0.contains(setup->Object_0[1]));
    assert(has(setup, "generationConfig"@, generation));
    assert(setup->Object_0.contains(setup->Object_0[2]));
    assert(has(setup, "systemInstruction"@, instruction));
    assert(setup->Object_0.contains(setup->Object_0[3]));
    assert(setup->Object_0.contains(setup->Object_0[4]));
    assert(generation->Object_0.contains(generation->Object_0[0]));
    assert(generation->Object_0.contains(generation->Object_0[1]));
    assert(has(generation, "translationConfig"@, translation));
    assert(translation->Object_0.contains(translation->Object_0[0]));
    assert(translation->Object_0.contains(translation->Object_0[1]));
    let before =
        "You are a live meeting translator. Detect the source language automatically and translate everything you hear into "@;
    assert(text::occurs_at(
        live::instruction_text(target_language),
        target_language,
        before.len() as int,
    )) by {
        let t = live::instruction_text(target_language);
        assert(t.subrange(before.len() as int, (before.len() + target_language.len()) as int)
            =~= target_language);
    }
}

/// The address of a live session names the version of the API and ends with the
/// key.
pub proof fn addresses_name_version_and_key(api_version: Seq<char>, api_key: Seq<char>)
    ensures
        text::starts(live::url_text(api_version, api_key), "wss://"@),
        text::occurs(live::url_text(api_version, api_key), api_version),
        text::ends(live::url_text(api_version, api_key), "key="@ + api_key),
{
    reveal_strlit(".GenerativeService.BidiGenerateContent?key=");
    reveal_strlit("key=");
    let t = live::url_text(api_version, api_key);
    let before = "wss://"@ + LIVE_HOST@ + "/ws/google.ai.generativelanguage."@;
    assert(t.subrange(before.len() as int, (before.len() + api_version.len()) as int) =~= api_version);
    assert(text::occurs_at(t, api_version, before.len() as int));
    assert(t.subrange(0, "wss://"@.len() as int) =~= "wss://"@);
    let tail = "key="@ + api_key;
    assert(t.subrange(t.len() - tail.len(), t.len() as int) =~= tail);
}

/// The sample that two bytes stand for, the lower one first.
pub open spec fn sample_in(low: u8, high: u8) -> int {
    let u = low + 256 * high;
    if u < 0x8000 {
        u
    } else {
        u - 0x1_0000
    }
}

/// Every sample can be read back from the bytes that are sent, in order.
pub proof fn samples_are_read_back(samples: Seq<i16>, i: int)
    requires
        0 <= i < samples.len(),
    ensures
        live::pcm_bytes(samples).len() == 2 * samples.len(),
        sample_in(live::pcm_bytes(samples)[2 * i], live::pcm_bytes(samples)[2 * i + 1])
            == samples[i],
    decreases samples.len(),
{
    let before = samples.drop_last();
    pcm_len(before);
    if i < before.len() {
        samples_are_read_back(before, i);
    }
}

proof fn pcm_len(samples: Seq<i16>)
    ensures
        live::pcm_bytes(samples).len() == 2 * samples.len(),
    decreases samples.len(),
{
    if samples.len() > 0 {
        pcm_len(samples.drop_last());
    }
}

/// A chunk of audio is sent as 16 kHz PCM with the text of its bytes.
pub proof fn audio_is_sent_as_its_bytes(samples: Seq<i16>)
    ensures
        exists|input: JsonModel, audio: JsonModel|
            {
                &&& #[trigger] has(live::audio_model(samples), "realtimeInput"@, input)
                &&& #[trigger] has(input, "audio"@, audio)
                &&& has(audio, "mimeType"@, JsonModel::Text("audio/pcm;rate=16000"@))
                &&& has(
                    audio,
                    "data"@,
                    JsonModel::Text(live::base64_text(live::pcm_bytes(samples))),
                )
            },
{
    let m = live::audio_model(samples);
    let input = m->Object_0[0].1;
    let audio = input->Object_0[0].1;
    assert(m->Object_0.contains(m->Object_0[0]));
    assert(has(m, "realtimeInput"@, input));
    assert(input->Object_0.contains(input->Object_0[0]));
    assert(has(input, "audio"@, audio));
    assert(audio->Object_0.contains(audio->Object_0[0]));
    assert(audio->Object_0.contains(audio->Object_0[1]));
}

} // verus!
