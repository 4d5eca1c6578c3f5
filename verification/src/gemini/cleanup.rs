//! Cleanup and summarization of a finished transcript.
//!
//! Manual and optional. The raw transcript is cleaned in bounded sections,
//! then one consolidation request asks for the structured meeting summary.
//! The polished file is rendered only from the results of all stages; the raw
//! transcript is only read.
use vstd::prelude::*;
use crate::config;
use crate::config::redact_key;
use crate::error::{ErrorModel, SallyError};
use crate::gemini::json;
use crate::gemini::json::{one, only, read_json, text_at, with, words, Json, JsonModel};
use crate::gemini::live;
use crate::gemini::live::parts;
use crate::gemini::REST_BASE;
use crate::text;
use crate::text::{blank, lines, same_text, to_chars, trim_end};

verus! {

/// Size of a cleanup section in bytes of UTF-8, split at entry boundaries.
pub const SECTION_BUDGET: usize = 12_000;

/// What the consolidation request answers.
#[derive(Debug)]
pub struct MeetingSummary {
    pub summary: String,
    pub decisions: Vec<String>,
    pub action_items: Vec<ActionItem>,
    pub open_questions: Vec<String>,
}

/// Something to do, with its owner and deadline where they were stated.
#[derive(Debug)]
pub struct ActionItem {
    pub item: String,
    pub owner: String,
    pub deadline: String,
}

/// An [`ActionItem`] by its characters.
pub struct ItemModel {
    pub item: Seq<char>,
    pub owner: Seq<char>,
    pub deadline: Seq<char>,
}

impl View for ActionItem {
    type V = ItemModel;

    open spec fn view(&self) -> ItemModel {
        ItemModel { item: self.item@, owner: self.owner@, deadline: self.deadline@ }
    }
}

/// A [`MeetingSummary`] by its characters.
pub struct SummaryModel {
    pub summary: Seq<char>,
    pub decisions: Seq<Seq<char>>,
    pub action_items: Seq<ItemModel>,
    pub open_questions: Seq<Seq<char>>,
}

impl View for MeetingSummary {
    type V = SummaryModel;

    open spec fn view(&self) -> SummaryModel {
        SummaryModel {
            summary: self.summary@,
            decisions: text::texts(self.decisions@),
            action_items: Seq::new(self.action_items@.len(), |i: int| self.action_items@[i]@),
            open_questions: text::texts(self.open_questions@),
        }
    }
}

impl Default for MeetingSummary {
    fn default() -> (r: Self)
        ensures
            r@.summary.len() == 0,
            r@.decisions.len() == 0,
            r@.action_items.len() == 0,
            r@.open_questions.len() == 0,
    {
        MeetingSummary {
            summary: String::new(),
            decisions: Vec::new(),
            action_items: Vec::new(),
            open_questions: Vec::new(),
        }
    }
}

// ---------------------------------------------------------------------------
// Sections
// ---------------------------------------------------------------------------

/// Number of bytes of a character in UTF-8.
pub open spec fn width(c: char) -> nat {
    let u = c as u32;
    if u < 0x80 {
        1
    } else if u < 0x800 {
        2
    } else if u < 0x1_0000 {
        3
    } else {
        4
    }
}

/// Number of bytes of a text in UTF-8.
pub open spec fn byte_len(s: Seq<char>) -> nat
    decreases s.len(),
{
    if s.len() == 0 {
        0
    } else {
        byte_len(s.drop_last()) + width(s.last())
    }
}

/// The line begins a timestamped entry.
pub open spec fn begins_entry(line: Seq<char>) -> bool {
    line.len() > 0 && line[0] == '['
}

/// The finished blocks among a list of lines, and the text of the block that
/// is still growing. A line that begins an entry finishes a block that is not
/// blank.
pub open spec fn gathered(ls: Seq<Seq<char>>) -> (Seq<Seq<char>>, Seq<char>)
    decreases ls.len(),
{
    if ls.len() == 0 {
        (Seq::empty(), Seq::empty())
    } else {
        let (done, current) = gathered(ls.drop_last());
        let line = ls.last().push('\n');
        if begins_entry(ls.last()) && !text::is_blank(current) {
            (done.push(text::trim_end_of(current)), line)
        } else {
            (done, current + line)
        }
    }
}

/// The blocks of a transcript: a header, then one block for each entry.
pub open spec fn blocks_of(raw: Seq<char>) -> Seq<Seq<char>> {
    let (done, current) = gathered(text::lines_of(raw));
    if text::is_blank(current) {
        done
    } else {
        done.push(text::trim_end_of(current))
    }
}

/// The full sections among a list of blocks, and the section that is still
/// growing. A block goes to a new section when it no longer fits.
pub open spec fn packed(blocks: Seq<Seq<char>>, budget: nat) -> (Seq<Seq<char>>, Seq<char>)
    decreases blocks.len(),
{
    if blocks.len() == 0 {
        (Seq::empty(), Seq::empty())
    } else {
        let (full, section) = packed(blocks.drop_last(), budget);
        let block = blocks.last();
        if section.len() == 0 {
            (full, block)
        } else if byte_len(section) + byte_len(block) + 2 > budget {
            (full.push(section), block)
        } else {
            (full, section + "\n\n"@ + block)
        }
    }
}

/// The sections of a transcript.
pub open spec fn sections_of(raw: Seq<char>, budget: nat) -> Seq<Seq<char>> {
    let (full, section) = packed(blocks_of(raw), budget);
    if text::is_blank(section) {
        full
    } else {
        full.push(section)
    }
}

/// Number of bytes of a character in UTF-8.
fn char_width(c: char) -> (r: u128)
    ensures
        r == width(c),
{
    let u = c as u32;
    if u < 0x80 {
        1
    } else if u < 0x800 {
        2
    } else if u < 0x1_0000 {
        3
    } else {
        4
    }
}

/// Number of bytes of a text in UTF-8.
fn utf8_len(s: &str) -> (r: u128)
    ensures
        r == byte_len(s@),
        r <= 4 * usize::MAX,
{
    let cs = to_chars(s);
    let mut n: u128 = 0;
    let mut i: usize = 0;
    assert(cs@.take(0) =~= Seq::empty());
    while i < cs.len()
        invariant
            i <= cs.len(),
            n == byte_len(cs@.take(i as int)),
            n <= 4 * i,
        decreases cs.len() - i,
    {
        assert(cs@.take(i + 1).drop_last() =~= cs@.take(i as int));
        n += char_width(cs[i]);
        i += 1;
    }
    assert(cs@.take(i as int) =~= cs@);
    n
}

/// Whether a line begins a timestamped entry.
fn starts_entry(line: &str) -> (r: bool)
    ensures
        r == begins_entry(line@),
{
    let cs = to_chars(line);
    cs.len() > 0 && cs[0] == '['
}

/// The blocks of a transcript.
fn blocks(raw: &str) -> (out: Vec<String>)
    ensures
        text::texts(out@) == blocks_of(raw@),
{
    let ls = lines(raw);
    let mut out: Vec<String> = Vec::new();
    let mut current = String::new();
    let mut i: usize = 0;
    assert(text::texts(ls@).take(0) =~= Seq::empty());
    assert(text::texts(out@) =~= Seq::empty());
    while i < ls.len()
        invariant
            i <= ls.len(),
            gathered(text::texts(ls@).take(i as int)) == (text::texts(out@), current@),
        decreases ls.len() - i,
    {
        proof {
            let all = text::texts(ls@);
            assert(all.take(i + 1).drop_last() =~= all.take(i as int));
        }
        let ghost before = current@;
        if starts_entry(&ls[i]) && !blank(&current) {
            let block = trim_end(&current);
            proof {
                text::lemma_texts_push(out@, block);
            }
            out.push(block);
            current = String::new();
        }
        current.push_str(&ls[i]);
        current.push('\n');
        proof {
            let line = ls[i as int]@;
            assert(before + line.push('\n') =~= (before + line).push('\n'));
            assert((Seq::<char>::empty() + line).push('\n') =~= line.push('\n'));
        }
        i += 1;
    }
    assert(text::texts(ls@).take(i as int) =~= text::texts(ls@));
    if !blank(&current) {
        let block = trim_end(&current);
        proof {
            text::lemma_texts_push(out@, block);
        }
        out.push(block);
    }
    out
}

/// Splits a raw transcript into sections at entry boundaries so that no
/// request exceeds the budget. Entries contain blank lines, so blocks are
/// delimited by lines that start with `[`.
pub fn split_sections(raw: &str, budget: usize) -> (out: Vec<String>)
    ensures
        text::texts(out@) == sections_of(raw@, budget as nat),
{
    let bs = blocks(raw);
    let mut out: Vec<String> = Vec::new();
    let mut section = String::new();
    let mut i: usize = 0;
    assert(text::texts(bs@).take(0) =~= Seq::empty());
    assert(text::texts(out@) =~= Seq::empty());
    while i < bs.len()
        invariant
            i <= bs.len(),
            packed(text::texts(bs@).take(i as int), budget as nat) == (
                text::texts(out@),
                section@,
            ),
        decreases bs.len() - i,
    {
        proof {
            let all = text::texts(bs@);
            assert(all.take(i + 1).drop_last() =~= all.take(i as int));
        }
        if section.as_str().is_empty() {
            section = bs[i].clone();
        } else if utf8_len(&section) + utf8_len(&bs[i]) + 2 > budget as u128 {
            proof {
                text::lemma_texts_push(out@, section);
            }
            out.push(section);
            section = bs[i].clone();
        } else {
            section.push_str("\n\n");
            section.push_str(&bs[i]);
        }
        i += 1;
    }
    assert(text::texts(bs@).take(i as int) =~= text::texts(bs@));
    if !blank(&section) {
        proof {
            text::lemma_texts_push(out@, section);
        }
        out.push(section);
    }
    out
}

/// The last block of a cleaned section: what the next section is told about
/// how this one ended.
pub open spec fn tail_of(cleaned: Seq<char>) -> Seq<char> {
    if blocks_of(cleaned).len() == 0 {
        Seq::empty()
    } else {
        blocks_of(cleaned).last()
    }
}

/// The last block of a cleaned section.
pub fn section_tail(cleaned: &str) -> (r: String)
    ensures
        r@ == tail_of(cleaned@),
{
    let bs = blocks(cleaned);
    assert(text::texts(bs@).len() == bs@.len());
    if bs.len() == 0 {
        String::new()
    } else {
        bs[bs.len() - 1].clone()
    }
}

// ---------------------------------------------------------------------------
// Prompts and requests
// ---------------------------------------------------------------------------

/// The rules for cleaning a section, up to the one on timestamps.
pub const CLEANUP_RULES: &'static str = "You clean up a raw meeting transcript section. Rules:\n\
    - Preserve the meaning of every passage exactly; never invent facts.\n\
    - Remove filler words, false starts, and repeated fragments.\n\
    - Lines labeled **You** are the user and keep that label. Lines \
    labeled **Meeting** are remote participants: work out from the \
    conversation itself who is speaking and replace **Meeting** with a \
    distinct label per person — a real name when the dialogue reveals \
    one, otherwise Speaker 1, Speaker 2, … used consistently for the \
    same voice throughout. When one entry clearly contains two \
    people, split it into separate entries at the handover. The \
    **You**/**Meeting** split itself comes from a very rough local \
    heuristic (which microphone picked up more energy) — it can be \
    wrong, especially near handovers, so weigh the conversation's own \
    content and phrasing at least as heavily as the existing label \
    when deciding who said what; don't treat it as ground truth.\n\
    - Keep the exact Markdown structure of entries: a `[mm:ss]` \
    timestamp, the bold speaker label, the `Original:` line, then a \
    blank line, then the translation line.\n\
    - Mark genuinely unclear passages with [unclear].\n\
    - Keep both the original text and its translation lines.\n\
    - ";

/// The end of the rules.
pub const CLEANUP_END: &'static str = " timestamps.\n\
    Return only the cleaned Markdown, no commentary.";

/// What is said before the end of the previous section.
pub const CLEANUP_CONTEXT: &'static str = "\n\nThe transcript is processed in sections. The previous \
    section ended like this — reuse the same speaker labels for \
    the same voices:\n";

/// What the model is asked to do with a section.
pub open spec fn cleanup_text(include_timestamps: bool, context: Seq<char>) -> Seq<char> {
    let rules = CLEANUP_RULES@ + if include_timestamps {
        "Keep"@
    } else {
        "Remove"@
    } + CLEANUP_END@;
    if context.len() == 0 {
        rules
    } else {
        rules + (CLEANUP_CONTEXT@ + context)
    }
}

/// What the model is asked to do with a section.
pub fn cleanup_prompt(include_timestamps: bool, context: &str) -> (r: String)
    ensures
        r@ == cleanup_text(include_timestamps, context@),
{
    let mut p = text::owned(CLEANUP_RULES);
    p.push_str(if include_timestamps { "Keep" } else { "Remove" });
    p.push_str(CLEANUP_END);
    if !context.is_empty() {
        let mut c = text::owned(CLEANUP_CONTEXT);
        c.push_str(context);
        p.push_str(&c);
    }
    p
}

/// The name of the interface language, in which the summary is written.
pub open spec fn summary_language(ui_language: Seq<char>) -> Seq<char> {
    if ui_language == "vi"@ {
        "Vietnamese"@
    } else {
        "English"@
    }
}

/// What the model is asked to do with the cleaned transcript.
pub open spec fn summary_text(ui_language: Seq<char>) -> Seq<char> {
    "You summarize a cleaned meeting transcript. Respond with JSON only. Do not invent facts; include owners and deadlines only when explicitly stated; mark uncertainty with [unclear]. Write every field's text (summary, decisions, action items, open questions) in "@
        + summary_language(ui_language)
        + ", regardless of what language the transcript itself is in."@
}

/// What the model is asked to do with the cleaned transcript.
pub fn summary_prompt(ui_language: &str) -> (r: String)
    ensures
        r@ == summary_text(ui_language@),
{
    let mut p = text::owned(
        "You summarize a cleaned meeting transcript. Respond with JSON only. Do not invent facts; include owners and deadlines only when explicitly stated; mark uncertainty with [unclear]. Write every field's text (summary, decisions, action items, open questions) in ",
    );
    p.push_str(if same_text(ui_language, "vi") { "Vietnamese" } else { "English" });
    p.push_str(", regardless of what language the transcript itself is in.");
    p
}

/// The address of a generation request.
pub open spec fn generate_url_text(model: Seq<char>, api_key: Seq<char>) -> Seq<char> {
    REST_BASE@ + "/models/"@ + model + ":generateContent?key="@ + api_key
}

/// The address of a generation request.
pub fn generate_url(model: &str, api_key: &str) -> (r: String)
    ensures
        r@ == generate_url_text(model@, api_key@),
{
    let mut out = text::owned(REST_BASE);
    out.push_str("/models/");
    out.push_str(model);
    out.push_str(":generateContent?key=");
    out.push_str(api_key);
    out
}

/// One turn of the user.
pub open spec fn user_turn(t: Seq<char>) -> JsonModel {
    JsonModel::List(
        seq![
            JsonModel::Object(
                seq![
                    ("role"@, JsonModel::Text("user"@)),
                    (
                        "parts"@,
                        JsonModel::List(seq![JsonModel::Object(seq![("text"@, JsonModel::Text(t))])]),
                    ),
                ],
            ),
        ],
    )
}

fn user_contents(t: &str) -> (r: Json)
    ensures
        r@ == user_turn(t@),
{
    let turn = with(
        only("role", words("user")),
        "parts",
        one(only("text", words(t))),
    );
    assert(turn@->Object_0 =~= user_turn(t@)->List_0[0]->Object_0);
    one(turn)
}

/// The request that cleans one section.
pub open spec fn clean_model(section: Seq<char>, include_timestamps: bool, context: Seq<char>) -> JsonModel {
    JsonModel::Object(
        seq![
            ("systemInstruction"@, live::parts_model(cleanup_text(include_timestamps, context))),
            ("contents"@, user_turn(section)),
        ],
    )
}

/// The request that cleans one section. `context` carries the tail of the
/// previous cleaned section so that speaker labels stay consistent.
pub fn clean_request(section: &str, include_timestamps: bool, context: &str) -> (r: Json)
    ensures
        r@ == clean_model(section@, include_timestamps, context@),
{
    let r = with(
        only("systemInstruction", parts(&cleanup_prompt(include_timestamps, context))),
        "contents",
        user_contents(section),
    );
    assert(r@->Object_0 =~= clean_model(section@, include_timestamps, context@)->Object_0);
    r
}

pub open spec fn type_model(name: Seq<char>) -> JsonModel {
    JsonModel::Object(seq![("type"@, JsonModel::Text(name))])
}

pub open spec fn list_model(items: JsonModel) -> JsonModel {
    JsonModel::Object(seq![("type"@, JsonModel::Text("ARRAY"@)), ("items"@, items)])
}

/// The shape of a summary.
pub open spec fn schema_model() -> JsonModel {
    JsonModel::Object(
        seq![
            ("type"@, JsonModel::Text("OBJECT"@)),
            (
                "properties"@,
                JsonModel::Object(
                    seq![
                        ("summary"@, type_model("STRING"@)),
                        ("decisions"@, list_model(type_model("STRING"@))),
                        (
                            "action_items"@,
                            list_model(
                                JsonModel::Object(
                                    seq![
                                        ("type"@, JsonModel::Text("OBJECT"@)),
                                        (
                                            "properties"@,
                                            JsonModel::Object(
                                                seq![
                                                    ("item"@, type_model("STRING"@)),
                                                    ("owner"@, type_model("STRING"@)),
                                                    ("deadline"@, type_model("STRING"@)),
                                                ],
                                            ),
                                        ),
                                    ],
                                ),
                            ),
                        ),
                        ("open_questions"@, list_model(type_model("STRING"@))),
                    ],
                ),
            ),
            ("required"@, JsonModel::List(seq![JsonModel::Text("summary"@)])),
        ],
    )
}

fn typed(name: &str) -> (r: Json)
    ensures
        r@ == type_model(name@),
{
    only("type", words(name))
}

fn list_of(items: Json) -> (r: Json)
    ensures
        r@ == list_model(items@),
{
    let r = with(typed("ARRAY"), "items", items);
    assert(r@->Object_0 =~= list_model(items@)->Object_0);
    r
}

/// The shape of a summary.
fn schema() -> (r: Json)
    ensures
        r@ == schema_model(),
{
    let item = with(
        with(only("item", typed("STRING")), "owner", typed("STRING")),
        "deadline",
        typed("STRING"),
    );
    let todo = with(typed("OBJECT"), "properties", item);
    let properties = with(
        with(
            with(only("summary", typed("STRING")), "decisions", list_of(typed("STRING"))),
            "action_items",
            list_of(todo),
        ),
        "open_questions",
        list_of(typed("STRING")),
    );
    let r = with(
        with(typed("OBJECT"), "properties", properties),
        "required",
        one(words("summary")),
    );
    proof {
        let p = schema_model()->Object_0[1].1;
        let t = p->Object_0[2].1->Object_0[1].1;
        assert(item@->Object_0 =~= t->Object_0[1].1->Object_0);
        assert(todo@->Object_0 =~= t->Object_0);
        assert(properties@->Object_0 =~= p->Object_0);
        assert(r@->Object_0 =~= schema_model()->Object_0);
    }
    r
}

/// The request that summarizes the cleaned transcript.
pub open spec fn summarize_model(cleaned: Seq<char>, ui_language: Seq<char>) -> JsonModel {
    JsonModel::Object(
        seq![
            ("systemInstruction"@, live::parts_model(summary_text(ui_language))),
            ("contents"@, user_turn(cleaned)),
            (
                "generationConfig"@,
                JsonModel::Object(
                    seq![
                        ("responseMimeType"@, JsonModel::Text("application/json"@)),
                        ("responseSchema"@, schema_model()),
                    ],
                ),
            ),
        ],
    )
}

/// The request that summarizes the cleaned transcript.
pub fn summarize_request(cleaned: &str, ui_language: &str) -> (r: Json)
    ensures
        r@ == summarize_model(cleaned@, ui_language@),
{
    let generation = with(
        only("responseMimeType", words("application/json")),
        "responseSchema",
        schema(),
    );
    let r = with(
        with(
            only("systemInstruction", parts(&summary_prompt(ui_language))),
            "contents",
            user_contents(cleaned),
        ),
        "generationConfig",
        generation,
    );
    proof {
        let m = summarize_model(cleaned@, ui_language@);
        assert(generation@->Object_0 =~= m->Object_0[2].1->Object_0);
        assert(r@->Object_0 =~= m->Object_0);
    }
    r
}

// ---------------------------------------------------------------------------
// Replies
// ---------------------------------------------------------------------------

/// Where the text of a reply stands.
pub const REPLY_TEXT: &'static str = "/candidates/0/content/parts/0/text";

/// Where the message of a refusal stands.
pub const REPLY_ERROR: &'static str = "/error/message";

/// What a refused request is answered.
pub open spec fn refusal_text(status: Seq<char>, message: Option<Seq<char>>, api_key: Seq<char>) -> Seq<
    char,
> {
    config::key_redacted(
        "cleanup failed ("@ + status + "): "@ + match message {
            Some(m) => m,
            None => "unknown error"@,
        },
        api_key,
    )
}

/// The text of a reply to a request, given what its document says: the text
/// itself and the message of a refusal, where there are any.
pub open spec fn is_reply(
    r: Result<String, SallyError>,
    success: bool,
    status: Seq<char>,
    found: Option<Seq<char>>,
    message: Option<Seq<char>>,
    api_key: Seq<char>,
) -> bool {
    if !success {
        r matches Err(e) && e@ == ErrorModel::Gemini(refusal_text(status, message, api_key))
    } else {
        match found {
            Some(t) => r matches Ok(s) && s@ == t,
            None => r matches Err(e) && e@ == ErrorModel::Gemini("cleanup response had no text"@),
        }
    }
}

/// An optional text by its characters.
pub open spec fn text_model(t: Option<String>) -> Option<Seq<char>> {
    match t {
        Some(s) => Some(s@),
        None => None,
    }
}

/// The outcome of a request, given what the reply says: its text and the
/// message of a refusal, where there are any.
pub fn reply_outcome(
    success: bool,
    status: &str,
    found: Option<String>,
    message: Option<String>,
    api_key: &str,
) -> (r: Result<String, SallyError>)
    ensures
        is_reply(r, success, status@, text_model(found), text_model(message), api_key@),
{
    if !success {
        let mut m = text::owned("cleanup failed (");
        m.push_str(status);
        m.push_str("): ");
        match message {
            Some(t) => m.push_str(&t),
            None => m.push_str("unknown error"),
        }
        return Err(SallyError::Gemini(redact_key(&m, api_key)));
    }
    match found {
        Some(s) => Ok(s),
        None => Err(SallyError::Gemini(text::owned("cleanup response had no text"))),
    }
}

/// The text of a reply.
pub fn extract_text(value: &serde_json::Value) -> (r: Result<String, SallyError>)
    ensures
        match json::text_node(json::json_nodes(*value), REPLY_TEXT@) {
            Some(t) => r matches Ok(s) && s@ == t,
            None => r matches Err(e) && e@ == ErrorModel::Gemini("cleanup response had no text"@),
        },
{
    match text_at(value, REPLY_TEXT) {
        Some(s) => Ok(s),
        None => Err(SallyError::Gemini(text::owned("cleanup response had no text"))),
    }
}

/// The text of a reply to a request, where `success` tells whether the status
/// is one of success. Rate, quota and availability errors surface verbatim
/// (without the key), so that the message is actionable.
pub fn reply_text(
    success: bool,
    status: &str,
    value: &serde_json::Value,
    api_key: &str,
) -> (r: Result<String, SallyError>)
    ensures
        is_reply(
            r,
            success,
            status@,
            json::text_node(json::json_nodes(*value), REPLY_TEXT@),
            json::text_node(json::json_nodes(*value), REPLY_ERROR@),
            api_key@,
        ),
{
    reply_outcome(success, status, text_at(value, REPLY_TEXT), text_at(value, REPLY_ERROR), api_key)
}

/// What is told of a reply that is no JSON.
pub open spec fn unreadable_text(api_key: Seq<char>) -> Seq<char> {
    config::key_redacted("cleanup response invalid: error decoding response body"@, api_key)
}

/// The text of a reply to a request, from the body of the reply. A body that is
/// no JSON is an error, whatever the status.
pub fn reply_from(success: bool, status: &str, body: &str, api_key: &str) -> (r: Result<
    String,
    SallyError,
>)
    ensures
        match json::json_read(body@) {
            Some(m) => is_reply(
                r,
                success,
                status@,
                json::text_node(m, REPLY_TEXT@),
                json::text_node(m, REPLY_ERROR@),
                api_key@,
            ),
            None => r matches Err(e) && e@ == ErrorModel::Gemini(unreadable_text(api_key@)),
        },
{
    match read_json(body) {
        Some(value) => reply_text(success, status, &value, api_key),
        None => Err(
            SallyError::Gemini(
                redact_key("cleanup response invalid: error decoding response body", api_key),
            ),
        ),
    }
}

// ---------------------------------------------------------------------------
// Polished file
// ---------------------------------------------------------------------------

/// The fixed words of the polished file in one language.
struct Headers {
    meeting_notes: &'static str,
    summary: &'static str,
    key_decisions: &'static str,
    action_items: &'static str,
    open_questions: &'static str,
    cleaned_transcript: &'static str,
    none_recorded: &'static str,
    due: &'static str,
}

/// The fixed words of the polished file in one language.
pub struct HeadersModel {
    pub meeting_notes: Seq<char>,
    pub summary: Seq<char>,
    pub key_decisions: Seq<char>,
    pub action_items: Seq<char>,
    pub open_questions: Seq<char>,
    pub cleaned_transcript: Seq<char>,
    pub none_recorded: Seq<char>,
    pub due: Seq<char>,
}

impl View for Headers {
    type V = HeadersModel;

    closed spec fn view(&self) -> HeadersModel {
        HeadersModel {
            meeting_notes: self.meeting_notes@,
            summary: self.summary@,
            key_decisions: self.key_decisions@,
            action_items: self.action_items@,
            open_questions: self.open_questions@,
            cleaned_transcript: self.cleaned_transcript@,
            none_recorded: self.none_recorded@,
            due: self.due@,
        }
    }
}

/// The fixed words for an interface language; English unless Vietnamese.
pub open spec fn headers_model(ui_language: Seq<char>) -> HeadersModel {
    if ui_language == "vi"@ {
        HeadersModel {
            meeting_notes: "Ghi chú cuộc họp"@,
            summary: "Tóm tắt"@,
            key_decisions: "Quyết định chính"@,
            action_items: "Việc cần làm"@,
            open_questions: "Câu hỏi còn bỏ ngỏ"@,
            cleaned_transcript: "Bản ghi đã dọn"@,
            none_recorded: "_Không có._"@,
            due: "hạn"@,
        }
    } else {
        HeadersModel {
            meeting_notes: "Meeting Notes"@,
            summary: "Summary"@,
            key_decisions: "Key Decisions"@,
            action_items: "Action Items"@,
            open_questions: "Open Questions"@,
            cleaned_transcript: "Cleaned Transcript"@,
            none_recorded: "_None recorded._"@,
            due: "due"@,
        }
    }
}

fn headers_for(ui_language: &str) -> (h: Headers)
    ensures
        h@ == headers_model(ui_language@),
{
    if same_text(ui_language, "vi") {
        Headers {
            meeting_notes: "Ghi chú cuộc họp",
            summary: "Tóm tắt",
            key_decisions: "Quyết định chính",
            action_items: "Việc cần làm",
            open_questions: "Câu hỏi còn bỏ ngỏ",
            cleaned_transcript: "Bản ghi đã dọn",
            none_recorded: "_Không có._",
            due: "hạn",
        }
    } else {
        Headers {
            meeting_notes: "Meeting Notes",
            summary: "Summary",
            key_decisions: "Key Decisions",
            action_items: "Action Items",
            open_questions: "Open Questions",
            cleaned_transcript: "Cleaned Transcript",
            none_recorded: "_None recorded._",
            due: "due",
        }
    }
}

/// A list item.
pub open spec fn bullet(t: Seq<char>) -> Seq<char> {
    "- "@ + t
}

/// The list item of something to do.
pub open spec fn todo_text(a: ItemModel, due: Seq<char>) -> Seq<char> {
    let item = "- "@ + a.item;
    let owned = if a.owner.len() > 0 {
        item + (" — "@ + a.owner)
    } else {
        item
    };
    if a.deadline.len() > 0 {
        owned + (" ("@ + due + " "@ + a.deadline + ")"@)
    } else {
        owned
    }
}

/// Lines, each with its ending.
pub open spec fn rows(ls: Seq<Seq<char>>) -> Seq<char>
    decreases ls.len(),
{
    if ls.len() == 0 {
        Seq::empty()
    } else {
        rows(ls.drop_last()) + ls.last() + "\n"@
    }
}

/// One section of the polished file: a header, then either the words for
/// nothing or one line for each item.
pub open spec fn section_text(header: Seq<char>, none: Seq<char>, items: Seq<Seq<char>>) -> Seq<char> {
    "## "@ + header + "\n\n"@ + if items.len() == 0 {
        none + "\n\n"@
    } else {
        rows(items) + "\n"@
    }
}

/// The polished file.
pub open spec fn polished_text(
    title: Seq<char>,
    s: SummaryModel,
    cleaned: Seq<char>,
    ui_language: Seq<char>,
) -> Seq<char> {
    let h = headers_model(ui_language);
    ("# "@ + title + " — "@ + h.meeting_notes + "\n\n## "@ + h.summary + "\n\n"@ + s.summary
        + "\n\n"@) + section_text(
        h.key_decisions,
        h.none_recorded,
        s.decisions.map_values(|t: Seq<char>| bullet(t)),
    ) + section_text(
        h.action_items,
        h.none_recorded,
        s.action_items.map_values(|a: ItemModel| todo_text(a, h.due)),
    ) + section_text(
        h.open_questions,
        h.none_recorded,
        s.open_questions.map_values(|t: Seq<char>| bullet(t)),
    ) + ("## "@ + h.cleaned_transcript + "\n\n"@ + cleaned + "\n"@)
}

/// One section of the polished file.
fn render_section(header: &str, none_recorded: &str, items: &Vec<String>) -> (out: String)
    ensures
        out@ == section_text(header@, none_recorded@, text::texts(items@)),
{
    let mut out = text::owned("## ");
    out.push_str(header);
    out.push_str("\n\n");
    let mut body = String::new();
    if items.len() == 0 {
        body.push_str(none_recorded);
        body.push_str("\n\n");
        assert(body@ =~= none_recorded@ + "\n\n"@);
    } else {
        let mut i: usize = 0;
        assert(text::texts(items@).take(0) =~= Seq::empty());
        while i < items.len()
            invariant
                i <= items.len(),
                body@ == rows(text::texts(items@).take(i as int)),
            decreases items.len() - i,
        {
            proof {
                let all = text::texts(items@);
                assert(all.take(i + 1).drop_last() =~= all.take(i as int));
            }
            body.push_str(&items[i]);
            body.push_str("\n");
            i += 1;
        }
        assert(text::texts(items@).take(i as int) =~= text::texts(items@));
        body.push_str("\n");
    }
    out.push_str(&body);
    out
}

/// The list items of texts.
fn bullets(items: &Vec<String>) -> (out: Vec<String>)
    ensures
        text::texts(out@) == text::texts(items@).map_values(|t: Seq<char>| bullet(t)),
{
    let mut out: Vec<String> = Vec::new();
    let mut i: usize = 0;
    while i < items.len()
        invariant
            i <= items.len(),
            out.len() == i,
            forall|k: int| 0 <= k < i ==> (#[trigger] out[k])@ == bullet(items[k]@),
        decreases items.len() - i,
    {
        let mut line = text::owned("- ");
        line.push_str(&items[i]);
        out.push(line);
        i += 1;
    }
    assert(text::texts(out@) =~= text::texts(items@).map_values(|t: Seq<char>| bullet(t)));
    out
}

/// The list item of something to do.
fn todo(a: &ActionItem, due: &str) -> (line: String)
    ensures
        line@ == todo_text(a@, due@),
{
    let mut line = text::owned("- ");
    line.push_str(&a.item);
    if !a.owner.as_str().is_empty() {
        let mut owner = text::owned(" — ");
        owner.push_str(&a.owner);
        line.push_str(&owner);
    }
    if !a.deadline.as_str().is_empty() {
        let mut deadline = text::owned(" (");
        deadline.push_str(due);
        deadline.push_str(" ");
        deadline.push_str(&a.deadline);
        deadline.push_str(")");
        line.push_str(&deadline);
    }
    line
}

/// The list items of things to do.
fn todos(items: &Vec<ActionItem>, due: &str) -> (out: Vec<String>)
    ensures
        text::texts(out@) == Seq::new(items@.len(), |i: int| todo_text(items@[i]@, due@)),
{
    let mut out: Vec<String> = Vec::new();
    let mut i: usize = 0;
    while i < items.len()
        invariant
            i <= items.len(),
            out.len() == i,
            forall|k: int| 0 <= k < i ==> (#[trigger] out[k])@ == todo_text(items[k]@, due@),
        decreases items.len() - i,
    {
        out.push(todo(&items[i], due));
        i += 1;
    }
    assert(text::texts(out@) =~= Seq::new(items@.len(), |i: int| todo_text(items@[i]@, due@)));
    out
}

/// Renders the polished Markdown: summary, decisions, action items, open
/// questions, cleaned transcript. The headers follow `ui_language`; the model
/// is separately asked to write the summary itself in that language.
pub fn render_polished(
    title: &str,
    summary: &MeetingSummary,
    cleaned: &str,
    ui_language: &str,
) -> (out: String)
    ensures
        out@ == polished_text(title@, summary@, cleaned@, ui_language@),
{
    let h = headers_for(ui_language);
    let mut out = text::owned("# ");
    out.push_str(title);
    out.push_str(" — ");
    out.push_str(h.meeting_notes);
    out.push_str("\n\n## ");
    out.push_str(h.summary);
    out.push_str("\n\n");
    out.push_str(&summary.summary);
    out.push_str("\n\n");
    let actions = todos(&summary.action_items, h.due);
    assert(text::texts(actions@) =~= summary@.action_items.map_values(
        |a: ItemModel| todo_text(a, headers_model(ui_language@).due),
    ));
    out.push_str(
        &render_section(h.key_decisions, h.none_recorded, &bullets(&summary.decisions)),
    );
    out.push_str(&render_section(h.action_items, h.none_recorded, &actions));
    out.push_str(
        &render_section(h.open_questions, h.none_recorded, &bullets(&summary.open_questions)),
    );
    let mut last = text::owned("## ");
    last.push_str(h.cleaned_transcript);
    last.push_str("\n\n");
    last.push_str(cleaned);
    last.push_str("\n");
    out.push_str(&last);
    out
}

} // verus!
