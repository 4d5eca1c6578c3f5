//! Meeting store.
//!
//! What goes into the raw Markdown file of a meeting, where the files of a
//! meeting lie, and what is done with the journal of an interrupted one.
//! Nothing here touches a disk.
use vstd::prelude::*;
use crate::error::{ErrorModel, SallyError};
use crate::path::{FilePath, PathModel};
use crate::store_laws;
use crate::text;
use crate::text::{blank, join, lines, push_decimal, to_chars, trim};
use crate::text_map::TextMap;
use crate::timeline;
use crate::timeline::{format_timestamp, EntryKind, EntryModel, TimelineEntry};

verus! {

// ---------------------------------------------------------------------------
// Wall-clock start
// ---------------------------------------------------------------------------

/// Local wall-clock time of day and date, to the minute. Used only for
/// metadata and file names.
#[derive(Debug, Clone, Copy, PartialEq, Eq, Structural)]
pub struct StartTime {
    pub year: i32,
    pub month: u32,
    pub day: u32,
    pub hour: u32,
    pub minute: u32,
}

pub open spec fn is_leap(year: int) -> bool {
    year % 4 == 0 && (year % 100 != 0 || year % 400 == 0)
}

pub open spec fn days_in(year: int, month: int) -> int {
    if month == 2 {
        if is_leap(year) { 29 } else { 28 }
    } else if month == 4 || month == 6 || month == 9 || month == 11 {
        30
    } else {
        31
    }
}

/// `n` in decimal, with at least four digits.
pub open spec fn four_digits(n: nat) -> Seq<char> {
    if n < 10 {
        seq!['0', '0', '0'] + text::decimal(n)
    } else if n < 100 {
        seq!['0', '0'] + text::decimal(n)
    } else if n < 1000 {
        seq!['0'] + text::decimal(n)
    } else {
        text::decimal(n)
    }
}

/// A year with at least four digits; with a sign outside 0 to 9999.
pub open spec fn year_text(year: int) -> Seq<char> {
    if 0 <= year <= 9999 {
        four_digits(year as nat)
    } else if year < 0 {
        seq!['-'] + four_digits((-year) as nat)
    } else {
        seq!['+'] + four_digits(year as nat)
    }
}

impl StartTime {
    /// The minute exists in the proleptic Gregorian calendar, in the range of
    /// years that the calendar library can hold.
    pub open spec fn valid(self) -> bool {
        &&& -262143 <= self.year <= 262142
        &&& 1 <= self.month <= 12
        &&& 1 <= self.day <= days_in(self.year as int, self.month as int)
        &&& self.hour < 24
        &&& self.minute < 60
    }

    /// Whether the minute exists.
    pub fn is_valid(&self) -> (r: bool)
        ensures
            r == self.valid(),
    {
        let leap = self.year % 4 == 0 && (self.year % 100 != 0 || self.year % 400 == 0);
        let days: u32 = if self.month == 2 {
            if leap { 29 } else { 28 }
        } else if self.month == 4 || self.month == 6 || self.month == 9 || self.month == 11 {
            30
        } else {
            31
        };
        -262143 <= self.year && self.year <= 262142 && 1 <= self.month && self.month <= 12 && 1
            <= self.day && self.day <= days && self.hour < 24 && self.minute < 60
    }

    pub open spec fn date_text(self) -> Seq<char> {
        year_text(self.year as int) + seq!['-'] + text::two_digits(self.month as nat) + seq!['-']
            + text::two_digits(self.day as nat)
    }

    /// `2026-07-17_1430`.
    pub open spec fn stem_text(self) -> Seq<char> {
        self.date_text() + seq!['_'] + text::two_digits(self.hour as nat) + text::two_digits(
            self.minute as nat,
        )
    }

    /// `2026-07-17 14:30`.
    pub open spec fn shown_text(self) -> Seq<char> {
        self.date_text() + seq![' '] + text::two_digits(self.hour as nat) + seq![':']
            + text::two_digits(self.minute as nat)
    }
}

/// File names start with the date and time in this form.
pub const STEM_PATTERN: &'static str = "%Y-%m-%d_%H%M";

/// The form of the date and time in the header of a meeting file.
pub const SHOWN_PATTERN: &'static str = "%Y-%m-%d %H:%M";

/// Prints a minute with `chrono`: `NaiveDate::from_ymd_opt` and `and_hms_opt`
/// accept exactly the minutes that exist, and `format` prints `%Y` with at
/// least four digits (signed outside 0 to 9999) and `%m`, `%d`, `%H`, `%M`
/// with two.
#[verifier::external_body]
fn print_minute(t: &StartTime, pattern: &str) -> (r: Option<String>)
    requires
        pattern@ == STEM_PATTERN@ || pattern@ == SHOWN_PATTERN@,
    ensures
        r is Some <==> t.valid(),
        r matches Some(s) ==> pattern@ == STEM_PATTERN@ ==> s@ == t.stem_text(),
        r matches Some(s) ==> pattern@ == SHOWN_PATTERN@ ==> s@ == t.shown_text(),
{
    let day = chrono::NaiveDate::from_ymd_opt(t.year, t.month, t.day)?;
    let minute = day.and_hms_opt(t.hour, t.minute, 0)?;
    Some(minute.format(pattern).to_string())
}

// ---------------------------------------------------------------------------
// Types
// ---------------------------------------------------------------------------

/// What the header of a meeting file says.
#[derive(Debug)]
pub struct MeetingMeta {
    pub title: String,
    /// Wall-clock start, for metadata and file names only.
    pub started_at: String,
    pub target_language: String,
}

/// A [`MeetingMeta`] by its characters.
pub struct MetaModel {
    pub title: Seq<char>,
    pub started_at: Seq<char>,
    pub target_language: Seq<char>,
}

impl View for MeetingMeta {
    type V = MetaModel;

    open spec fn view(&self) -> MetaModel {
        MetaModel {
            title: self.title@,
            started_at: self.started_at@,
            target_language: self.target_language@,
        }
    }
}

impl Clone for MeetingMeta {
    fn clone(&self) -> (r: Self)
        ensures
            r@ == self@,
    {
        MeetingMeta {
            title: self.title.clone(),
            started_at: self.started_at.clone(),
            target_language: self.target_language.clone(),
        }
    }
}

/// Journal snapshot: everything not yet safely inside the raw Markdown.
pub struct RecoveryJournal {
    pub meta: Option<MeetingMeta>,
    pub raw_path: Option<FilePath>,
    /// Provisional entry text not yet finalized.
    pub open_original: String,
    pub open_translated: String,
    pub open_start_ms: u64,
    /// Speaker renames chosen in review but not yet applied.
    pub speaker_renames: TextMap,
}

impl Default for RecoveryJournal {
    fn default() -> (j: Self)
        ensures
            j.meta is None,
            j.raw_path is None,
            j.open_original@ == Seq::<char>::empty(),
            j.open_translated@ == Seq::<char>::empty(),
            j.open_start_ms == 0,
            j.speaker_renames@ == Seq::<(Seq<char>, Seq<char>)>::empty(),
    {
        RecoveryJournal {
            meta: None,
            raw_path: None,
            open_original: String::new(),
            open_translated: String::new(),
            open_start_ms: 0,
            speaker_renames: TextMap::new(),
        }
    }
}

/// One entry of a transcript as far as speaker identification needs it.
#[derive(Debug)]
pub struct TranscriptChunk {
    pub start_ms: u64,
    pub speaker: String,
}

/// Where the files of one meeting lie and what its header says.
pub struct MeetingStore {
    meetings_dir: FilePath,
    recovery_dir: FilePath,
    raw_path: FilePath,
    stem: String,
    meta: MeetingMeta,
}

/// What a [`MeetingStore`] holds.
pub struct StoreModel {
    pub meetings_dir: PathModel,
    pub recovery_dir: PathModel,
    pub raw_path: PathModel,
    pub stem: Seq<char>,
    pub meta: MetaModel,
}

impl View for MeetingStore {
    type V = StoreModel;

    closed spec fn view(&self) -> StoreModel {
        StoreModel {
            meetings_dir: self.meetings_dir@,
            recovery_dir: self.recovery_dir@,
            raw_path: self.raw_path@,
            stem: self.stem@,
            meta: self.meta@,
        }
    }
}

impl StoreModel {
    /// The raw file is the one that the stem names.
    pub open spec fn wf(self) -> bool {
        self.raw_path == self.meetings_dir.joined(self.stem + "-raw.md"@)
    }
}

impl Clone for MeetingStore {
    fn clone(&self) -> (r: Self)
        ensures
            r@ == self@,
    {
        MeetingStore {
            meetings_dir: self.meetings_dir.clone(),
            recovery_dir: self.recovery_dir.clone(),
            raw_path: self.raw_path.clone(),
            stem: self.stem.clone(),
            meta: self.meta.clone(),
        }
    }
}

// ---------------------------------------------------------------------------
// Rendering
// ---------------------------------------------------------------------------

pub open spec fn header_text(m: MetaModel) -> Seq<char> {
    "# "@ + m.title + "\n\n- Started: "@ + m.started_at + "\n- Target language: "@
        + m.target_language + "\n\n---\n\n"@
}

/// The header of a raw file.
pub fn render_header(meta: &MeetingMeta) -> (r: String)
    ensures
        r@ == header_text(meta@),
{
    let mut out = text::owned("# ");
    out.push_str(&meta.title);
    out.push_str("\n\n- Started: ");
    out.push_str(&meta.started_at);
    out.push_str("\n- Target language: ");
    out.push_str(&meta.target_language);
    out.push_str("\n\n---\n\n");
    out
}

/// The Markdown block of an entry.
pub open spec fn entry_text(e: EntryModel, target_language: Seq<char>) -> Seq<char> {
    match e.kind {
        EntryKind::Gap => timeline::stamp(e.start_ms as nat) + " — "@ + timeline::stamp(
            e.end_ms as nat,
        ) + " *(transcription unavailable for this interval)*\n\n"@,
        EntryKind::Speech => {
            let head = timeline::stamp(e.start_ms as nat) + " **"@ + e.speaker
                + "**\n\nOriginal: "@ + e.original + "\n\n"@;
            if e.translated.len() > 0 {
                head + (target_language + ": "@ + e.translated + "\n\n"@)
            } else {
                head + "*(translation unavailable)*\n\n"@
            }
        },
    }
}

/// The Markdown block of an entry.
pub fn render_entry(entry: &TimelineEntry, target_language: &str) -> (r: String)
    ensures
        r@ == entry_text(entry@, target_language@),
{
    let mut out = format_timestamp(entry.start_ms);
    match entry.kind {
        EntryKind::Gap => {
            out.push_str(" — ");
            out.push_str(&format_timestamp(entry.end_ms));
            out.push_str(" *(transcription unavailable for this interval)*\n\n");
        },
        EntryKind::Speech => {
            out.push_str(" **");
            out.push_str(&entry.speaker);
            out.push_str("**\n\nOriginal: ");
            out.push_str(&entry.original);
            out.push_str("\n\n");
            if !entry.translated.as_str().is_empty() {
                let mut line = text::owned(target_language);
                line.push_str(": ");
                line.push_str(&entry.translated);
                line.push_str("\n\n");
                out.push_str(&line);
            } else {
                out.push_str("*(translation unavailable)*\n\n");
            }
        },
    }
    out
}

/// A decimal digit.
pub open spec fn is_digit(c: char) -> bool {
    '0' <= c && c <= '9'
}

/// `t` ends, before its last `after` characters, with two digits.
pub open spec fn has_pair(t: Seq<char>, after: int) -> bool {
    is_digit(t[t.len() - after - 1]) && is_digit(t[t.len() - after - 2])
}

/// `mm:ss`, or hours in any number of digits and then `:mm:ss`.
pub open spec fn is_clock(t: Seq<char>) -> bool {
    &&& t.len() >= 5
    &&& has_pair(t, 0)
    &&& t[t.len() - 3] == ':'
    &&& has_pair(t, 3)
    &&& t.len() > 5 ==> {
        &&& t.len() >= 7
        &&& t[t.len() - 6] == ':'
        &&& forall|i: int| 0 <= i < t.len() - 6 ==> is_digit(#[trigger] t[i])
    }
}

/// Number of characters of the leading `[mm:ss]` or `[h:mm:ss]` token of a
/// line, with its brackets; 0 when the line does not begin with one.
pub open spec fn stamp_len(line: Seq<char>) -> nat {
    let close = text::position(line, ']');
    if line.len() > 0 && line[0] == '[' && close < line.len() && is_clock(
        line.subrange(1, close as int),
    ) {
        close + 1
    } else {
        0
    }
}

/// A line without its leading timestamp and the space behind it.
pub open spec fn stripped_line(line: Seq<char>) -> Seq<char> {
    if stamp_len(line) > 0 {
        text::trim_start_of(line.skip(stamp_len(line) as int))
    } else {
        line
    }
}

/// Every line without its leading timestamp.
pub open spec fn stripped(markdown: Seq<char>) -> Seq<char> {
    text::joined(text::lines_of(markdown).map_values(|l: Seq<char>| stripped_line(l)), "\n"@)
}

/// A decimal digit.
fn digit(c: char) -> (r: bool)
    ensures
        r == is_digit(c),
{
    '0' <= c && c <= '9'
}

/// Whether `cs[1..close]` is `mm:ss` or `h:mm:ss`.
fn clock(cs: &Vec<char>, close: usize) -> (r: bool)
    requires
        1 <= close <= cs@.len(),
    ensures
        r == is_clock(cs@.subrange(1, close as int)),
{
    let ghost t = cs@.subrange(1, close as int);
    let n: usize = close - 1;
    if n < 5 {
        return false;
    }
    assert(t[n - 1] == cs@[close - 1] && t[n - 2] == cs@[close - 2] && t[n - 3] == cs@[close - 3]
        && t[n - 4] == cs@[close - 4] && t[n - 5] == cs@[close - 5]);
    if !(digit(cs[close - 1]) && digit(cs[close - 2]) && cs[close - 3] == ':' && digit(
        cs[close - 4],
    ) && digit(cs[close - 5])) {
        return false;
    }
    if n == 5 {
        return true;
    }
    if n < 7 || cs[close - 6] != ':' {
        assert(n >= 7 ==> t[n - 6] == cs@[close - 6]);
        return false;
    }
    assert(t[n - 6] == ':');
    let mut i: usize = 1;
    while i < close - 6
        invariant
            1 <= i <= close - 6,
            8 <= close <= cs@.len(),
            t == cs@.subrange(1, close as int),
            forall|k: int| 0 <= k < i - 1 ==> is_digit(#[trigger] t[k]),
        decreases close - i,
    {
        assert(t[i - 1] == cs@[i as int]);
        if !digit(cs[i]) {
            assert(!is_digit(t[i - 1]));
            return false;
        }
        i += 1;
    }
    true
}

/// A line without its leading timestamp and the space behind it.
fn strip_line(line: &str) -> (r: String)
    ensures
        r@ == stripped_line(line@),
{
    let cs = to_chars(line);
    assert(cs@.skip(0) =~= cs@);
    let close = text::find_char(&cs, 0, ']');
    if cs.len() == 0 || cs[0] != '[' || close == cs.len() {
        return text::owned(line);
    }
    proof {
        text::lemma_position(line@, ']');
    }
    if !clock(&cs, close) {
        return text::owned(line);
    }
    let rest = text::from_chars(&cs, close + 1, cs.len());
    assert(rest@ =~= cs@.skip(close + 1));
    text::trim_start(&rest)
}

/// Removes leading `[mm:ss]` and `[h:mm:ss]` tokens from every line without
/// touching the rest.
pub fn strip_timestamps(markdown: &str) -> (r: String)
    ensures
        r@ == stripped(markdown@),
{
    let ls = lines(markdown);
    let mut out: Vec<String> = Vec::new();
    let mut i: usize = 0;
    while i < ls.len()
        invariant
            i <= ls.len(),
            out.len() == i,
            forall|k: int| 0 <= k < i ==> (#[trigger] out[k])@ == stripped_line(ls[k]@),
        decreases ls.len() - i,
    {
        out.push(strip_line(&ls[i]));
        i += 1;
    }
    assert(text::texts(out@) =~= text::lines_of(markdown@).map_values(
        |l: Seq<char>| stripped_line(l),
    ));
    join(&out, "\n")
}

/// A bold speaker label.
pub open spec fn label_text(name: Seq<char>) -> Seq<char> {
    "**"@ + name + "**"@
}

/// The pair renames a label at the beginning of `s`. Blank names are left alone.
pub open spec fn renames_here(s: Seq<char>, pair: (Seq<char>, Seq<char>)) -> bool {
    !text::is_blank(pair.0) && !text::is_blank(pair.1) && text::starts(s, label_text(pair.0))
}

/// Place of the first pair that renames a label at the beginning of `s`.
pub open spec fn rename_at(s: Seq<char>, renames: Seq<(Seq<char>, Seq<char>)>) -> Option<int>
    decreases renames.len(),
{
    if renames.len() == 0 {
        None
    } else {
        match rename_at(s, renames.drop_last()) {
            Some(k) => Some(k),
            None => if renames_here(s, renames.last()) {
                Some(renames.len() - 1)
            } else {
                None
            },
        }
    }
}

/// `s` with its labels renamed in one pass: every label becomes that of its own
/// pair, and what is put in is not looked at again.
pub open spec fn renamed(s: Seq<char>, renames: Seq<(Seq<char>, Seq<char>)>) -> Seq<char>
    decreases s.len(),
{
    if s.len() == 0 {
        s
    } else {
        proof {
            lemma_rename_at(s, renames);
        }
        match rename_at(s, renames) {
            Some(k) => label_text(text::trimmed(renames[k].1)) + renamed(
                s.skip(label_text(renames[k].0).len() as int),
                renames,
            ),
            None => seq![s[0]] + renamed(s.drop_first(), renames),
        }
    }
}

/// What [`rename_at`] finds.
pub proof fn lemma_rename_at(s: Seq<char>, renames: Seq<(Seq<char>, Seq<char>)>)
    ensures
        match rename_at(s, renames) {
            Some(k) => {
                &&& 0 <= k < renames.len()
                &&& renames_here(s, renames[k])
                &&& 0 < label_text(renames[k].0).len() <= s.len()
                &&& forall|j: int| 0 <= j < k ==> !renames_here(s, #[trigger] renames[j])
            },
            None => forall|j: int|
                0 <= j < renames.len() ==> !renames_here(s, #[trigger] renames[j]),
        },
    decreases renames.len(),
{
    if renames.len() > 0 {
        let rest = renames.drop_last();
        lemma_rename_at(s, rest);
        assert forall|j: int| 0 <= j < rest.len() implies #[trigger] renames[j] == rest[j] by {}
        match rename_at(s, renames) {
            Some(k) => {
                assert(renames_here(s, renames[k]));
                assert(renames[k].0.len() > 0);
                assert forall|j: int| 0 <= j < k implies !renames_here(s, #[trigger] renames[j]) by {
                    assert(renames[j] == rest[j]);
                }
            },
            None => {
                assert forall|j: int| 0 <= j < renames.len() implies !renames_here(
                    s,
                    #[trigger] renames[j],
                ) by {
                    if j < rest.len() {
                        assert(renames[j] == rest[j]);
                    }
                }
            },
        }
    }
}

/// The label that [`rename_at`] finds is the one of a pair with these
/// properties.
proof fn rename_at_is(s: Seq<char>, renames: Seq<(Seq<char>, Seq<char>)>, k: int)
    requires
        0 <= k < renames.len(),
        renames_here(s, renames[k]),
        forall|j: int| 0 <= j < k ==> !renames_here(s, #[trigger] renames[j]),
    ensures
        rename_at(s, renames) == Some(k),
{
    lemma_rename_at(s, renames);
}

/// A bold speaker label.
fn label(name: &str) -> (r: String)
    ensures
        r@ == label_text(name@),
{
    let mut out = text::owned("**");
    out.push_str(name);
    out.push_str("**");
    out
}

/// The bold labels of the old names.
fn old_labels(renames: &TextMap) -> (r: Vec<Vec<char>>)
    ensures
        r@.len() == renames@.len(),
        forall|k: int| 0 <= k < r@.len() ==> (#[trigger] r@[k])@ == label_text(renames@[k].0),
{
    let n = renames.len();
    let mut out: Vec<Vec<char>> = Vec::new();
    let mut i: usize = 0;
    while i < n
        invariant
            i <= n,
            n == renames@.len(),
            out@.len() == i,
            forall|k: int| 0 <= k < i ==> (#[trigger] out@[k])@ == label_text(renames@[k].0),
        decreases n - i,
    {
        let (old, _) = renames.at(i);
        out.push(to_chars(&label(old)));
        i += 1;
    }
    out
}

/// Place of the first pair that renames a label at `at`.
fn find_rename(cs: &Vec<char>, at: usize, renames: &TextMap, labels: &Vec<Vec<char>>) -> (r: Option<
    usize,
>)
    requires
        at <= cs@.len(),
        labels@.len() == renames@.len(),
        forall|k: int|
            0 <= k < labels@.len() ==> (#[trigger] labels@[k])@ == label_text(renames@[k].0),
    ensures
        match r {
            Some(k) => rename_at(cs@.skip(at as int), renames@) == Some(k as int),
            None => rename_at(cs@.skip(at as int), renames@) is None,
        },
{
    let ghost rest = cs@.skip(at as int);
    let mut k: usize = 0;
    while k < labels.len()
        invariant
            k <= labels@.len(),
            at <= cs@.len(),
            rest == cs@.skip(at as int),
            labels@.len() == renames@.len(),
            forall|j: int|
                0 <= j < labels@.len() ==> (#[trigger] labels@[j])@ == label_text(renames@[j].0),
            forall|j: int| 0 <= j < k ==> !renames_here(rest, #[trigger] renames@[j]),
        decreases labels@.len() - k,
    {
        let (old, new) = renames.at(k);
        let hit = text::found_at(cs, &labels[k], at);
        assert(hit == text::starts(rest, labels@[k as int]@)) by {
            let p = labels@[k as int]@;
            if p.len() <= rest.len() {
                assert(rest.subrange(0, p.len() as int) =~= cs@.subrange(
                    at as int,
                    at + p.len(),
                ));
            }
        }
        if hit && !blank(old) && !blank(new) {
            proof {
                rename_at_is(rest, renames@, k as int);
            }
            return Some(k);
        }
        k += 1;
    }
    proof {
        lemma_rename_at(rest, renames@);
    }
    None
}

/// Renames bold speaker labels: `**Old**` becomes `**New**`, everywhere and in
/// one pass.
pub fn rename_speakers_in_markdown(s: &str, renames: &TextMap) -> (r: String)
    ensures
        r@ == renamed(s@, renames@),
{
    let cs = to_chars(s);
    let labels = old_labels(renames);
    let mut out = String::new();
    let mut pos: usize = 0;
    assert(cs@.skip(0) =~= cs@);
    assert(out@ + renamed(s@, renames@) =~= renamed(s@, renames@));
    while pos < cs.len()
        invariant
            pos <= cs@.len(),
            cs@ == s@,
            labels@.len() == renames@.len(),
            forall|k: int|
                0 <= k < labels@.len() ==> (#[trigger] labels@[k])@ == label_text(renames@[k].0),
            renamed(s@, renames@) == out@ + renamed(cs@.skip(pos as int), renames@),
        decreases cs@.len() - pos,
    {
        let ghost rest = cs@.skip(pos as int);
        let ghost before = out@;
        proof {
            lemma_rename_at(rest, renames@);
        }
        match find_rename(&cs, pos, renames, &labels) {
            Some(k) => {
                let (_, new) = renames.at(k);
                let next = label(&trim(new));
                let len = labels[k].len();
                out.push_str(&next);
                assert(rest.skip(len as int) =~= cs@.skip(pos + len));
                assert(before + (next@ + renamed(cs@.skip(pos + len), renames@)) =~= out@ + renamed(
                    cs@.skip(pos + len),
                    renames@,
                ));
                pos += len;
            },
            None => {
                out.push(cs[pos]);
                assert(rest.drop_first() =~= cs@.skip(pos + 1));
                assert(before + (seq![rest[0]] + renamed(cs@.skip(pos + 1), renames@)) =~= out@
                    + renamed(cs@.skip(pos + 1), renames@));
                pos += 1;
            },
        }
    }
    assert(cs@.skip(pos as int) =~= Seq::empty());
    assert(out@ + Seq::<char>::empty() =~= out@);
    out
}

// ---------------------------------------------------------------------------
// Meeting names
// ---------------------------------------------------------------------------

/// Whether `char::is_alphanumeric` holds of `c`.
pub uninterp spec fn alphanumeric(c: char) -> bool;

/// `char::is_alphanumeric` tells whether a character is a letter or a number
/// in the sense of Unicode. The property is a table; it is only named here.
/// Besides, no white space is alphanumeric: the characters with the property
/// `White_Space` are separators and control characters, which are neither
/// `Alphabetic` nor in one of the categories for numbers.
pub assume_specification[ char::is_alphanumeric ](c: char) -> (r: bool)
    ensures
        r == alphanumeric(c),
        r ==> !text::is_white_space(c),
;

/// A character of a title as it goes into a file name, where `letter` tells
/// whether it is a letter or a number.
pub open spec fn safe_char_if(c: char, letter: bool) -> char {
    if letter || c == '-' || c == '_' {
        c
    } else if text::is_white_space(c) {
        '-'
    } else {
        '_'
    }
}

/// A character of a title as it goes into a file name.
pub open spec fn safe_char(c: char) -> char {
    safe_char_if(c, alphanumeric(c))
}

/// A character of a title as it goes into a file name, where `letter` tells
/// whether it is a letter or a number.
pub fn file_char(c: char, letter: bool) -> (r: char)
    ensures
        r == safe_char_if(c, letter),
{
    if letter || c == '-' || c == '_' {
        c
    } else if text::is_space(c) {
        '-'
    } else {
        '_'
    }
}

/// `s` without the dashes around it.
pub open spec fn without_dashes(s: Seq<char>) -> Seq<char>
    decreases s.len(),
{
    if s.len() > 0 && s[0] == '-' {
        without_dashes(s.drop_first())
    } else if s.len() > 0 && s.last() == '-' {
        without_dashes(s.drop_last())
    } else {
        s
    }
}

/// A title as it goes into a file name.
pub open spec fn safe_title(title: Seq<char>) -> Seq<char> {
    without_dashes(text::trimmed(title).map_values(|c: char| safe_char(c)))
}

/// A title as it goes into a file name: letters, numbers, dashes and underscores,
/// without a dash at either end. A title that is safe already stays as it is.
pub fn sanitize_title(title: &str) -> (r: String)
    ensures
        r@ == safe_title(title@),
        safe_title(r@) == r@,
        forall|i: int|
            0 <= i < r@.len() ==> alphanumeric(#[trigger] r@[i]) || r@[i] == '-' || r@[i] == '_',
        forall|i: int| 0 <= i < r@.len() ==> !text::is_white_space(#[trigger] r@[i]),
        r@.len() > 0 ==> r@[0] != '-' && r@.last() != '-',
{
    let cs = to_chars(&trim(title));
    let mut safe: Vec<char> = Vec::new();
    let mut i: usize = 0;
    while i < cs.len()
        invariant
            i <= cs.len(),
            safe@ =~= cs@.take(i as int).map_values(|c: char| safe_char(c)),
            forall|k: int|
                0 <= k < i && alphanumeric(#[trigger] cs@[k]) ==> !text::is_white_space(cs@[k]),
        decreases cs.len() - i,
    {
        safe.push(file_char(cs[i], cs[i].is_alphanumeric()));
        i += 1;
    }
    assert(cs@.take(i as int) =~= cs@);
    proof {
        store_laws::titles_are_safe(title@);
        store_laws::safe_titles_stay(title@);
    }
    let mut lo: usize = 0;
    let mut hi: usize = safe.len();
    assert(safe@.subrange(0, hi as int) =~= safe@);
    while lo < hi && safe[lo] == '-'
        invariant
            lo <= hi,
            hi == safe.len(),
            without_dashes(safe@) == without_dashes(safe@.subrange(lo as int, hi as int)),
        decreases hi - lo,
    {
        assert(safe@.subrange(lo as int, hi as int).drop_first() =~= safe@.subrange(
            lo + 1,
            hi as int,
        ));
        lo += 1;
    }
    while lo < hi && safe[hi - 1] == '-'
        invariant
            lo <= hi <= safe.len(),
            lo < hi ==> safe[lo as int] != '-',
            without_dashes(safe@) == without_dashes(safe@.subrange(lo as int, hi as int)),
        decreases hi - lo,
    {
        assert(safe@.subrange(lo as int, hi as int).drop_last() =~= safe@.subrange(
            lo as int,
            hi - 1,
        ));
        hi -= 1;
    }
    text::from_chars(&safe, lo, hi)
}

/// The stem of the `attempt`-th name of a meeting that starts at `t`.
pub open spec fn attempt_stem(t: StartTime, attempt: nat) -> Seq<char> {
    if attempt <= 1 {
        t.stem_text() + "-untitled"@
    } else {
        t.stem_text() + "-untitled-"@ + text::decimal(attempt)
    }
}

/// The raw file of the `attempt`-th name of a meeting that starts at `t`.
pub open spec fn raw_name_of(t: StartTime, attempt: nat) -> Seq<char> {
    attempt_stem(t, attempt) + "-raw.md"@
}

/// `n` is the first attempt whose raw file does not exist yet.
pub open spec fn first_free(t: StartTime, existing: Seq<Seq<char>>, n: nat) -> bool {
    &&& 1 <= n
    &&& !existing.contains(raw_name_of(t, n))
    &&& forall|m: nat| 1 <= m < n ==> existing.contains(#[trigger] raw_name_of(t, m))
}

/// Two attempts never lead to the same file.
pub proof fn raw_names_differ(t: StartTime, a: nat, b: nat)
    requires
        1 <= a,
        1 <= b,
        a != b,
    ensures
        raw_name_of(t, a) != raw_name_of(t, b),
        attempt_stem(t, a) != attempt_stem(t, b),
{
    reveal_strlit("-untitled");
    reveal_strlit("-untitled-");
    let p = t.stem_text();
    let x = attempt_stem(t, a);
    let y = attempt_stem(t, b);
    crate::text_laws::decimal_is_digits(a);
    crate::text_laws::decimal_is_digits(b);
    if x == y {
        if a > 1 && b > 1 {
            let q = p + "-untitled-"@;
            assert(x.skip(q.len() as int) =~= text::decimal(a));
            assert(y.skip(q.len() as int) =~= text::decimal(b));
            crate::text_laws::decimal_injective(a, b);
        } else {
            assert(x.len() != y.len());
        }
    }
    if raw_name_of(t, a) == raw_name_of(t, b) {
        assert(x =~= raw_name_of(t, a).take(raw_name_of(t, a).len() - "-raw.md"@.len()));
        assert(y =~= raw_name_of(t, b).take(raw_name_of(t, b).len() - "-raw.md"@.len()));
    }
}

/// The stem of the `attempt`-th name, from the printed minute.
fn stem_of(minute: &str, attempt: u64) -> (r: String)
    ensures
        attempt <= 1 ==> r@ == minute@ + "-untitled"@,
        attempt > 1 ==> r@ == minute@ + "-untitled-"@ + text::decimal(attempt as nat),
{
    let mut stem = text::owned(minute);
    if attempt <= 1 {
        stem.push_str("-untitled");
    } else {
        stem.push_str("-untitled-");
        push_decimal(&mut stem, attempt);
    }
    stem
}

/// Whether `name` is one of `names`.
fn listed(names: &Vec<String>, name: &str) -> (r: bool)
    ensures
        r == text::texts(names@).contains(name@),
{
    let mut i: usize = 0;
    while i < names.len()
        invariant
            i <= names.len(),
            forall|k: int| 0 <= k < i ==> (#[trigger] names[k])@ != name@,
        decreases names.len() - i,
    {
        if text::same_text(&names[i], name) {
            assert(text::texts(names@)[i as int] == name@);
            return true;
        }
        i += 1;
    }
    assert forall|k: int| 0 <= k < text::texts(names@).len() implies text::texts(names@)[k]
        != name@ by {
        assert(names[k]@ != name@);
    }
    false
}

/// Number of characters of the date and time at the beginning of a stem.
pub const STEM_PREFIX: usize = 15;

/// The stem of a meeting under a new title: the date and time stay.
pub open spec fn renamed_stem(stem: Seq<char>, title: Seq<char>) -> Seq<char> {
    let n = if stem.len() < STEM_PREFIX { stem.len() as int } else { STEM_PREFIX as int };
    stem.take(n) + "-"@ + safe_title(title)
}

/// One file of a meeting that changes its name, if it exists.
#[derive(Debug)]
pub struct FileMove {
    pub from: FilePath,
    pub to: FilePath,
}

/// A list of moves by their locations.
pub open spec fn moves_model(v: Seq<FileMove>) -> Seq<(PathModel, PathModel)> {
    Seq::new(v.len(), |i: int| (v[i].from@, v[i].to@))
}

impl StoreModel {
    /// The store of a new meeting.
    pub open spec fn created(
        meetings_dir: PathModel,
        recovery_dir: PathModel,
        started: StartTime,
        target_language: Seq<char>,
        attempt: nat,
    ) -> StoreModel {
        let stem = attempt_stem(started, attempt);
        StoreModel {
            meetings_dir,
            recovery_dir,
            raw_path: meetings_dir.joined(stem + "-raw.md"@),
            stem,
            meta: MetaModel {
                title: "Untitled meeting"@,
                started_at: started.shown_text(),
                target_language,
            },
        }
    }

    pub open spec fn polished(self) -> PathModel {
        self.meetings_dir.joined(self.stem + "-polished.md"@)
    }

    pub open spec fn export(self) -> PathModel {
        self.meetings_dir.joined(self.stem + "-raw-no-timestamps.md"@)
    }

    /// Where the recording of the meeting is kept.
    pub open spec fn audio(self) -> PathModel {
        self.meetings_dir.joined("audio"@).joined(self.stem + ".wav"@)
    }

    pub open spec fn journal(self) -> PathModel {
        self.recovery_dir.joined(self.stem + ".journal.json"@)
    }

    /// The store under a new title.
    pub open spec fn retitled(self, title: Seq<char>) -> StoreModel {
        let stem = renamed_stem(self.stem, title);
        StoreModel {
            stem,
            raw_path: self.meetings_dir.joined(stem + "-raw.md"@),
            meta: MetaModel { title, ..self.meta },
            ..self
        }
    }

    /// The files that move along with a new title, the journal last.
    pub open spec fn moves(self, to: StoreModel) -> Seq<(PathModel, PathModel)> {
        seq![
            (
                self.meetings_dir.joined(self.stem + "-raw.md"@),
                to.meetings_dir.joined(to.stem + "-raw.md"@),
            ),
            (self.polished(), to.polished()),
            (self.export(), to.export()),
            (self.journal(), to.journal()),
            (self.audio(), to.audio()),
        ]
    }
}

/// `a` followed by `b`.
fn together(a: &str, b: &str) -> (r: String)
    ensures
        r@ == a@ + b@,
{
    let mut out = text::owned(a);
    out.push_str(b);
    out
}

impl MeetingStore {
    /// The store of a meeting that starts now, where the meetings folder holds
    /// the `existing` files. File names start with local date and time. A
    /// meeting started in the same minute as another gets a number, so that no
    /// existing meeting is overwritten.
    pub fn create(
        meetings_dir: FilePath,
        recovery_dir: FilePath,
        started: &StartTime,
        target_language: &str,
        existing: &Vec<String>,
    ) -> (r: Self)
        requires
            started.valid(),
            existing@.len() < u64::MAX,
        ensures
            exists|n: nat|
                {
                    &&& first_free(*started, text::texts(existing@), n)
                    &&& r@ == StoreModel::created(
                        meetings_dir@,
                        recovery_dir@,
                        *started,
                        target_language@,
                        n,
                    )
                },
            r@.wf(),
    {
        let minute = match print_minute(started, STEM_PATTERN) {
            Some(s) => s,
            None => String::new(),
        };
        let shown = match print_minute(started, SHOWN_PATTERN) {
            Some(s) => s,
            None => String::new(),
        };
        let mut attempt: u64 = 1;
        let mut stem = stem_of(&minute, attempt);
        let mut raw_name = together(&stem, "-raw.md");
        let ghost mut tried: Seq<Seq<char>> = Seq::empty();
        while listed(existing, &raw_name)
            invariant
                minute@ == started.stem_text(),
                existing@.len() < u64::MAX,
                1 <= attempt,
                attempt == tried.len() + 1,
                stem@ == attempt_stem(*started, attempt as nat),
                raw_name@ == stem@ + "-raw.md"@,
                forall|k: int|
                    0 <= k < tried.len() ==> #[trigger] tried[k] == raw_name_of(
                        *started,
                        (k + 1) as nat,
                    ),
                forall|n: nat|
                    1 <= n < attempt ==> text::texts(existing@).contains(
                        #[trigger] raw_name_of(*started, n),
                    ),
                tried.len() <= existing@.len(),
            decreases existing@.len() - tried.len(),
        {
            proof {
                let names = text::texts(existing@);
                let more = tried.push(raw_name@);
                assert(raw_name@ == raw_name_of(*started, attempt as nat));
                assert forall|i: int, j: int| 0 <= i < j < more.len() implies more[i] != more[j] by {
                    raw_names_differ(*started, (i + 1) as nat, (j + 1) as nat);
                }
                assert(more.no_duplicates());
                assert forall|x: Seq<char>| more.to_set().contains(x) implies names.to_set().contains(
                    x,
                ) by {
                    let k = choose|k: int| 0 <= k < more.len() && more[k] == x;
                    if k == tried.len() {
                        assert(x == raw_name@);
                    } else {
                        assert(x == raw_name_of(*started, (k + 1) as nat));
                    }
                    assert(names.contains(x));
                }
                more.unique_seq_to_set();
                vstd::set_lib::lemma_len_subset(more.to_set(), names.to_set());
                names.lemma_cardinality_of_set();
                tried = more;
            }
            attempt += 1;
            stem = stem_of(&minute, attempt);
            raw_name = together(&stem, "-raw.md");
        }
        assert(raw_name@ == raw_name_of(*started, attempt as nat));
        assert(first_free(*started, text::texts(existing@), attempt as nat));
        let raw_path = meetings_dir.join(&raw_name);
        MeetingStore {
            meetings_dir,
            recovery_dir,
            raw_path,
            stem,
            meta: MeetingMeta {
                title: text::owned("Untitled meeting"),
                started_at: shown,
                target_language: text::owned(target_language),
            },
        }
    }

    /// What the header of the raw file says.
    pub fn meta(&self) -> (r: &MeetingMeta)
        ensures
            r@ == self@.meta,
    {
        &self.meta
    }

    pub fn raw_path(&self) -> (r: &FilePath)
        ensures
            r@ == self@.raw_path,
    {
        &self.raw_path
    }

    pub fn polished_path(&self) -> (r: FilePath)
        ensures
            r@ == self@.polished(),
    {
        self.meetings_dir.join(&together(&self.stem, "-polished.md"))
    }

    pub fn export_path(&self) -> (r: FilePath)
        ensures
            r@ == self@.export(),
    {
        self.meetings_dir.join(&together(&self.stem, "-raw-no-timestamps.md"))
    }

    /// Where the recording of the meeting is kept.
    pub fn audio_path(&self) -> (r: FilePath)
        ensures
            r@ == self@.audio(),
    {
        self.meetings_dir.join("audio").join(&together(&self.stem, ".wav"))
    }

    pub fn journal_path(&self) -> (r: FilePath)
        ensures
            r@ == self@.journal(),
    {
        self.recovery_dir.join(&together(&self.stem, ".journal.json"))
    }

    /// The folder of the raw file.
    pub fn raw_dir(&self) -> (r: &FilePath)
        ensures
            r@ == self@.meetings_dir,
    {
        &self.meetings_dir
    }

    /// The folder of the polished file.
    pub fn polished_dir(&self) -> (r: &FilePath)
        ensures
            r@ == self@.meetings_dir,
    {
        &self.meetings_dir
    }

    /// The journal to write for provisional state: it says which meeting and
    /// which raw file it belongs to.
    pub fn write_journal(&self, journal: RecoveryJournal) -> (r: RecoveryJournal)
        ensures
            r.meta matches Some(m) && m@ == self@.meta,
            r.raw_path matches Some(p) && p@ == self@.raw_path,
            r.open_original == journal.open_original,
            r.open_translated == journal.open_translated,
            r.open_start_ms == journal.open_start_ms,
            r.speaker_renames == journal.speaker_renames,
    {
        RecoveryJournal {
            meta: Some(self.meta.clone()),
            raw_path: Some(self.raw_path.clone()),
            open_original: journal.open_original,
            open_translated: journal.open_translated,
            open_start_ms: journal.open_start_ms,
            speaker_renames: journal.speaker_renames,
        }
    }

    /// The block that one finalized entry adds to the end of the raw file.
    pub fn append_entry(&self, entry: &TimelineEntry, target_language: &str) -> (r: String)
        ensures
            r@ == entry_text(entry@, target_language@),
    {
        render_entry(entry, target_language)
    }

    /// The journal file to remove after successful finalization, if there is
    /// one.
    pub fn finalize(&self, journal_exists: bool) -> (r: Option<FilePath>)
        ensures
            r is Some == journal_exists,
            r matches Some(p) ==> p@ == self@.journal(),
    {
        if journal_exists {
            Some(self.journal_path())
        } else {
            None
        }
    }

    /// The new contents of the raw file after speaker renames and merges, or
    /// `None` when there is nothing to rename and the file stays as it is.
    pub fn apply_speaker_renames(&self, raw: &str, renames: &TextMap) -> (r: Option<String>)
        ensures
            r is None <==> renames@.len() == 0,
            r matches Some(s) ==> s@ == renamed(raw@, renames@),
    {
        if renames.len() == 0 {
            None
        } else {
            Some(rename_speakers_in_markdown(raw, renames))
        }
    }

    /// Timestamp-free export: where the separate copy goes and what it holds.
    /// The raw file is only read.
    pub fn export_without_timestamps(&self, raw: &str) -> (r: (FilePath, String))
        ensures
            r.0@ == self@.export(),
            r.1@ == stripped(raw@),
    {
        (self.export_path(), strip_timestamps(raw))
    }

    /// Renames the meeting and returns the moves of every file that belongs to
    /// it. A title that leaves nothing for a file name is refused; one that
    /// leads to the same names changes nothing.
    pub fn rename_meeting(&mut self, new_title: &str) -> (r: Result<Vec<FileMove>, SallyError>)
        requires
            old(self)@.wf(),
        ensures
            final(self)@.wf(),
            safe_title(new_title@).len() == 0 ==> {
                &&& r matches Err(e)
                &&& e@ == ErrorModel::Storage("empty meeting name"@)
                &&& final(self)@ == old(self)@
            },
            safe_title(new_title@).len() > 0 ==> {
                &&& r matches Ok(moves)
                &&& if renamed_stem(old(self)@.stem, new_title@) == old(self)@.stem {
                    &&& final(self)@ == old(self)@
                    &&& moves@.len() == 0
                } else {
                    &&& final(self)@ == old(self)@.retitled(new_title@)
                    &&& moves_model(moves@) == old(self)@.moves(final(self)@)
                }
            },
    {
        let safe = sanitize_title(new_title);
        if safe.as_str().is_empty() {
            return Err(SallyError::Storage(text::owned("empty meeting name")));
        }
        let cs = to_chars(&self.stem);
        let n: usize = if cs.len() < STEM_PREFIX {
            cs.len()
        } else {
            STEM_PREFIX
        };
        let mut stem = text::from_chars(&cs, 0, n);
        assert(stem@ =~= cs@.take(n as int));
        stem.push_str("-");
        stem.push_str(&safe);
        assert(stem@ == renamed_stem(old(self)@.stem, new_title@));
        let mut moves: Vec<FileMove> = Vec::new();
        if text::same_text(&stem, &self.stem) {
            return Ok(moves);
        }
        let from = self.clone();
        self.raw_path = self.meetings_dir.join(&together(&stem, "-raw.md"));
        self.stem = stem;
        self.meta = MeetingMeta {
            title: text::owned(new_title),
            started_at: self.meta.started_at.clone(),
            target_language: self.meta.target_language.clone(),
        };
        moves.push(FileMove { from: from.raw_path.clone(), to: self.raw_path.clone() });
        moves.push(FileMove { from: from.polished_path(), to: self.polished_path() });
        moves.push(FileMove { from: from.export_path(), to: self.export_path() });
        moves.push(FileMove { from: from.journal_path(), to: self.journal_path() });
        moves.push(FileMove { from: from.audio_path(), to: self.audio_path() });
        assert(moves_model(moves@) =~= old(self)@.moves(self@));
        Ok(moves)
    }
}

// ---------------------------------------------------------------------------
// Recovery
// ---------------------------------------------------------------------------

/// The name is that of a journal file: it has the extension `json`.
pub open spec fn is_journal(name: Seq<char>) -> bool {
    name.len() > 5 && text::ends(name, ".json"@)
}

/// Whether a file of the recovery folder is a journal.
pub fn is_journal_name(name: &str) -> (r: bool)
    ensures
        r == is_journal(name@),
{
    to_chars(name).len() > 5 && text::ends_with(name, ".json")
}

/// The block that a journal adds to the raw file.
pub open spec fn recovered_text(start_ms: u64, original: Seq<char>, translated: Seq<char>) -> Seq<
    char,
> {
    timeline::stamp(start_ms as nat) + " **Meeting** *(recovered after interruption)*\n\nOriginal: "@
        + text::trimmed(original) + "\n\nTranslation: "@ + text::trimmed(translated) + "\n\n"@
}

/// What to do with one journal: `append` goes to the raw file, which is created
/// where it is gone, then the journal is removed when `remove` says so, and
/// `recovered` is the raw file to report.
pub struct Recovery {
    pub append: Option<String>,
    pub remove: bool,
    pub recovered: Option<FilePath>,
}

impl RecoveryJournal {
    /// The journal holds text that is not in the raw file.
    pub open spec fn has_text(&self) -> bool {
        !text::is_blank(self.open_original@) || !text::is_blank(self.open_translated@)
    }
}

impl MeetingStore {
    /// Decides what becomes of the journal of an interrupted meeting. A file that
    /// is no journal (`None`) is left alone. Provisional text goes to the raw
    /// file, even if that has to be created anew; a journal with text that names
    /// no raw file is kept. No text is given up.
    pub fn recover(journal: Option<&RecoveryJournal>, raw_exists: bool) -> (r: Recovery)
        ensures
            journal is None ==> !r.remove && r.append is None && r.recovered is None,
            journal matches Some(j) ==> {
                &&& r.remove <==> j.raw_path is Some || !j.has_text()
                &&& r.recovered is Some <==> j.raw_path is Some && (raw_exists || j.has_text())
                &&& r.recovered matches Some(p) ==> p@ == j.raw_path->0@
                &&& r.append is Some <==> j.raw_path is Some && j.has_text()
                &&& r.append matches Some(s) ==> s@ == recovered_text(
                    j.open_start_ms,
                    j.open_original@,
                    j.open_translated@,
                )
                &&& j.has_text() ==> !r.remove || (r.append is Some && r.recovered is Some)
                &&& r.remove ==> match r.append {
                    Some(s) => store_laws::in_order(
                        s@,
                        text::trimmed(j.open_original@),
                        text::trimmed(j.open_translated@),
                    ),
                    None => text::ink(j.open_original@).len() == 0 && text::ink(
                        j.open_translated@,
                    ).len() == 0,
                }
            },
    {
        proof {
            if journal is Some {
                let j = *journal->0;
                store_laws::recovered_blocks_hold_both_texts(
                    j.open_start_ms,
                    j.open_original@,
                    j.open_translated@,
                );
                store_laws::blank_journals_hold_nothing(j);
            }
        }
        let j = match journal {
            None => {
                return Recovery { append: None, remove: false, recovered: None };
            },
            Some(j) => j,
        };
        let has_text = !(blank(&j.open_original) && blank(&j.open_translated));
        let p = match &j.raw_path {
            None => {
                return Recovery { append: None, remove: !has_text, recovered: None };
            },
            Some(p) => p,
        };
        if !has_text {
            let recovered = if raw_exists {
                Some(p.clone())
            } else {
                None
            };
            return Recovery { append: None, remove: true, recovered };
        }
        let mut out = format_timestamp(j.open_start_ms);
        out.push_str(" **Meeting** *(recovered after interruption)*\n\nOriginal: ");
        out.push_str(&trim(&j.open_original));
        out.push_str("\n\nTranslation: ");
        out.push_str(&trim(&j.open_translated));
        out.push_str("\n\n");
        Recovery { append: Some(out), remove: true, recovered: Some(p.clone()) }
    }

    /// The journals among the names of the files in the recovery folder, in
    /// the order given.
    pub fn pending_recoveries(names: &Vec<String>) -> (r: Vec<String>)
        ensures
            text::texts(r@) == text::texts(names@).filter(|n: Seq<char>| is_journal(n)),
    {
        let ghost keep = |n: Seq<char>| is_journal(n);
        let mut out: Vec<String> = Vec::new();
        let mut i: usize = 0;
        assert(text::texts(out@) =~= text::texts(names@).take(0).filter(keep)) by {
            reveal(Seq::filter);
        }
        while i < names.len()
            invariant
                i <= names.len(),
                keep == (|n: Seq<char>| is_journal(n)),
                text::texts(out@) == text::texts(names@).take(i as int).filter(keep),
            decreases names.len() - i,
        {
            proof {
                let all = text::texts(names@);
                assert(all.take(i + 1).drop_last() =~= all.take(i as int));
                reveal(Seq::filter);
            }
            if is_journal_name(&names[i]) {
                let name = names[i].clone();
                proof {
                    text::lemma_texts_push(out@, name);
                }
                out.push(name);
            }
            i += 1;
        }
        assert(text::texts(names@).take(i as int) =~= text::texts(names@));
        out
    }
}

} // verus!
