//! Timeline assembler.
//!
//! Aligns original-transcript fragments, translated fragments, the session
//! clock and microphone activity into stable timeline entries. Entries are
//! provisional while a turn is open and final once the turn completes;
//! finalized entries never change.
use vstd::prelude::*;
use crate::text;
use crate::text::{blank, push_decimal, push_two_digits, to_chars, trim};

verus! {

#[derive(Debug, Clone, Copy, PartialEq, Eq, Structural)]
pub enum EntryKind {
    Speech,
    Gap,
}

/// A finished entry of the timeline.
#[derive(Debug)]
pub struct TimelineEntry {
    pub index: u64,
    pub kind: EntryKind,
    pub start_ms: u64,
    pub end_ms: u64,
    pub speaker: String,
    pub original: String,
    pub translated: String,
}

/// A [`TimelineEntry`] by its characters.
pub struct EntryModel {
    pub index: u64,
    pub kind: EntryKind,
    pub start_ms: u64,
    pub end_ms: u64,
    pub speaker: Seq<char>,
    pub original: Seq<char>,
    pub translated: Seq<char>,
}

impl View for TimelineEntry {
    type V = EntryModel;

    open spec fn view(&self) -> EntryModel {
        EntryModel {
            index: self.index,
            kind: self.kind,
            start_ms: self.start_ms,
            end_ms: self.end_ms,
            speaker: self.speaker@,
            original: self.original@,
            translated: self.translated@,
        }
    }
}

impl Clone for TimelineEntry {
    fn clone(&self) -> (r: Self)
        ensures
            r@ == self@,
    {
        TimelineEntry {
            index: self.index,
            kind: self.kind,
            start_ms: self.start_ms,
            end_ms: self.end_ms,
            speaker: self.speaker.clone(),
            original: self.original.clone(),
            translated: self.translated.clone(),
        }
    }
}

/// The entries of a list by their characters.
pub open spec fn entries(v: Seq<TimelineEntry>) -> Seq<EntryModel> {
    Seq::new(v.len(), |i: int| v[i]@)
}

/// Provisional view of what is not yet sealed, for live panels.
#[derive(Debug)]
pub struct PartialEntry {
    pub start_ms: u64,
    pub speaker: String,
    pub original: String,
    pub translated: String,
}

/// A [`PartialEntry`] by its characters.
pub struct PartialModel {
    pub start_ms: u64,
    pub speaker: Seq<char>,
    pub original: Seq<char>,
    pub translated: Seq<char>,
}

impl View for PartialEntry {
    type V = PartialModel;

    open spec fn view(&self) -> PartialModel {
        PartialModel {
            start_ms: self.start_ms,
            speaker: self.speaker@,
            original: self.original@,
            translated: self.translated@,
        }
    }
}

impl Clone for PartialEntry {
    fn clone(&self) -> (r: Self)
        ensures
            r@ == self@,
    {
        PartialEntry {
            start_ms: self.start_ms,
            speaker: self.speaker.clone(),
            original: self.original.clone(),
            translated: self.translated.clone(),
        }
    }
}

/// The provisional entry, if there is one, by its characters.
pub open spec fn partial_model(r: Option<PartialEntry>) -> Option<PartialModel> {
    match r {
        Some(e) => Some(e@),
        None => None,
    }
}

/// An entry that still receives text.
struct OpenEntry {
    start_ms: u64,
    last_ms: u64,
    original: String,
    translated: String,
    mic_active_chunks: u32,
    speech_chunks: u32,
}

/// What an unfinished entry holds.
pub struct OpenModel {
    pub start_ms: u64,
    pub last_ms: u64,
    pub original: Seq<char>,
    pub translated: Seq<char>,
    pub mic_active_chunks: u32,
    pub speech_chunks: u32,
}

impl View for OpenEntry {
    type V = OpenModel;

    closed spec fn view(&self) -> OpenModel {
        OpenModel {
            start_ms: self.start_ms,
            last_ms: self.last_ms,
            original: self.original@,
            translated: self.translated@,
            mic_active_chunks: self.mic_active_chunks,
            speech_chunks: self.speech_chunks,
        }
    }
}

/// Two-stage assembly: `open` receives new original fragments; `closing` is an
/// entry whose original text is frozen but whose translation is still
/// streaming in. Translated text lags the original by seconds, so routing it
/// to the newest entry would smear each passage's translation into the
/// following paragraph.
///
/// The `last_ms` of the closing entry stays as it was when the entry became
/// closing. It is the start of the grace window of [`Assembler::drain_stale_closing`].
pub struct Assembler {
    next_index: u64,
    closing: Option<OpenEntry>,
    open: Option<OpenEntry>,
}

/// What an [`Assembler`] holds.
pub struct AssemblerModel {
    pub next_index: u64,
    pub closing: Option<OpenModel>,
    pub open: Option<OpenModel>,
}

spec fn open_model(e: Option<OpenEntry>) -> Option<OpenModel> {
    match e {
        Some(e) => Some(e@),
        None => None,
    }
}

impl View for Assembler {
    type V = AssemblerModel;

    closed spec fn view(&self) -> AssemblerModel {
        AssemblerModel {
            next_index: self.next_index,
            closing: open_model(self.closing),
            open: open_model(self.open),
        }
    }
}

// ---------------------------------------------------------------------------
// Model
// ---------------------------------------------------------------------------

/// Punctuation that ends a sentence.
pub open spec fn is_sentence_end(c: char) -> bool {
    c == '.' || c == '!' || c == '?' || c == '。' || c == '！' || c == '？' || c == '…' || c == '．'
}

/// Number of characters up to and with the last sentence end, 0 if there is
/// none.
pub open spec fn last_sentence_end(s: Seq<char>) -> nat
    decreases s.len(),
{
    if s.len() == 0 || is_sentence_end(s.last()) {
        s.len()
    } else {
        last_sentence_end(s.drop_last())
    }
}

/// The text up to its last sentence end when something follows it, else all of
/// it.
pub open spec fn sealed_part(s: Seq<char>) -> Seq<char> {
    let end = last_sentence_end(s);
    if 0 < end < s.len() {
        text::trimmed(s.take(end as int))
    } else {
        text::trimmed(s)
    }
}

/// What follows the last sentence end, empty when nothing does or when there
/// is none.
pub open spec fn carry_part(s: Seq<char>) -> Seq<char> {
    let end = last_sentence_end(s);
    if 0 < end < s.len() {
        text::trim_start_of(s.skip(end as int))
    } else {
        Seq::empty()
    }
}

/// An entry that opens at `t_ms`.
pub open spec fn fresh(t_ms: u64) -> OpenModel {
    OpenModel {
        start_ms: t_ms,
        last_ms: t_ms,
        original: Seq::empty(),
        translated: Seq::empty(),
        mic_active_chunks: 0,
        speech_chunks: 0,
    }
}

pub open spec fn later(a: u64, b: u64) -> u64 {
    if a < b {
        b
    } else {
        a
    }
}

/// At least half of the chunks with speech had microphone energy.
pub open spec fn is_mic_dominated(e: OpenModel) -> bool {
    e.speech_chunks > 0 && 2 * e.mic_active_chunks >= e.speech_chunks
}

/// `carry` in front of `t`.
pub open spec fn in_front(carry: Seq<char>, t: Seq<char>) -> Seq<char> {
    if t.len() == 0 {
        carry
    } else {
        carry.push(' ') + t
    }
}

impl AssemblerModel {
    /// Nothing assembled yet.
    pub open spec fn initial() -> AssemblerModel {
        AssemblerModel { next_index: 0, closing: None, open: None }
    }

    /// While an entry is closing, the open entry has no translation yet.
    pub open spec fn wf(self) -> bool {
        self.closing is Some ==> (self.open matches Some(e) ==> e.translated.len() == 0)
    }

    /// The open entry, opened at `t_ms` when there is none.
    pub open spec fn opened(self, t_ms: u64) -> OpenModel {
        match self.open {
            Some(e) => e,
            None => fresh(t_ms),
        }
    }

    pub open spec fn with_original(self, s: Seq<char>, t_ms: u64) -> AssemblerModel {
        let e = self.opened(t_ms);
        AssemblerModel {
            open: Some(
                OpenModel { original: e.original + s, last_ms: later(e.last_ms, t_ms), ..e },
            ),
            ..self
        }
    }

    pub open spec fn with_translated(self, s: Seq<char>, t_ms: u64) -> AssemblerModel {
        match self.closing {
            Some(c) => AssemblerModel {
                closing: Some(OpenModel { translated: c.translated + s, ..c }),
                ..self
            },
            None => {
                let e = self.opened(t_ms);
                AssemblerModel {
                    open: Some(
                        OpenModel {
                            translated: e.translated + s,
                            last_ms: later(e.last_ms, t_ms),
                            ..e
                        },
                    ),
                    ..self
                }
            },
        }
    }

    /// Overshoot of a sealed translation goes in front of the translation that
    /// receives fragments now.
    pub open spec fn with_carry(self, carry: Seq<char>, t_ms: u64) -> AssemblerModel {
        if carry.len() == 0 {
            self
        } else {
            match self.closing {
                Some(c) => AssemblerModel {
                    closing: Some(OpenModel { translated: in_front(carry, c.translated), ..c }),
                    ..self
                },
                None => {
                    let e = self.opened(t_ms);
                    AssemblerModel {
                        open: Some(OpenModel { translated: in_front(carry, e.translated), ..e }),
                        ..self
                    }
                },
            }
        }
    }

    pub open spec fn with_activity(self, mic: bool, system: bool) -> AssemblerModel {
        match self.open {
            Some(e) => AssemblerModel {
                open: Some(
                    OpenModel {
                        speech_chunks: if mic || system {
                            (e.speech_chunks + 1) as u32
                        } else {
                            e.speech_chunks
                        },
                        mic_active_chunks: if mic {
                            (e.mic_active_chunks + 1) as u32
                        } else {
                            e.mic_active_chunks
                        },
                        ..e
                    },
                ),
                ..self
            },
            None => self,
        }
    }

    /// The timeline entry of `e`, if it holds any text.
    pub open spec fn entry_of(self, e: OpenModel) -> Option<EntryModel> {
        if text::is_blank(e.original) && text::is_blank(e.translated) {
            None
        } else {
            Some(
                EntryModel {
                    index: self.next_index,
                    kind: EntryKind::Speech,
                    start_ms: e.start_ms,
                    end_ms: e.last_ms,
                    speaker: if is_mic_dominated(e) {
                        "You"@
                    } else {
                        "Meeting"@
                    },
                    original: text::trimmed(e.original),
                    translated: text::trimmed(e.translated),
                },
            )
        }
    }

    /// One index is used up when an entry comes out.
    pub open spec fn counted(self, r: Option<EntryModel>) -> AssemblerModel {
        AssemblerModel {
            next_index: if r is Some {
                (self.next_index + 1) as u64
            } else {
                self.next_index
            },
            ..self
        }
    }

    /// Seals `e`, which is no longer in the assembler: its translation is cut
    /// after its last sentence end, and the rest is carried on.
    pub open spec fn sealing(self, e: OpenModel) -> (AssemblerModel, Option<EntryModel>) {
        let m = self.with_carry(carry_part(e.translated), e.last_ms);
        let r = m.entry_of(OpenModel { translated: sealed_part(e.translated), ..e });
        (m.counted(r), r)
    }

    /// The open entry becomes the closing one; the entry that was closing is
    /// sealed.
    pub open spec fn rotated(self) -> (AssemblerModel, Option<EntryModel>) {
        let m = AssemblerModel { closing: self.open, open: None, ..self };
        match self.closing {
            None => (m, None),
            Some(c) => m.sealing(c),
        }
    }

    /// An entry has been closing for `grace_ms` at `now_ms`.
    pub open spec fn is_stale(self, now_ms: u64, grace_ms: u64) -> bool {
        self.closing matches Some(c) && (if now_ms >= c.last_ms { now_ms - c.last_ms } else { 0 })
            >= grace_ms
    }

    /// A stale closing entry is sealed; the open entry stays open.
    pub open spec fn drained(self, now_ms: u64, grace_ms: u64) -> (
        AssemblerModel,
        Option<EntryModel>,
    ) {
        if self.is_stale(now_ms, grace_ms) {
            AssemblerModel { closing: None, ..self }.sealing(self.closing->0)
        } else {
            (self, None)
        }
    }

    /// Everything is sealed, the closing entry first.
    pub open spec fn finalized(self) -> (AssemblerModel, Seq<EntryModel>) {
        let (m, a) = match self.closing {
            None => (self, None),
            Some(c) => AssemblerModel { closing: None, ..self }.sealing(c),
        };
        let (n, b) = match m.open {
            None => (m, None),
            Some(e) => {
                let o = AssemblerModel { open: None, ..m };
                (o.counted(o.entry_of(e)), o.entry_of(e))
            },
        };
        (n, listed(a) + listed(b))
    }

    pub open spec fn with_gap(self, start_ms: u64, end_ms: u64) -> (AssemblerModel, EntryModel) {
        let r = EntryModel {
            index: self.next_index,
            kind: EntryKind::Gap,
            start_ms,
            end_ms,
            speaker: Seq::empty(),
            original: Seq::empty(),
            translated: Seq::empty(),
        };
        (self.counted(Some(r)), r)
    }

    /// Everything not yet sealed, as one passage.
    pub open spec fn live(self) -> Option<PartialModel> {
        match (self.closing, self.open) {
            (None, None) => None,
            (Some(c), None) => Some(
                PartialModel {
                    start_ms: c.start_ms,
                    speaker: Seq::empty(),
                    original: c.original,
                    translated: c.translated,
                },
            ),
            (None, Some(o)) => Some(
                PartialModel {
                    start_ms: o.start_ms,
                    speaker: Seq::empty(),
                    original: o.original,
                    translated: o.translated,
                },
            ),
            (Some(c), Some(o)) => Some(
                PartialModel {
                    start_ms: c.start_ms,
                    speaker: Seq::empty(),
                    original: if c.original.len() > 0 && o.original.len() > 0 {
                        c.original.push(' ') + o.original
                    } else {
                        c.original + o.original
                    },
                    translated: if c.translated.len() > 0 {
                        c.translated
                    } else {
                        o.translated
                    },
                },
            ),
        }
    }

    /// The original text of the open entry.
    pub open spec fn open_original(self) -> Seq<char> {
        match self.open {
            Some(e) => e.original,
            None => Seq::empty(),
        }
    }

    /// The open entry's original text ends at a sentence end.
    pub open spec fn at_sentence_end(self) -> bool {
        let t = text::trim_end_of(self.open_original());
        t.len() > 0 && is_sentence_end(t.last())
    }

    /// The open entry belongs to the microphone so far.
    pub open spec fn mic_dominated(self) -> bool {
        self.open matches Some(e) && is_mic_dominated(e)
    }
}

/// The entry, if there is one, as a list.
pub open spec fn listed(r: Option<EntryModel>) -> Seq<EntryModel> {
    match r {
        Some(e) => seq![e],
        None => Seq::empty(),
    }
}

/// The entry, if there is one, by its characters.
pub open spec fn entry_model(r: Option<TimelineEntry>) -> Option<EntryModel> {
    match r {
        Some(e) => Some(e@),
        None => None,
    }
}

// ---------------------------------------------------------------------------
// Assembler
// ---------------------------------------------------------------------------

/// Whether `c` ends a sentence.
pub fn ends_sentence(c: char) -> (r: bool)
    ensures
        r == is_sentence_end(c),
{
    c == '.' || c == '!' || c == '?' || c == '。' || c == '！' || c == '？' || c == '…' || c == '．'
}

/// Splits translated text at its own last sentence-ending punctuation into the
/// part to seal and the part to carry into the next entry. Translation lags
/// the original, so a rotation timed off the original's sentence boundary
/// lands at an arbitrary point of the translated stream. Without a terminator
/// nothing is carried.
pub fn split_translated_carry(t: &str) -> (r: (String, String))
    ensures
        r.0@ == sealed_part(t@),
        r.1@ == carry_part(t@),
{
    let cs = to_chars(t);
    let mut end: usize = cs.len();
    assert(cs@.take(end as int) =~= cs@);
    while end > 0 && !ends_sentence(cs[end - 1])
        invariant
            end <= cs.len(),
            last_sentence_end(cs@) == last_sentence_end(cs@.take(end as int)),
        decreases end,
    {
        assert(cs@.take(end as int).drop_last() =~= cs@.take(end - 1));
        end -= 1;
    }
    if end > 0 && end < cs.len() {
        let head = text::from_chars(&cs, 0, end);
        let tail = text::from_chars(&cs, end, cs.len());
        assert(head@ =~= cs@.take(end as int));
        assert(tail@ =~= cs@.skip(end as int));
        (trim(&head), text::trim_start(&tail))
    } else {
        (trim(t), String::new())
    }
}

impl Assembler {
    pub fn new() -> (a: Self)
        ensures
            a@ == AssemblerModel::initial(),
    {
        Assembler { next_index: 0, closing: None, open: None }
    }

    fn open_entry(&mut self, t_ms: u64)
        ensures
            final(self)@ == (AssemblerModel { open: Some(old(self)@.opened(t_ms)), ..old(self)@ }),
    {
        if self.open.is_none() {
            self.open = Some(
                OpenEntry {
                    start_ms: t_ms,
                    last_ms: t_ms,
                    original: String::new(),
                    translated: String::new(),
                    mic_active_chunks: 0,
                    speech_chunks: 0,
                },
            );
        }
    }

    pub fn push_original(&mut self, s: &str, t_ms: u64)
        ensures
            final(self)@ == old(self)@.with_original(s@, t_ms),
    {
        self.open_entry(t_ms);
        if let Some(e) = &mut self.open {
            e.original.push_str(s);
            if e.last_ms < t_ms {
                e.last_ms = t_ms;
            }
        }
    }

    /// Translation fragments belong to the oldest unfinished entry: the model
    /// translates a passage seconds after transcribing it.
    pub fn push_translated(&mut self, s: &str, t_ms: u64)
        ensures
            final(self)@ == old(self)@.with_translated(s@, t_ms),
    {
        if let Some(e) = &mut self.closing {
            e.translated.push_str(s);
            return;
        }
        self.open_entry(t_ms);
        if let Some(e) = &mut self.open {
            e.translated.push_str(s);
            if e.last_ms < t_ms {
                e.last_ms = t_ms;
            }
        }
    }

    /// Puts overshoot of a sealed translation in front of the translation that
    /// receives fragments now, so the words are neither lost nor stuck behind
    /// the sentence they do not belong to.
    fn prepend_translated_carry(&mut self, carry: String, t_ms: u64)
        ensures
            final(self)@ == old(self)@.with_carry(carry@, t_ms),
    {
        if carry.as_str().is_empty() {
            return;
        }
        if self.closing.is_none() {
            self.open_entry(t_ms);
        }
        let mut front = carry;
        if let Some(e) = &mut self.closing {
            if !e.translated.as_str().is_empty() {
                front.push(' ');
                front.push_str(&e.translated);
            }
            e.translated = front;
        } else if let Some(e) = &mut self.open {
            if !e.translated.as_str().is_empty() {
                front.push(' ');
                front.push_str(&e.translated);
            }
            e.translated = front;
        }
    }

    /// Whether a closing entry is still pending. Rotation triggers with no
    /// guarantee that translation has caught up should defer while this is
    /// true: a second rotation seals whatever the closing entry has by then.
    pub fn has_closing(&self) -> (r: bool)
        ensures
            r == (self@.closing is Some),
    {
        self.closing.is_some()
    }

    /// Original text of the open entry alone.
    pub fn open_original_text(&self) -> (r: &str)
        ensures
            r@ == self@.open_original(),
    {
        match &self.open {
            Some(e) => e.original.as_str(),
            None => {
                proof {
                    reveal_strlit("");
                    assert(""@ =~= Seq::empty());
                }
                ""
            },
        }
    }

    /// Number of characters of original text in the open entry.
    pub fn open_original_len(&self) -> (r: usize)
        ensures
            r == self@.open_original().len(),
    {
        match &self.open {
            Some(e) => to_chars(&e.original).len(),
            None => 0,
        }
    }

    /// Translated text of the entry that receives translation fragments now.
    pub fn active_translated_text(&self) -> (r: &str)
        ensures
            r@ == match (self@.closing, self@.open) {
                (Some(c), _) => c.translated,
                (None, Some(o)) => o.translated,
                (None, None) => Seq::empty(),
            },
    {
        match &self.closing {
            Some(c) => c.translated.as_str(),
            None => match &self.open {
                Some(o) => o.translated.as_str(),
                None => {
                    proof {
                        reveal_strlit("");
                        assert(""@ =~= Seq::empty());
                    }
                    ""
                },
            },
        }
    }

    /// Start of the open entry, for splitting long uninterrupted turns.
    pub fn open_start_ms(&self) -> (r: Option<u64>)
        ensures
            r == match self@.open {
                Some(e) => Some(e.start_ms),
                None => None,
            },
    {
        match &self.open {
            Some(e) => Some(e.start_ms),
            None => None,
        }
    }

    /// Whether the open entry's original text ends at a sentence boundary.
    pub fn open_ends_sentence(&self) -> (r: bool)
        ensures
            r == self@.at_sentence_end(),
    {
        match &self.open {
            Some(e) => {
                let t = to_chars(&text::trim_end(&e.original));
                t.len() > 0 && ends_sentence(t[t.len() - 1])
            },
            None => false,
        }
    }

    /// Number of sentence-ending marks in the open entry's original text,
    /// modulo the range of `u32`.
    pub fn open_sentence_count(&self) -> (r: u32)
        ensures
            r as nat == self@.open_original().filter(|c: char| is_sentence_end(c)).len()
                % 0x1_0000_0000,
    {
        let cs = match &self.open {
            Some(e) => to_chars(&e.original),
            None => Vec::new(),
        };
        let ghost keep = |c: char| is_sentence_end(c);
        assert(cs@ == self@.open_original());
        let mut n: u64 = 0;
        let mut i: usize = 0;
        assert(cs@.take(0).filter(keep).len() == 0) by {
            reveal(Seq::filter);
        }
        while i < cs.len()
            invariant
                i <= cs.len(),
                n <= i,
                keep == (|c: char| is_sentence_end(c)),
                n == cs@.take(i as int).filter(keep).len(),
            decreases cs.len() - i,
        {
            assert(cs@.take(i + 1).drop_last() =~= cs@.take(i as int));
            assert(cs@.take(i + 1).filter(keep).len() == n + if is_sentence_end(cs[i as int]) {
                1int
            } else {
                0
            }) by {
                reveal(Seq::filter);
            }
            if ends_sentence(cs[i]) {
                n += 1;
            }
            i += 1;
        }
        assert(cs@.take(i as int) =~= cs@);
        let r = #[verifier::truncate] (n as u32);
        assert(r as u64 == n % 0x1_0000_0000) by (bit_vector)
            requires
                r == n as u32,
        ;
        r
    }

    /// Whether the open entry is attributed to the microphone so far.
    pub fn open_mic_dominated(&self) -> (r: bool)
        ensures
            r == self@.mic_dominated(),
    {
        match &self.open {
            Some(e) => e.speech_chunks > 0 && 2 * (e.mic_active_chunks as u64)
                >= e.speech_chunks as u64,
            None => false,
        }
    }

    /// Whether `entries` more entries and `chunks` more chunks of activity can
    /// be counted.
    pub fn has_room(&self, entries: u64, chunks: usize) -> (r: bool)
        ensures
            r == {
                &&& self@.next_index <= u64::MAX - entries
                &&& self@.open matches Some(e) ==> e.speech_chunks + chunks <= u32::MAX
                    && e.mic_active_chunks + chunks <= u32::MAX
            },
    {
        self.next_index <= u64::MAX - entries && match &self.open {
            Some(e) => e.speech_chunks as u128 + chunks as u128 <= u32::MAX as u128
                && e.mic_active_chunks as u128 + chunks as u128 <= u32::MAX as u128,
            None => true,
        }
    }

    /// Freezes the open entry's original and lets its translation finish
    /// streaming. An entry that was closing before is sealed and returned.
    pub fn rotate_turn(&mut self) -> (r: Option<TimelineEntry>)
        requires
            old(self)@.next_index < u64::MAX,
        ensures
            (final(self)@, entry_model(r)) == old(self)@.rotated(),
    {
        let old_closing = self.closing.take();
        self.closing = self.open.take();
        match old_closing {
            Some(e) => self.seal_closing(e),
            None => None,
        }
    }

    /// Seals the closing entry on its own once `grace_ms` have passed since it
    /// became closing. The deadline is fixed: translation that keeps trickling
    /// in does not push it back.
    pub fn drain_stale_closing(&mut self, now_ms: u64, grace_ms: u64) -> (r: Option<TimelineEntry>)
        requires
            old(self)@.next_index < u64::MAX,
        ensures
            (final(self)@, entry_model(r)) == old(self)@.drained(now_ms, grace_ms),
    {
        let stale = match &self.closing {
            Some(e) => now_ms.saturating_sub(e.last_ms) >= grace_ms,
            None => false,
        };
        if !stale {
            return None;
        }
        match self.closing.take() {
            Some(e) => self.seal_closing(e),
            None => None,
        }
    }

    /// Speech activity, once per mixed chunk. Only chunks where someone speaks
    /// count toward attribution.
    pub fn push_activity(&mut self, mic_active: bool, system_active: bool, t_ms: u64)
        requires
            old(self)@.open matches Some(e) ==> e.speech_chunks < u32::MAX && e.mic_active_chunks
                < u32::MAX,
        ensures
            final(self)@ == old(self)@.with_activity(mic_active, system_active),
    {
        if let Some(e) = &mut self.open {
            if mic_active || system_active {
                e.speech_chunks = e.speech_chunks + 1;
            }
            if mic_active {
                e.mic_active_chunks = e.mic_active_chunks + 1;
            }
        }
    }

    /// Live view of everything not yet sealed. The closing entry's frozen
    /// original stays visible until its sealed entry arrives.
    pub fn partial(&self) -> (r: Option<PartialEntry>)
        ensures
            partial_model(r) == self@.live(),
    {
        match (&self.closing, &self.open) {
            (None, None) => None,
            (Some(e), None) | (None, Some(e)) => Some(
                PartialEntry {
                    start_ms: e.start_ms,
                    speaker: String::new(),
                    original: e.original.clone(),
                    translated: e.translated.clone(),
                },
            ),
            (Some(c), Some(o)) => {
                let mut original = c.original.clone();
                if !c.original.as_str().is_empty() && !o.original.as_str().is_empty() {
                    original.push(' ');
                }
                original.push_str(&o.original);
                Some(
                    PartialEntry {
                        start_ms: c.start_ms,
                        speaker: String::new(),
                        original,
                        translated: if !c.translated.as_str().is_empty() {
                            c.translated.clone()
                        } else {
                            o.translated.clone()
                        },
                    },
                )
            },
        }
    }

    fn seal_closing(&mut self, e: OpenEntry) -> (r: Option<TimelineEntry>)
        requires
            old(self)@.next_index < u64::MAX,
        ensures
            (final(self)@, entry_model(r)) == old(self)@.sealing(e@),
    {
        let (sealed, carry) = split_translated_carry(&e.translated);
        self.prepend_translated_carry(carry, e.last_ms);
        self.seal_entry(
            OpenEntry {
                start_ms: e.start_ms,
                last_ms: e.last_ms,
                original: e.original,
                translated: sealed,
                mic_active_chunks: e.mic_active_chunks,
                speech_chunks: e.speech_chunks,
            },
        )
    }

    fn seal_entry(&mut self, e: OpenEntry) -> (r: Option<TimelineEntry>)
        requires
            old(self)@.next_index < u64::MAX,
        ensures
            entry_model(r) == old(self)@.entry_of(e@),
            final(self)@ == old(self)@.counted(entry_model(r)),
    {
        if blank(&e.original) && blank(&e.translated) {
            return None;
        }
        let mic = e.speech_chunks > 0 && 2 * (e.mic_active_chunks as u64) >= e.speech_chunks as u64;
        let entry = TimelineEntry {
            index: self.next_index,
            kind: EntryKind::Speech,
            start_ms: e.start_ms,
            end_ms: e.last_ms,
            speaker: text::owned(if mic { "You" } else { "Meeting" }),
            original: trim(&e.original),
            translated: trim(&e.translated),
        };
        self.next_index = self.next_index + 1;
        Some(entry)
    }

    /// Finalizes everything (turn complete, forced flush, or meeting end): the
    /// closing entry first, then the open one, in timeline order.
    pub fn finalize_turn(&mut self) -> (r: Vec<TimelineEntry>)
        requires
            old(self)@.next_index < u64::MAX - 1,
        ensures
            (final(self)@, entries(r@)) == old(self)@.finalized(),
    {
        let mut out: Vec<TimelineEntry> = Vec::new();
        if let Some(e) = self.closing.take() {
            if let Some(entry) = self.seal_closing(e) {
                out.push(entry);
            }
        }
        if let Some(e) = self.open.take() {
            if let Some(entry) = self.seal_entry(e) {
                out.push(entry);
            }
        }
        assert(entries(out@) =~= old(self)@.finalized().1);
        out
    }

    /// Explicit marker for an unrecoverable transcription interval.
    pub fn gap(&mut self, start_ms: u64, end_ms: u64) -> (r: TimelineEntry)
        requires
            old(self)@.next_index < u64::MAX,
        ensures
            (final(self)@, r@) == old(self)@.with_gap(start_ms, end_ms),
    {
        let entry = TimelineEntry {
            index: self.next_index,
            kind: EntryKind::Gap,
            start_ms,
            end_ms,
            speaker: String::new(),
            original: String::new(),
            translated: String::new(),
        };
        self.next_index = self.next_index + 1;
        entry
    }
}

impl Default for Assembler {
    fn default() -> (a: Self)
        ensures
            a@ == AssemblerModel::initial(),
    {
        Assembler::new()
    }
}

// ---------------------------------------------------------------------------
// Timestamps
// ---------------------------------------------------------------------------

/// `[mm:ss]` under an hour, `[h:mm:ss]` beyond.
pub open spec fn stamp(ms: nat) -> Seq<char> {
    let s = ms / 1000;
    let minutes = text::two_digits((s % 3600) / 60);
    let seconds = text::two_digits(s % 60);
    if s / 3600 > 0 {
        seq!['['] + text::decimal(s / 3600) + seq![':'] + minutes + seq![':'] + seconds + seq![']']
    } else {
        seq!['['] + minutes + seq![':'] + seconds + seq![']']
    }
}

/// `[mm:ss]` under an hour, `[h:mm:ss]` beyond.
pub fn format_timestamp(ms: u64) -> (r: String)
    ensures
        r@ == stamp(ms as nat),
{
    let total: u64 = ms / 1000;
    let h: u64 = total / 3600;
    let m: u64 = (total % 3600) / 60;
    let s: u64 = total % 60;
    let mut out = String::new();
    out.push('[');
    if h > 0 {
        push_decimal(&mut out, h);
        out.push(':');
    }
    push_two_digits(&mut out, m);
    out.push(':');
    push_two_digits(&mut out, s);
    out.push(']');
    assert(out@ =~= stamp(ms as nat));
    out
}

} // verus!
