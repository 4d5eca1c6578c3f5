//! What holds of every run of the timeline assembler.
use vstd::prelude::*;
use crate::text;
use crate::text_laws;
use crate::timeline;
use crate::timeline::{AssemblerModel, EntryModel, OpenModel};

verus! {

/// One call of the assembler.
pub enum Op {
    Original(Seq<char>, u64),
    Translated(Seq<char>, u64),
    Activity(bool, bool),
    Rotate,
    Drain(u64, u64),
    Finalize,
    Gap(u64, u64),
}

/// The assembler after one call, and the entries that the call returns.
pub open spec fn stepped(m: AssemblerModel, op: Op) -> (AssemblerModel, Seq<EntryModel>) {
    match op {
        Op::Original(s, t) => (m.with_original(s, t), Seq::empty()),
        Op::Translated(s, t) => (m.with_translated(s, t), Seq::empty()),
        Op::Activity(mic, system) => (m.with_activity(mic, system), Seq::empty()),
        Op::Rotate => (m.rotated().0, timeline::listed(m.rotated().1)),
        Op::Drain(now, grace) => (m.drained(now, grace).0, timeline::listed(m.drained(now, grace).1)),
        Op::Finalize => m.finalized(),
        Op::Gap(a, b) => (m.with_gap(a, b).0, seq![m.with_gap(a, b).1]),
    }
}

/// The assembler after a series of calls, and all entries they return.
pub open spec fn ran(m: AssemblerModel, ops: Seq<Op>) -> (AssemblerModel, Seq<EntryModel>)
    decreases ops.len(),
{
    if ops.len() == 0 {
        (m, Seq::empty())
    } else {
        let (n, out) = ran(m, ops.drop_last());
        let (k, more) = stepped(n, ops.last());
        (k, out + more)
    }
}

/// Visible original text that a call brings in.
pub open spec fn heard(op: Op) -> Seq<char> {
    match op {
        Op::Original(s, _) => text::ink(s),
        _ => Seq::empty(),
    }
}

/// Visible translated text that a call brings in.
pub open spec fn read(op: Op) -> Seq<char> {
    match op {
        Op::Translated(s, _) => text::ink(s),
        _ => Seq::empty(),
    }
}

pub open spec fn all_heard(ops: Seq<Op>) -> Seq<char>
    decreases ops.len(),
{
    if ops.len() == 0 {
        Seq::empty()
    } else {
        all_heard(ops.drop_last()) + heard(ops.last())
    }
}

pub open spec fn all_read(ops: Seq<Op>) -> Seq<char>
    decreases ops.len(),
{
    if ops.len() == 0 {
        Seq::empty()
    } else {
        all_read(ops.drop_last()) + read(ops.last())
    }
}

/// Visible text of an entry as its block shows it: speech is shown, a gap has
/// none.
pub open spec fn shown(e: EntryModel, t: Seq<char>) -> Seq<char> {
    match e.kind {
        timeline::EntryKind::Speech => text::ink(t),
        timeline::EntryKind::Gap => Seq::empty(),
    }
}

/// Visible original text of the speech in a list of entries.
pub open spec fn originals(es: Seq<EntryModel>) -> Seq<char>
    decreases es.len(),
{
    if es.len() == 0 {
        Seq::empty()
    } else {
        originals(es.drop_last()) + shown(es.last(), es.last().original)
    }
}

/// Visible translated text of the speech in a list of entries.
pub open spec fn translations(es: Seq<EntryModel>) -> Seq<char>
    decreases es.len(),
{
    if es.len() == 0 {
        Seq::empty()
    } else {
        translations(es.drop_last()) + shown(es.last(), es.last().translated)
    }
}

pub open spec fn original_of(e: Option<OpenModel>) -> Seq<char> {
    match e {
        Some(e) => text::ink(e.original),
        None => Seq::empty(),
    }
}

pub open spec fn translation_of(e: Option<OpenModel>) -> Seq<char> {
    match e {
        Some(e) => text::ink(e.translated),
        None => Seq::empty(),
    }
}

/// Visible original text not yet sealed, in timeline order.
pub open spec fn pending_original(m: AssemblerModel) -> Seq<char> {
    original_of(m.closing) + original_of(m.open)
}

/// Visible translated text not yet sealed, in timeline order.
pub open spec fn pending_translation(m: AssemblerModel) -> Seq<char> {
    translation_of(m.closing) + translation_of(m.open)
}

// ---------------------------------------------------------------------------
// Steps
// ---------------------------------------------------------------------------

proof fn last_sentence_end_bound(s: Seq<char>)
    ensures
        timeline::last_sentence_end(s) <= s.len(),
    decreases s.len(),
{
    if s.len() > 0 && !timeline::is_sentence_end(s.last()) {
        last_sentence_end_bound(s.drop_last());
    }
}

/// Cutting a translation after its last sentence end loses no visible
/// character: what is not sealed is carried.
pub proof fn carry_keeps_ink(s: Seq<char>)
    ensures
        text::ink(timeline::sealed_part(s)) + text::ink(timeline::carry_part(s)) == text::ink(s),
{
    let end = timeline::last_sentence_end(s) as int;
    last_sentence_end_bound(s);
    if 0 < end < s.len() {
        text_laws::trim_keeps_ink(s.take(end));
        text_laws::trim_start_keeps_ink(s.skip(end));
        assert(s.take(end) + s.skip(end) =~= s);
        text_laws::ink_of_join(s.take(end), s.skip(end));
    } else {
        text_laws::trim_keeps_ink(s);
        text_laws::ink_of_blank(Seq::empty());
        assert(text::ink(s) + text::ink(Seq::empty()) =~= text::ink(s));
    }
}

proof fn in_front_ink(c: Seq<char>, t: Seq<char>)
    ensures
        text::ink(timeline::in_front(c, t)) == text::ink(c) + text::ink(t),
{
    if t.len() == 0 {
        text_laws::ink_of_blank(t);
        assert(text::ink(c) + text::ink(t) =~= text::ink(c));
    } else {
        text_laws::ink_of_join(c.push(' '), t);
        text_laws::ink_of_push(c, ' ');
    }
}

proof fn with_carry_ink(m: AssemblerModel, carry: Seq<char>, t_ms: u64)
    ensures
        pending_original(m.with_carry(carry, t_ms)) == pending_original(m),
        pending_translation(m.with_carry(carry, t_ms)) == text::ink(carry) + pending_translation(m),
        m.with_carry(carry, t_ms).next_index == m.next_index,
{
    text_laws::ink_of_blank(Seq::empty());
    assert(text::ink(Seq::empty()) =~= Seq::empty());
    let n = m.with_carry(carry, t_ms);
    if carry.len() == 0 {
        text_laws::ink_of_blank(carry);
        assert(text::ink(carry) + pending_translation(m) =~= pending_translation(m));
    } else {
        match m.closing {
            Some(c) => {
                in_front_ink(carry, c.translated);
                assert(pending_translation(n) =~= text::ink(carry) + pending_translation(m));
            },
            None => {
                let e = m.opened(t_ms);
                in_front_ink(carry, e.translated);
                assert(pending_translation(n) =~= text::ink(carry) + pending_translation(m));
                assert(pending_original(n) =~= pending_original(m));
            },
        }
    }
}

proof fn one_entry(e: EntryModel)
    ensures
        originals(seq![e]) == shown(e, e.original),
        translations(seq![e]) == shown(e, e.translated),
{
    let none = Seq::<EntryModel>::empty();
    assert(seq![e].drop_last() =~= none);
    assert(originals(none) =~= Seq::empty());
    assert(translations(none) =~= Seq::empty());
    assert(originals(seq![e]) =~= shown(e, e.original));
    assert(translations(seq![e]) =~= shown(e, e.translated));
}

proof fn entry_ink(m: AssemblerModel, e: OpenModel)
    ensures
        originals(timeline::listed(m.entry_of(e))) == text::ink(e.original),
        translations(timeline::listed(m.entry_of(e))) == text::ink(e.translated),
{
    text_laws::ink_of_blank(e.original);
    text_laws::ink_of_blank(e.translated);
    text_laws::trim_keeps_ink(e.original);
    text_laws::trim_keeps_ink(e.translated);
    let out = timeline::listed(m.entry_of(e));
    if m.entry_of(e) is Some {
        one_entry(m.entry_of(e)->0);
        assert(originals(out) =~= text::ink(e.original));
        assert(translations(out) =~= text::ink(e.translated));
    } else {
        assert(originals(out) =~= text::ink(e.original));
        assert(translations(out) =~= text::ink(e.translated));
    }
}

proof fn sealing_ink(m: AssemblerModel, e: OpenModel)
    ensures
        originals(timeline::listed(m.sealing(e).1)) + pending_original(m.sealing(e).0)
            == text::ink(e.original) + pending_original(m),
        translations(timeline::listed(m.sealing(e).1)) + pending_translation(m.sealing(e).0)
            == text::ink(e.translated) + pending_translation(m),
{
    let carry = timeline::carry_part(e.translated);
    let n = m.with_carry(carry, e.last_ms);
    let cut = OpenModel { translated: timeline::sealed_part(e.translated), ..e };
    with_carry_ink(m, carry, e.last_ms);
    carry_keeps_ink(e.translated);
    entry_ink(n, cut);
    assert(text::ink(cut.translated) + (text::ink(carry) + pending_translation(m)) =~= (text::ink(
        cut.translated,
    ) + text::ink(carry)) + pending_translation(m));
}

/// The text of two lists is the text of one and then of the other.
pub proof fn joined_lists(a: Seq<EntryModel>, b: Seq<EntryModel>)
    ensures
        originals(a + b) == originals(a) + originals(b),
        translations(a + b) == translations(a) + translations(b),
    decreases b.len(),
{
    if b.len() == 0 {
        assert(a + b =~= a);
        assert(originals(a) + originals(b) =~= originals(a));
        assert(translations(a) + translations(b) =~= translations(a));
    } else {
        joined_lists(a, b.drop_last());
        assert((a + b).drop_last() =~= a + b.drop_last());
        assert(originals(a + b) =~= originals(a) + originals(b));
        assert(translations(a + b) =~= translations(a) + translations(b));
    }
}

/// A call neither loses nor makes up nor reorders visible text.
pub proof fn step_keeps_text(m: AssemblerModel, op: Op)
    requires
        m.wf(),
    ensures
        stepped(m, op).0.wf(),
        originals(stepped(m, op).1) + pending_original(stepped(m, op).0) == pending_original(m)
            + heard(op),
        translations(stepped(m, op).1) + pending_translation(stepped(m, op).0)
            == pending_translation(m) + read(op),
{
    let (n, out) = stepped(m, op);
    let none = Seq::<char>::empty();
    text_laws::ink_of_blank(none);
    assert(text::ink(none) =~= none);
    match op {
        Op::Original(s, t) => {
            let e = m.opened(t);
            text_laws::ink_of_join(e.original, s);
            assert(originals(out) + pending_original(n) =~= pending_original(m) + heard(op));
            assert(translations(out) + pending_translation(n) =~= pending_translation(m) + read(
                op,
            ));
        },
        Op::Translated(s, t) => {
            match m.closing {
                Some(c) => {
                    text_laws::ink_of_join(c.translated, s);
                    if m.open is Some {
                        text_laws::ink_of_blank(m.open->0.translated);
                    }
                },
                None => {
                    let e = m.opened(t);
                    text_laws::ink_of_join(e.translated, s);
                },
            }
            assert(originals(out) + pending_original(n) =~= pending_original(m) + heard(op));
            assert(translations(out) + pending_translation(n) =~= pending_translation(m) + read(
                op,
            ));
        },
        Op::Activity(mic, system) => {
            assert(originals(out) + pending_original(n) =~= pending_original(m) + heard(op));
            assert(translations(out) + pending_translation(n) =~= pending_translation(m) + read(
                op,
            ));
        },
        Op::Rotate => {
            let k = AssemblerModel { closing: m.open, open: None, ..m };
            if m.closing is Some {
                sealing_ink(k, m.closing->0);
            }
            assert(originals(out) + pending_original(n) =~= pending_original(m) + heard(op));
            assert(translations(out) + pending_translation(n) =~= pending_translation(m) + read(
                op,
            ));
        },
        Op::Drain(now, grace) => {
            if m.is_stale(now, grace) {
                sealing_ink(AssemblerModel { closing: None, ..m }, m.closing->0);
            }
            assert(originals(out) + pending_original(n) =~= pending_original(m) + heard(op));
            assert(translations(out) + pending_translation(n) =~= pending_translation(m) + read(
                op,
            ));
        },
        Op::Finalize => {
            let k = AssemblerModel { closing: None, ..m };
            let (a, ra) = if m.closing is Some {
                k.sealing(m.closing->0)
            } else {
                (m, None)
            };
            if m.closing is Some {
                sealing_ink(k, m.closing->0);
            }
            let rb = if a.open is Some {
                AssemblerModel { open: None, ..a }.entry_of(a.open->0)
            } else {
                None
            };
            if a.open is Some {
                entry_ink(AssemblerModel { open: None, ..a }, a.open->0);
            }
            joined_lists(timeline::listed(ra), timeline::listed(rb));
            assert(pending_original(n) =~= none);
            assert(pending_translation(n) =~= none);
            assert(originals(out) + pending_original(n) =~= pending_original(m) + heard(op));
            assert(translations(out) + pending_translation(n) =~= pending_translation(m) + read(
                op,
            ));
        },
        Op::Gap(x, y) => {
            one_entry(out[0]);
            assert(out =~= seq![out[0]]);
            assert(originals(out) + pending_original(n) =~= pending_original(m) + heard(op));
            assert(translations(out) + pending_translation(n) =~= pending_translation(m) + read(
                op,
            ));
        },
    }
}

// ---------------------------------------------------------------------------
// Laws
// ---------------------------------------------------------------------------

/// No text is lost: after any series of calls, the visible original text of
/// the entries that came out, followed by what is still pending, is the
/// visible original text that went in, in order. The same holds of the
/// translated text.
pub proof fn no_text_is_lost(ops: Seq<Op>)
    ensures
        ({
            let (m, out) = ran(AssemblerModel::initial(), ops);
            &&& m.wf()
            &&& originals(out) + pending_original(m) == all_heard(ops)
            &&& translations(out) + pending_translation(m) == all_read(ops)
        }),
    decreases ops.len(),
{
    let start = AssemblerModel::initial();
    if ops.len() == 0 {
        let (m, out) = ran(start, ops);
        assert(originals(out) + pending_original(m) =~= all_heard(ops));
        assert(translations(out) + pending_translation(m) =~= all_read(ops));
    } else {
        no_text_is_lost(ops.drop_last());
        let (m, out) = ran(start, ops.drop_last());
        let op = ops.last();
        let (n, more) = stepped(m, op);
        step_keeps_text(m, op);
        joined_lists(out, more);
        assert(originals(out + more) + pending_original(n) =~= originals(out) + (originals(more)
            + pending_original(n)));
        assert(originals(out) + (pending_original(m) + heard(op)) =~= (originals(out)
            + pending_original(m)) + heard(op));
        assert(translations(out + more) + pending_translation(n) =~= translations(out) + (
        translations(more) + pending_translation(n)));
        assert(translations(out) + (pending_translation(m) + read(op)) =~= (translations(out)
            + pending_translation(m)) + read(op));
    }
}

/// Finalizing leaves nothing pending, so after it every visible character that
/// went in stands in an entry that came out.
pub proof fn finalizing_empties(m: AssemblerModel)
    ensures
        m.finalized().0.closing is None,
        m.finalized().0.open is None,
{
}

/// Entries are numbered from 0 without gaps, in the order in which they come
/// out.
pub proof fn indices_are_consecutive(ops: Seq<Op>)
    requires
        ran(AssemblerModel::initial(), ops).1.len() <= u64::MAX,
    ensures
        ({
            let (m, out) = ran(AssemblerModel::initial(), ops);
            &&& m.next_index == out.len()
            &&& forall|i: int| 0 <= i < out.len() ==> (#[trigger] out[i]).index == i
        }),
    decreases ops.len(),
{
    if ops.len() > 0 {
        let (m, out) = ran(AssemblerModel::initial(), ops.drop_last());
        indices_are_consecutive(ops.drop_last());
    }
}

/// Once the grace window of a closing entry has passed it is drained, no
/// matter how much translation came in since it became closing: translation
/// does not move the window.
pub proof fn stale_closing_always_drains(
    m: AssemblerModel,
    s: Seq<char>,
    t_ms: u64,
    now_ms: u64,
    grace_ms: u64,
)
    requires
        m.closing is Some,
    ensures
        m.with_translated(s, t_ms).is_stale(now_ms, grace_ms) == m.is_stale(now_ms, grace_ms),
        m.is_stale(now_ms, grace_ms) ==> m.drained(now_ms, grace_ms).0.closing is None,
        m.is_stale(now_ms, grace_ms) ==> m.drained(now_ms, grace_ms).0.open_original()
            == m.open_original(),
{
}

/// Silence does not change who a turn is attributed to.
pub proof fn silence_does_not_dilute(m: AssemblerModel)
    ensures
        m.with_activity(false, false) == m,
{
}

/// Two timestamps are the same text exactly when they name the same second.
pub proof fn timestamps_name_seconds(a: nat, b: nat)
    ensures
        timeline::stamp(a) == timeline::stamp(b) <==> a / 1000 == b / 1000,
{
    let sa = a / 1000;
    let sb = b / 1000;
    let x = timeline::stamp(a);
    let y = timeline::stamp(b);
    text_laws::two_digits_shape((sa % 3600) / 60);
    text_laws::two_digits_shape((sb % 3600) / 60);
    text_laws::two_digits_shape(sa % 60);
    text_laws::two_digits_shape(sb % 60);
    text_laws::decimal_is_digits(sa / 3600);
    text_laws::decimal_is_digits(sb / 3600);
    if x == y {
        let n = x.len() as int;
        assert(x[n - 2] == text::digit(((sa % 60) % 10) as int));
        assert(y[n - 2] == text::digit(((sb % 60) % 10) as int));
        assert(x[n - 3] == text::digit(((sa % 60) / 10) as int));
        assert(y[n - 3] == text::digit(((sb % 60) / 10) as int));
        assert(x[n - 5] == text::digit((((sa % 3600) / 60) % 10) as int));
        assert(y[n - 5] == text::digit((((sb % 3600) / 60) % 10) as int));
        assert(x[n - 6] == text::digit((((sa % 3600) / 60) / 10) as int));
        assert(y[n - 6] == text::digit((((sb % 3600) / 60) / 10) as int));
        assert(sa % 60 == sb % 60);
        assert((sa % 3600) / 60 == (sb % 3600) / 60);
        assert(sa % 3600 == sb % 3600) by {
            assert((sa % 3600) % 60 == sa % 60) by (nonlinear_arith);
            assert((sb % 3600) % 60 == sb % 60) by (nonlinear_arith);
        }
        if sa / 3600 > 0 && sb / 3600 > 0 {
            assert(x.subrange(1, n - 7) =~= text::decimal(sa / 3600));
            assert(y.subrange(1, n - 7) =~= text::decimal(sb / 3600));
            text_laws::decimal_injective(sa / 3600, sb / 3600);
        }
        assert(sa / 3600 == sb / 3600);
    }
}

// ---------------------------------------------------------------------------
// Speakers
// ---------------------------------------------------------------------------

/// Chunks in which someone spoke: `(microphone, system)` for each chunk.
pub open spec fn spoken_chunks(acts: Seq<(bool, bool)>) -> nat
    decreases acts.len(),
{
    if acts.len() == 0 {
        0
    } else {
        spoken_chunks(acts.drop_last()) + if acts.last().0 || acts.last().1 {
            1nat
        } else {
            0
        }
    }
}

/// Chunks in which the microphone was active.
pub open spec fn mic_chunks(acts: Seq<(bool, bool)>) -> nat
    decreases acts.len(),
{
    if acts.len() == 0 {
        0
    } else {
        mic_chunks(acts.drop_last()) + if acts.last().0 {
            1nat
        } else {
            0
        }
    }
}

/// The assembler after a series of activity reports.
pub open spec fn after_activity(m: AssemblerModel, acts: Seq<(bool, bool)>) -> AssemblerModel
    decreases acts.len(),
{
    if acts.len() == 0 {
        m
    } else {
        after_activity(m, acts.drop_last()).with_activity(acts.last().0, acts.last().1)
    }
}

proof fn activity_is_counted(m: AssemblerModel, acts: Seq<(bool, bool)>)
    requires
        m.open matches Some(e) && e.speech_chunks == 0 && e.mic_active_chunks == 0,
        acts.len() <= u32::MAX,
    ensures
        ({
            let n = after_activity(m, acts);
            &&& mic_chunks(acts) <= spoken_chunks(acts) <= acts.len()
            &&& n.closing == m.closing
            &&& n.next_index == m.next_index
            &&& n.open == Some(
                OpenModel {
                    speech_chunks: spoken_chunks(acts) as u32,
                    mic_active_chunks: mic_chunks(acts) as u32,
                    ..m.open->0
                },
            )
        }),
    decreases acts.len(),
{
    if acts.len() > 0 {
        activity_is_counted(m, acts.drop_last());
    }
}

/// A turn belongs to the user exactly when at least half of its chunks with
/// speech had the microphone active, and to the meeting otherwise: while it is
/// open, when it is finalized, and when it is rotated out first.
pub proof fn turns_belong_to_who_spoke(m: AssemblerModel, acts: Seq<(bool, bool)>)
    requires
        m.open matches Some(e) && e.speech_chunks == 0 && e.mic_active_chunks == 0
            && !text::is_blank(e.original),
        acts.len() <= u32::MAX,
    ensures
        ({
            let n = after_activity(m, acts);
            let you = spoken_chunks(acts) > 0 && 2 * mic_chunks(acts) >= spoken_chunks(acts);
            let said = text::trimmed(m.open->0.original);
            let whole = n.finalized().1;
            let turned = n.rotated().0.finalized().1;
            &&& n.mic_dominated() == you
            &&& whole.len() > 0
            &&& whole.last().original == said
            &&& whole.last().speaker == if you {
                "You"@
            } else {
                "Meeting"@
            }
            &&& turned.len() > 0
            &&& turned[0].original == said
            &&& turned[0].speaker == whole.last().speaker
        }),
{
    activity_is_counted(m, acts);
    let n = after_activity(m, acts);
    let k = n.rotated().0;
    assert(k.closing is Some);
    assert(k.closing->0.original == m.open->0.original);
}

/// Whoever a sealed entry is, it is the user exactly when at least half of the
/// chunks with speech had the microphone.
pub proof fn sealed_speakers(m: AssemblerModel, e: OpenModel)
    ensures
        m.sealing(e).1 matches Some(r) ==> {
            &&& e.speech_chunks > 0 && 2 * e.mic_active_chunks >= e.speech_chunks ==> r.speaker
                == "You"@
            &&& e.speech_chunks == 0 || 2 * e.mic_active_chunks < e.speech_chunks ==> r.speaker
                == "Meeting"@
        },
        m.entry_of(e) matches Some(r) ==> {
            &&& e.speech_chunks > 0 && 2 * e.mic_active_chunks >= e.speech_chunks ==> r.speaker
                == "You"@
            &&& e.speech_chunks == 0 || 2 * e.mic_active_chunks < e.speech_chunks ==> r.speaker
                == "Meeting"@
        },
{
}

// ---------------------------------------------------------------------------
// Times and places of entries
// ---------------------------------------------------------------------------

/// An entry begins with its first fragment and lasts until its latest one; what
/// is said goes behind what was said, into the open entry alone.
pub proof fn fragments_extend_the_open_entry(m: AssemblerModel, s: Seq<char>, t_ms: u64)
    ensures
        ({
            let n = m.with_original(s, t_ms);
            &&& n.closing == m.closing
            &&& n.next_index == m.next_index
            &&& n.open matches Some(e)
            &&& match m.open {
                None => e.start_ms == t_ms && e.last_ms == t_ms && e.original == s
                    && e.translated.len() == 0 && e.speech_chunks == 0 && e.mic_active_chunks == 0,
                Some(o) => {
                    &&& e.start_ms == o.start_ms
                    &&& e.last_ms >= o.last_ms && e.last_ms >= t_ms
                    &&& e.last_ms == o.last_ms || e.last_ms == t_ms
                    &&& e.original == o.original + s
                    &&& e.translated == o.translated
                    &&& e.speech_chunks == o.speech_chunks
                    &&& e.mic_active_chunks == o.mic_active_chunks
                },
            }
        }),
{
    assert(Seq::<char>::empty() + s =~= s);
}

/// Translation goes to the oldest unfinished entry: to the closing one as long
/// as there is one, and the open one is not touched then.
pub proof fn translations_go_to_the_oldest_entry(m: AssemblerModel, s: Seq<char>, t_ms: u64)
    ensures
        ({
            let n = m.with_translated(s, t_ms);
            &&& n.next_index == m.next_index
            &&& m.closing matches Some(c) ==> {
                &&& n.open == m.open
                &&& n.closing matches Some(d)
                &&& d.translated == c.translated + s
                &&& d.original == c.original
                &&& d.start_ms == c.start_ms && d.last_ms == c.last_ms
            }
            &&& m.closing is None ==> {
                &&& n.closing is None
                &&& n.open matches Some(e)
                &&& e.translated == (match m.open {
                    Some(o) => o.translated,
                    None => Seq::empty(),
                }) + s
                &&& e.original == m.open_original()
            }
        }),
{
}

/// Rotating freezes the open entry as it is and leaves none open; what had been
/// closing comes out.
pub proof fn rotation_freezes_the_open_entry(m: AssemblerModel)
    requires
        m.closing is None,
    ensures
        m.rotated().0.closing == m.open,
        m.rotated().0.open is None,
        m.rotated().1 is None,
{
}

/// A closing entry waits for its translation exactly until the grace time has
/// passed since it was closed; then it comes out with the time span it had.
pub proof fn closing_entries_wait_for_their_grace(m: AssemblerModel, now_ms: u64, grace_ms: u64)
    requires
        m.closing is Some,
        grace_ms > 0,
    ensures
        now_ms < m.closing->0.last_ms + grace_ms ==> m.drained(now_ms, grace_ms) == (m, None::<EntryModel>),
        now_ms >= m.closing->0.last_ms + grace_ms ==> {
            let (n, r) = m.drained(now_ms, grace_ms);
            &&& n.closing is None
            &&& !text::is_blank(m.closing->0.original) ==> r is Some
            &&& r matches Some(e) ==> e.original == text::trimmed(m.closing->0.original)
                && e.start_ms == m.closing->0.start_ms && e.end_ms == m.closing->0.last_ms
                && e.index == m.next_index && e.kind == timeline::EntryKind::Speech
        },
{
}

/// Whatever has visible text comes out as an entry of speech with its own time
/// span; what has none comes out as nothing.
pub proof fn every_passage_comes_out(m: AssemblerModel, e: OpenModel)
    ensures
        m.entry_of(e) is None <==> text::is_blank(e.original) && text::is_blank(e.translated),
        m.entry_of(e) matches Some(r) ==> {
            &&& r.kind == timeline::EntryKind::Speech
            &&& r.start_ms == e.start_ms
            &&& r.end_ms == e.last_ms
            &&& text::ink(r.original) == text::ink(e.original)
            &&& text::ink(r.translated) == text::ink(e.translated)
        },
{
    text_laws::trim_keeps_ink(e.original);
    text_laws::trim_keeps_ink(e.translated);
}

/// A gap is marked with its own time span and holds no text.
pub proof fn gaps_have_their_span(m: AssemblerModel, start_ms: u64, end_ms: u64)
    ensures
        ({
            let (n, r) = m.with_gap(start_ms, end_ms);
            &&& r.kind == timeline::EntryKind::Gap
            &&& r.start_ms == start_ms && r.end_ms == end_ms
            &&& r.original.len() == 0 && r.translated.len() == 0
            &&& n.closing == m.closing && n.open == m.open
        }),
{
}

// ---------------------------------------------------------------------------
// Sentences
// ---------------------------------------------------------------------------

/// Everything that ends a sentence.
pub open spec fn sentence_ends() -> Seq<char> {
    seq!['.', '!', '?', '。', '！', '？', '…', '．']
}

proof fn last_end_is(a: Seq<char>, c: char, b: Seq<char>)
    requires
        sentence_ends().contains(c),
        forall|i: int| 0 <= i < b.len() ==> !sentence_ends().contains(#[trigger] b[i]),
    ensures
        timeline::last_sentence_end(a.push(c) + b) == a.len() + 1,
    decreases b.len(),
{
    ends_are_ends(c);
    if b.len() == 0 {
        assert(a.push(c) + b =~= a.push(c));
    } else {
        let s = a.push(c) + b;
        ends_are_ends(b[b.len() - 1]);
        assert(s.last() == b[b.len() - 1]);
        assert(s.drop_last() =~= a.push(c) + b.drop_last());
        assert forall|i: int| 0 <= i < b.drop_last().len() implies !sentence_ends().contains(
            #[trigger] b.drop_last()[i],
        ) by {
            assert(b.drop_last()[i] == b[i]);
        }
        last_end_is(a, c, b.drop_last());
    }
}

proof fn ends_are_ends(c: char)
    ensures
        timeline::is_sentence_end(c) == sentence_ends().contains(c),
{
    let e = sentence_ends();
    assert(e[0] == '.' && e[1] == '!' && e[2] == '?' && e[3] == '。' && e[4] == '！' && e[5] == '？'
        && e[6] == '…' && e[7] == '．');
}

/// A translation is cut behind its last sentence end, whichever it is, and the
/// unfinished sentence behind it is carried on.
pub proof fn unfinished_sentences_are_carried(a: Seq<char>, c: char, b: Seq<char>)
    requires
        sentence_ends().contains(c),
        b.len() > 0,
        forall|i: int| 0 <= i < b.len() ==> !sentence_ends().contains(#[trigger] b[i]),
    ensures
        timeline::sealed_part(a.push(c) + b) == text::trimmed(a.push(c)),
        timeline::carry_part(a.push(c) + b) == text::trim_start_of(b),
{
    last_end_is(a, c, b);
    let s = a.push(c) + b;
    assert(s.take(a.len() as int + 1) =~= a.push(c));
    assert(s.skip(a.len() as int + 1) =~= b);
}

/// A translation without a sentence end, or with one at its very end, is sealed
/// whole.
pub proof fn whole_sentences_are_sealed(a: Seq<char>, c: char, b: Seq<char>)
    requires
        sentence_ends().contains(c),
        forall|i: int| 0 <= i < b.len() ==> !sentence_ends().contains(#[trigger] b[i]),
    ensures
        timeline::sealed_part(a.push(c)) == text::trimmed(a.push(c)),
        timeline::carry_part(a.push(c)).len() == 0,
        timeline::sealed_part(b) == text::trimmed(b),
        timeline::carry_part(b).len() == 0,
{
    let none = Seq::<char>::empty();
    last_end_is(a, c, none);
    assert(a.push(c) + none =~= a.push(c));
    no_end(b);
}

proof fn no_end(b: Seq<char>)
    requires
        forall|i: int| 0 <= i < b.len() ==> !sentence_ends().contains(#[trigger] b[i]),
    ensures
        timeline::last_sentence_end(b) == 0,
    decreases b.len(),
{
    if b.len() > 0 {
        ends_are_ends(b[b.len() - 1]);
        assert forall|i: int| 0 <= i < b.drop_last().len() implies !sentence_ends().contains(
            #[trigger] b.drop_last()[i],
        ) by {
            assert(b.drop_last()[i] == b[i]);
        }
        no_end(b.drop_last());
    }
}

/// An open entry stands at a sentence end exactly when its last visible
/// character is one.
pub proof fn sentence_ends_are_seen(m: AssemblerModel)
    ensures
        m.at_sentence_end() <==> ({
            let t = text::trim_end_of(m.open_original());
            t.len() > 0 && sentence_ends().contains(t[t.len() - 1])
        }),
{
    let t = text::trim_end_of(m.open_original());
    if t.len() > 0 {
        ends_are_ends(t[t.len() - 1]);
    }
}

// ---------------------------------------------------------------------------
// Timestamps
// ---------------------------------------------------------------------------

/// The number that two digits stand for.
pub open spec fn pair_value(tens: char, ones: char) -> int {
    10 * (tens as int - '0' as int) + (ones as int - '0' as int)
}

/// The number that decimal digits stand for.
pub open spec fn digits_value(s: Seq<char>) -> int
    decreases s.len(),
{
    if s.len() == 0 {
        0
    } else {
        10 * digits_value(s.drop_last()) + (s.last() as int - '0' as int)
    }
}

/// A number is read back from its digits.
pub proof fn decimal_value(n: nat)
    ensures
        digits_value(text::decimal(n)) == n,
    decreases n,
{
    let d = text::decimal(n);
    if n >= 10 {
        decimal_value(n / 10);
        assert(d.drop_last() =~= text::decimal(n / 10));
        assert(d.last() == text::digit((n % 10) as int));
    } else {
        assert(d.drop_last() =~= Seq::empty());
        assert(digits_value(d.drop_last()) == 0);
        assert(d.last() == text::digit(n as int));
    }
    assert(d.len() > 0);
}

/// A timestamp in brackets can be read: hours, minutes and seconds, each of the
/// latter two in two digits below sixty, make up the second that it names.
pub proof fn timestamps_are_read_back(ms: nat)
    ensures
        ({
            let t = timeline::stamp(ms);
            let n = t.len() as int;
            let seconds = pair_value(t[n - 3], t[n - 2]);
            let minutes = pair_value(t[n - 6], t[n - 5]);
            &&& n >= 7
            &&& t[0] == '[' && t[n - 1] == ']' && t[n - 4] == ':'
            &&& 0 <= seconds < 60
            &&& 0 <= minutes < 60
            &&& if n == 7 {
                60 * minutes + seconds == ms / 1000
            } else {
                let hours = digits_value(t.subrange(1, n - 7));
                t[n - 7] == ':' && hours > 0 && 3600 * hours + 60 * minutes + seconds == ms / 1000
            }
        }),
{
    let s = ms / 1000;
    let t = timeline::stamp(ms);
    let n = t.len() as int;
    text_laws::two_digits_shape((s % 3600) / 60);
    text_laws::two_digits_shape(s % 60);
    text_laws::decimal_is_digits(s / 3600);
    decimal_value(s / 3600);
    assert(s == 3600 * (s / 3600) + 60 * ((s % 3600) / 60) + s % 60) by {
        assert((s % 3600) % 60 == s % 60) by (nonlinear_arith);
    }
    if s / 3600 > 0 {
        assert(t.subrange(1, n - 7) =~= text::decimal(s / 3600));
    }
}

// ---------------------------------------------------------------------------
// What is not sealed yet
// ---------------------------------------------------------------------------

/// Everything that is not sealed yet is shown as one passage: it begins where the
/// oldest text does, the originals follow each other with a space between them,
/// and the translation is the one that is growing.
pub proof fn pending_text_is_shown_as_one(m: AssemblerModel)
    ensures
        m.live() is None <==> m.closing is None && m.open is None,
        m.live() matches Some(p) ==> {
            &&& m.closing matches Some(c) ==> p.start_ms == c.start_ms
            &&& m.closing is None ==> p.start_ms == m.open->0.start_ms
            &&& m.closing is None ==> p.original == m.open->0.original && p.translated
                == m.open->0.translated
            &&& m.open is None ==> p.original == m.closing->0.original && p.translated
                == m.closing->0.translated
            &&& m.closing is Some && m.open is Some && m.closing->0.original.len() > 0
                && m.open->0.original.len() > 0 ==> p.original == m.closing->0.original + seq![' ']
                + m.open->0.original
            &&& m.closing is Some && m.closing->0.translated.len() > 0 ==> p.translated
                == m.closing->0.translated
        },
{
    if m.closing is Some && m.open is Some {
        let c = m.closing->0.original;
        let o = m.open->0.original;
        assert(c.push(' ') + o =~= c + seq![' '] + o);
    }
}

/// Text that is carried on goes in front of the translation that receives it, with
/// a space between the two.
pub proof fn carried_text_is_set_apart(m: AssemblerModel, carry: Seq<char>, t_ms: u64)
    requires
        carry.len() > 0,
        m.closing is None,
    ensures
        m.with_carry(carry, t_ms).open is Some,
        m.open is None ==> m.with_carry(carry, t_ms).open->0.translated == carry,
        m.open matches Some(e) ==> e.translated.len() > 0 ==> m.with_carry(
            carry,
            t_ms,
        ).open->0.translated == carry + seq![' '] + e.translated,
{
    if let Some(e) = m.open {
        assert(carry.push(' ') + e.translated =~= carry + seq![' '] + e.translated);
    }
}

} // verus!
