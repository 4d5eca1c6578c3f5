//! What holds of every meeting.
use vstd::prelude::*;
use crate::gemini::live::LiveModel;
use crate::lang;
use crate::session;
use crate::session::{ActionModel, ChunkInfo, Control, MeetingModel};
use crate::store;
use crate::store_laws;
use crate::text;
use crate::text_laws;
use crate::timeline;
use crate::timeline::{AssemblerModel, EntryKind, EntryModel};
use crate::timeline_laws;
use crate::timeline_laws::Op;

verus! {

/// One thing that happens to a meeting.
pub enum Event {
    Frame(Seq<ChunkInfo>),
    Live(Option<LiveModel>, u64),
    Boundary,
    Connected(u64),
    User(Control),
    StorageFailure(Seq<char>),
    End,
}

/// The meeting after an event, and what the event makes it do.
pub open spec fn stepped(m: MeetingModel, e: Event) -> (MeetingModel, Seq<ActionModel>) {
    match e {
        Event::Frame(chunks) => m.on_frame(chunks),
        Event::Live(event, now) => m.on_live(event, now),
        Event::Boundary => (m.on_boundary(), Seq::empty()),
        Event::Connected(now) => (m.on_connected(now), Seq::empty()),
        Event::User(c) => m.on_control(c),
        Event::StorageFailure(detail) => m.on_storage_failure(detail),
        Event::End => m.on_end(),
    }
}

/// The meeting after a series of events, and everything it did.
pub open spec fn ran(m: MeetingModel, es: Seq<Event>) -> (MeetingModel, Seq<ActionModel>)
    decreases es.len(),
{
    if es.len() == 0 {
        (m, Seq::empty())
    } else {
        let (n, out) = ran(m, es.drop_last());
        let (k, more) = stepped(n, es.last());
        (k, out + more)
    }
}

// ---------------------------------------------------------------------------
// What is written
// ---------------------------------------------------------------------------

/// The entries among a list of actions.
pub open spec fn entries_in(out: Seq<ActionModel>) -> Seq<EntryModel>
    decreases out.len(),
{
    if out.len() == 0 {
        Seq::empty()
    } else {
        match out.last() {
            ActionModel::Entry(e, _) => entries_in(out.drop_last()).push(e),
            _ => entries_in(out.drop_last()),
        }
    }
}

/// What a list of actions appends to the raw file.
pub open spec fn written(out: Seq<ActionModel>) -> Seq<char>
    decreases out.len(),
{
    if out.len() == 0 {
        Seq::empty()
    } else {
        match out.last() {
            ActionModel::Entry(_, block) => written(out.drop_last()) + block,
            _ => written(out.drop_last()),
        }
    }
}

/// The blocks of a list of entries, one after the other.
pub open spec fn transcript(es: Seq<EntryModel>, target_language: Seq<char>) -> Seq<char>
    decreases es.len(),
{
    if es.len() == 0 {
        Seq::empty()
    } else {
        transcript(es.drop_last(), target_language) + store::entry_text(es.last(), target_language)
    }
}

proof fn entries_of_join(a: Seq<ActionModel>, b: Seq<ActionModel>)
    ensures
        entries_in(a + b) == entries_in(a) + entries_in(b),
        written(a + b) == written(a) + written(b),
    decreases b.len(),
{
    if b.len() == 0 {
        assert(a + b =~= a);
        assert(entries_in(a) + entries_in(b) =~= entries_in(a));
        assert(written(a) + written(b) =~= written(a));
    } else {
        entries_of_join(a, b.drop_last());
        assert((a + b).drop_last() =~= a + b.drop_last());
        assert(entries_in(a + b) =~= entries_in(a) + entries_in(b));
        assert(written(a + b) =~= written(a) + written(b));
    }
}

proof fn transcript_of_join(a: Seq<EntryModel>, b: Seq<EntryModel>, l: Seq<char>)
    ensures
        transcript(a + b, l) == transcript(a, l) + transcript(b, l),
    decreases b.len(),
{
    if b.len() == 0 {
        assert(a + b =~= a);
        assert(transcript(a, l) + transcript(b, l) =~= transcript(a, l));
    } else {
        transcript_of_join(a, b.drop_last(), l);
        assert((a + b).drop_last() =~= a + b.drop_last());
        assert(transcript(a + b, l) =~= transcript(a, l) + transcript(b, l));
    }
}

/// What is done with sealed entries is to write and show each of them once.
proof fn sealed_are_written(m: MeetingModel, es: Seq<EntryModel>)
    ensures
        entries_in(m.entry_actions(es)) == es,
        written(m.entry_actions(es)) == transcript(es, m.target_language),
    decreases es.len(),
{
    if es.len() == 0 {
        assert(entries_in(m.entry_actions(es)) =~= es);
    } else {
        sealed_are_written(m, es.drop_last());
        assert(m.entry_actions(es).drop_last() =~= m.entry_actions(es.drop_last()));
        assert(entries_in(m.entry_actions(es)) =~= es);
    }
}

proof fn nothing_written(out: Seq<ActionModel>)
    requires
        forall|i: int| 0 <= i < out.len() ==> !((#[trigger] out[i]) is Entry),
    ensures
        entries_in(out) == Seq::<EntryModel>::empty(),
        written(out) == Seq::<char>::empty(),
    decreases out.len(),
{
    if out.len() > 0 {
        nothing_written(out.drop_last());
        assert(!(out[out.len() - 1] is Entry));
    }
}

/// Everything that an event seals is written, in order, and nothing else is.
pub open spec fn writes_what_it_seals(m: MeetingModel, n: MeetingModel, out: Seq<ActionModel>) -> bool {
    &&& n.target_language == m.target_language
    &&& n.sealed == m.sealed + entries_in(out)
    &&& written(out) == transcript(entries_in(out), m.target_language)
}

proof fn writes_nothing(m: MeetingModel, n: MeetingModel, out: Seq<ActionModel>)
    requires
        n.target_language == m.target_language,
        n.sealed == m.sealed,
        forall|i: int| 0 <= i < out.len() ==> !((#[trigger] out[i]) is Entry),
    ensures
        writes_what_it_seals(m, n, out),
{
    nothing_written(out);
    assert(m.sealed + Seq::<EntryModel>::empty() =~= m.sealed);
}

proof fn writes_entries(
    m: MeetingModel,
    n: MeetingModel,
    es: Seq<EntryModel>,
    rest: Seq<ActionModel>,
)
    requires
        n.target_language == m.target_language,
        n.sealed == m.sealed + es,
        forall|i: int| 0 <= i < rest.len() ==> !((#[trigger] rest[i]) is Entry),
    ensures
        writes_what_it_seals(m, n, m.entry_actions(es) + rest),
{
    let out = m.entry_actions(es);
    sealed_are_written(m, es);
    nothing_written(rest);
    entries_of_join(out, rest);
    assert(entries_in(out) + entries_in(rest) =~= es);
    assert(written(out) + written(rest) =~= written(out));
}

proof fn writes_both(
    m: MeetingModel,
    n: MeetingModel,
    k: MeetingModel,
    a: Seq<ActionModel>,
    b: Seq<ActionModel>,
)
    requires
        writes_what_it_seals(m, n, a),
        writes_what_it_seals(n, k, b),
    ensures
        writes_what_it_seals(m, k, a + b),
{
    entries_of_join(a, b);
    transcript_of_join(entries_in(a), entries_in(b), m.target_language);
    assert((m.sealed + entries_in(a)) + entries_in(b) =~= m.sealed + (entries_in(a) + entries_in(
        b,
    )));
}

proof fn rotation_writes(m: MeetingModel)
    ensures
        writes_what_it_seals(m, m.rotated().0, m.rotated().1),
{
    let es = timeline::listed(m.turns.rotated().1);
    writes_entries(m, m.rotated().0, es, Seq::empty());
    assert(m.entry_actions(es) + Seq::<ActionModel>::empty() =~= m.entry_actions(es));
}

proof fn finalizing_writes(m: MeetingModel)
    ensures
        writes_what_it_seals(m, m.finalized().0, m.finalized().1),
{
    let es = m.turns.finalized().1;
    writes_entries(m, m.finalized().0, es, Seq::empty());
    assert(m.entry_actions(es) + Seq::<ActionModel>::empty() =~= m.entry_actions(es));
}

proof fn hearing_seals_nothing(m: MeetingModel, chunks: Seq<ChunkInfo>)
    ensures
        m.heard(chunks).sealed == m.sealed,
        m.heard(chunks).target_language == m.target_language,
        m.heard(chunks).store == m.store,
        m.heard(chunks).readout_enabled == m.readout_enabled,
        m.heard(chunks).paused == m.paused,
    decreases chunks.len(),
{
    if chunks.len() > 0 {
        hearing_seals_nothing(m, chunks.drop_last());
    }
}

proof fn split_writes(m: MeetingModel, l: Option<Seq<char>>)
    ensures
        writes_what_it_seals(m, m.split_before().0, m.split_before().1),
        writes_what_it_seals(m, m.split_after().0, m.split_after().1),
        writes_what_it_seals(m, m.split_language(l).0, m.split_language(l).1),
{
    rotation_writes(m);
    writes_nothing(m, m, Seq::empty());
}

proof fn original_writes(m: MeetingModel, s: Seq<char>)
    ensures
        writes_what_it_seals(m, m.on_original(s).0, m.on_original(s).1),
{
    let l = session::spoken(s);
    let (a, out_a) = m.split_before();
    let (b, out_b) = a.split_language(l);
    let c = MeetingModel {
        open_lang: if l is Some {
            l
        } else {
            b.open_lang
        },
        turns: b.turns.with_original(s, m.last_chunk_ms),
        ..b
    };
    let (d, out_d) = c.split_after();
    let e = m.on_original(s).0;
    split_writes(m, l);
    split_writes(a, l);
    split_writes(c, l);
    writes_both(m, a, b, out_a, out_b);
    writes_nothing(b, c, Seq::empty());
    assert((out_a + out_b) + Seq::<ActionModel>::empty() =~= out_a + out_b);
    writes_both(m, b, c, out_a + out_b, Seq::empty());
    writes_both(m, c, d, out_a + out_b, out_d);
    writes_nothing(d, e, e.shown());
    writes_both(m, d, e, out_a + out_b + out_d, e.shown());
}

/// An event writes what it seals, in order, and writes nothing else.
pub proof fn step_writes_what_it_seals(m: MeetingModel, e: Event)
    ensures
        writes_what_it_seals(m, stepped(m, e).0, stepped(m, e).1),
{
    let (n, out) = stepped(m, e);
    match e {
        Event::Frame(chunks) => {
            if m.paused {
                writes_nothing(m, n, out);
            } else {
                let h = m.heard(chunks);
                hearing_seals_nothing(m, chunks);
                if h.idle() {
                    finalizing_writes(h);
                } else if h.overlong() {
                    rotation_writes(h);
                    let k = h.rotated().0;
                    writes_nothing(k, n, k.shown());
                    writes_both(h, k, n, h.rotated().1, k.shown());
                } else {
                    writes_nothing(m, n, out);
                }
            }
        },
        Event::Live(Some(LiveModel::Ready), _) => {
            let now = if m.gap_start_ms is Some && m.gap_start_ms->0 > m.last_chunk_ms {
                m.gap_start_ms->0
            } else {
                m.last_chunk_ms
            };
            if m.gap_start_ms is Some && now - m.gap_start_ms->0
                >= session::GAP_MARK_THRESHOLD_MS {
                let g = m.turns.with_gap(m.gap_start_ms->0, now).1;
                let live = if m.paused {
                    Seq::empty()
                } else {
                    seq![session::status("live"@, Seq::empty())]
                };
                assert(m.sealed.push(g) =~= m.sealed + seq![g]);
                writes_entries(m, n, seq![g], live);
            } else {
                writes_nothing(m, n, out);
            }
        },
        Event::Live(Some(LiveModel::Original(s)), _) => {
            original_writes(m, s);
        },
        Event::Live(Some(LiveModel::Translated(s)), _) => {
            writes_nothing(m, n, out);
        },
        Event::Live(Some(LiveModel::Audio(v)), _) => {
            writes_nothing(m, n, out);
        },
        Event::Live(Some(LiveModel::TurnComplete), _) => {
            rotation_writes(m);
        },
        Event::Live(Some(LiveModel::Closed(r)), now) => {
            writes_nothing(m, n, out);
        },
        Event::Live(None, now) => {
            writes_nothing(m, n, out);
        },
        Event::Boundary => {
            writes_nothing(m, n, out);
        },
        Event::Connected(_) => {
            writes_nothing(m, n, out);
        },
        Event::User(c) => {
            writes_nothing(m, n, out);
        },
        Event::StorageFailure(_) => {
            writes_nothing(m, n, out);
        },
        Event::End => {
            finalizing_writes(m);
            let k = m.finalized().0;
            let last = seq![session::status("ended"@, Seq::empty())];
            writes_nothing(k, n, last);
            writes_both(m, k, n, m.finalized().1, last);
            assert(m.finalized().1 + last =~= out);
        },
    }
}

/// The raw file is the timeline: whatever happens in a meeting, what has been
/// appended to the raw file is one block for each sealed entry, in order.
pub proof fn raw_file_is_the_timeline(m: MeetingModel, es: Seq<Event>)
    requires
        m.sealed.len() == 0,
    ensures
        entries_in(ran(m, es).1) == ran(m, es).0.sealed,
        written(ran(m, es).1) == transcript(ran(m, es).0.sealed, m.target_language),
        ran(m, es).0.target_language == m.target_language,
    decreases es.len(),
{
    if es.len() == 0 {
        assert(m.sealed =~= Seq::empty());
    } else {
        raw_file_is_the_timeline(m, es.drop_last());
        let (n, out) = ran(m, es.drop_last());
        let (k, more) = stepped(n, es.last());
        step_writes_what_it_seals(n, es.last());
        entries_of_join(out, more);
        transcript_of_join(entries_in(out), entries_in(more), m.target_language);
    }
}

// ---------------------------------------------------------------------------
// What is kept
// ---------------------------------------------------------------------------

/// Visible original text that an event brings in.
pub open spec fn original_in(e: Event) -> Seq<char> {
    match e {
        Event::Live(Some(LiveModel::Original(s)), _) => text::ink(s),
        _ => Seq::empty(),
    }
}

/// Visible translated text that an event brings in.
pub open spec fn translation_in(e: Event) -> Seq<char> {
    match e {
        Event::Live(Some(LiveModel::Translated(s)), _) => text::ink(s),
        _ => Seq::empty(),
    }
}

pub open spec fn all_original(es: Seq<Event>) -> Seq<char>
    decreases es.len(),
{
    if es.len() == 0 {
        Seq::empty()
    } else {
        all_original(es.drop_last()) + original_in(es.last())
    }
}

pub open spec fn all_translation(es: Seq<Event>) -> Seq<char>
    decreases es.len(),
{
    if es.len() == 0 {
        Seq::empty()
    } else {
        all_translation(es.drop_last()) + translation_in(es.last())
    }
}

/// Visible original text of a meeting: what is sealed, then what is pending.
pub open spec fn original_of(m: MeetingModel) -> Seq<char> {
    timeline_laws::originals(m.sealed) + timeline_laws::pending_original(m.turns)
}

/// Visible translated text of a meeting: what is sealed, then what is pending.
pub open spec fn translation_of(m: MeetingModel) -> Seq<char> {
    timeline_laws::translations(m.sealed) + timeline_laws::pending_translation(m.turns)
}

/// From `m` to `n` the text grows by `o` and `t` at its end.
spec fn grows(m: MeetingModel, n: MeetingModel, o: Seq<char>, t: Seq<char>) -> bool {
    &&& original_of(n) == original_of(m) + o
    &&& translation_of(n) == translation_of(m) + t
    &&& n.turns.wf()
}

/// One call of the assembler keeps the text of a meeting.
proof fn call_keeps_text(m: MeetingModel, n: MeetingModel, op: Op)
    requires
        m.turns.wf(),
        n.turns == timeline_laws::stepped(m.turns, op).0,
        n.sealed == m.sealed + timeline_laws::stepped(m.turns, op).1,
    ensures
        grows(m, n, timeline_laws::heard(op), timeline_laws::read(op)),
{
    timeline_laws::step_keeps_text(m.turns, op);
    let es = timeline_laws::stepped(m.turns, op).1;
    timeline_laws::joined_lists(m.sealed, es);
    assert(original_of(n) =~= timeline_laws::originals(m.sealed) + (timeline_laws::originals(es)
        + timeline_laws::pending_original(n.turns)));
    assert(original_of(n) =~= original_of(m) + timeline_laws::heard(op));
    assert(translation_of(n) =~= timeline_laws::translations(m.sealed) + (
    timeline_laws::translations(es) + timeline_laws::pending_translation(n.turns)));
    assert(translation_of(n) =~= translation_of(m) + timeline_laws::read(op));
}

proof fn same_text_kept(m: MeetingModel, n: MeetingModel)
    requires
        m.turns.wf(),
        n.turns == m.turns,
        n.sealed == m.sealed,
    ensures
        grows(m, n, Seq::empty(), Seq::empty()),
{
    assert(original_of(m) + Seq::<char>::empty() =~= original_of(m));
    assert(translation_of(m) + Seq::<char>::empty() =~= translation_of(m));
}

proof fn grows_both(
    m: MeetingModel,
    n: MeetingModel,
    k: MeetingModel,
    o1: Seq<char>,
    t1: Seq<char>,
    o2: Seq<char>,
    t2: Seq<char>,
)
    requires
        grows(m, n, o1, t1),
        grows(n, k, o2, t2),
    ensures
        grows(m, k, o1 + o2, t1 + t2),
{
    assert((original_of(m) + o1) + o2 =~= original_of(m) + (o1 + o2));
    assert((translation_of(m) + t1) + t2 =~= translation_of(m) + (t1 + t2));
}

/// Two steps of which the first brings in nothing.
proof fn grows_second(
    m: MeetingModel,
    n: MeetingModel,
    k: MeetingModel,
    o: Seq<char>,
    t: Seq<char>,
)
    requires
        grows(m, n, Seq::empty(), Seq::empty()),
        grows(n, k, o, t),
    ensures
        grows(m, k, o, t),
{
    grows_both(m, n, k, Seq::empty(), Seq::empty(), o, t);
    assert(Seq::<char>::empty() + o =~= o);
    assert(Seq::<char>::empty() + t =~= t);
}

/// Two steps of which the second brings in nothing.
proof fn grows_first(
    m: MeetingModel,
    n: MeetingModel,
    k: MeetingModel,
    o: Seq<char>,
    t: Seq<char>,
)
    requires
        grows(m, n, o, t),
        grows(n, k, Seq::empty(), Seq::empty()),
    ensures
        grows(m, k, o, t),
{
    grows_both(m, n, k, o, t, Seq::empty(), Seq::empty());
    assert(o + Seq::<char>::empty() =~= o);
    assert(t + Seq::<char>::empty() =~= t);
}

proof fn rotation_keeps_text(m: MeetingModel)
    requires
        m.turns.wf(),
    ensures
        grows(m, m.rotated().0, Seq::empty(), Seq::empty()),
        grows(m, m.rotated().0.afresh(), Seq::empty(), Seq::empty()),
{
    call_keeps_text(m, m.rotated().0, Op::Rotate);
    same_text_kept(m.rotated().0, m.rotated().0.afresh());
    grows_first(m, m.rotated().0, m.rotated().0.afresh(), Seq::empty(), Seq::empty());
}

proof fn finalizing_keeps_text(m: MeetingModel)
    requires
        m.turns.wf(),
    ensures
        grows(m, m.finalized().0, Seq::empty(), Seq::empty()),
{
    call_keeps_text(m, m.finalized().0, Op::Finalize);
}

proof fn hearing_keeps_text(m: MeetingModel, chunks: Seq<ChunkInfo>)
    requires
        m.turns.wf(),
    ensures
        grows(m, m.heard(chunks), Seq::empty(), Seq::empty()),
    decreases chunks.len(),
{
    if chunks.len() == 0 {
        same_text_kept(m, m);
    } else {
        let n = m.heard(chunks.drop_last());
        let k = m.heard(chunks);
        let c = chunks.last();
        hearing_keeps_text(m, chunks.drop_last());
        hearing_seals_nothing(m, chunks);
        hearing_seals_nothing(m, chunks.drop_last());
        assert(n.sealed + Seq::<EntryModel>::empty() =~= n.sealed);
        call_keeps_text(n, k, Op::Activity(c.mic_active, c.system_active));
        grows_first(m, n, k, Seq::empty(), Seq::empty());
    }
}

proof fn splits_keep_text(m: MeetingModel, l: Option<Seq<char>>)
    requires
        m.turns.wf(),
    ensures
        grows(m, m.split_before().0, Seq::empty(), Seq::empty()),
        grows(m, m.split_after().0, Seq::empty(), Seq::empty()),
        grows(m, m.split_language(l).0, Seq::empty(), Seq::empty()),
{
    rotation_keeps_text(m);
    same_text_kept(m, m);
    let r = m.rotated().0;
    let k = MeetingModel { rotate_pending: false, ..r };
    same_text_kept(r, k);
    grows_first(m, r, k, Seq::empty(), Seq::empty());
}

proof fn original_keeps_text(m: MeetingModel, s: Seq<char>)
    requires
        m.turns.wf(),
    ensures
        grows(m, m.on_original(s).0, text::ink(s), Seq::empty()),
{
    let l = session::spoken(s);
    let a = m.split_before().0;
    let b = a.split_language(l).0;
    let c = MeetingModel {
        open_lang: if l is Some {
            l
        } else {
            b.open_lang
        },
        turns: b.turns.with_original(s, m.last_chunk_ms),
        ..b
    };
    let d = c.split_after().0;
    let e = m.on_original(s).0;
    splits_keep_text(m, l);
    splits_keep_text(a, l);
    grows_first(m, a, b, Seq::empty(), Seq::empty());
    assert(b.sealed + Seq::<EntryModel>::empty() =~= b.sealed);
    call_keeps_text(b, c, Op::Original(s, m.last_chunk_ms));
    grows_second(m, b, c, text::ink(s), Seq::empty());
    splits_keep_text(c, l);
    grows_first(m, c, d, text::ink(s), Seq::empty());
    same_text_kept(d, e);
    grows_first(m, d, e, text::ink(s), Seq::empty());
}

/// An event neither loses nor makes up nor reorders transcript text: the text
/// of a meeting, sealed and pending, grows by what the event brings in.
pub proof fn step_keeps_text(m: MeetingModel, e: Event)
    requires
        m.turns.wf(),
    ensures
        stepped(m, e).0.turns.wf(),
        original_of(stepped(m, e).0) == original_of(m) + original_in(e),
        translation_of(stepped(m, e).0) == translation_of(m) + translation_in(e),
{
    let n = stepped(m, e).0;
    let none = Seq::<char>::empty();
    match e {
        Event::Frame(chunks) => {
            if m.paused {
                same_text_kept(m, n);
            } else {
                let h = m.heard(chunks);
                hearing_keeps_text(m, chunks);
                if h.idle() {
                    finalizing_keeps_text(h);
                    same_text_kept(h.finalized().0, n);
                    grows_first(h, h.finalized().0, n, none, none);
                    grows_first(m, h, n, none, none);
                } else if h.overlong() {
                    rotation_keeps_text(h);
                    grows_first(m, h, n, none, none);
                }
            }
        },
        Event::Live(Some(LiveModel::Ready), _) => {
            let now = if m.gap_start_ms is Some && m.gap_start_ms->0 > m.last_chunk_ms {
                m.gap_start_ms->0
            } else {
                m.last_chunk_ms
            };
            if m.gap_start_ms is Some && now - m.gap_start_ms->0
                >= session::GAP_MARK_THRESHOLD_MS {
                let g = m.turns.with_gap(m.gap_start_ms->0, now).1;
                assert(m.sealed.push(g) =~= m.sealed + seq![g]);
                call_keeps_text(m, n, Op::Gap(m.gap_start_ms->0, now));
            } else {
                same_text_kept(m, n);
            }
        },
        Event::Live(Some(LiveModel::Original(s)), _) => {
            original_keeps_text(m, s);
        },
        Event::Live(Some(LiveModel::Translated(s)), _) => {
            assert(m.sealed + Seq::<EntryModel>::empty() =~= m.sealed);
            call_keeps_text(m, n, Op::Translated(s, m.last_chunk_ms));
        },
        Event::Live(Some(LiveModel::Audio(v)), _) => {
            same_text_kept(m, n);
        },
        Event::Live(Some(LiveModel::TurnComplete), _) => {
            rotation_keeps_text(m);
            same_text_kept(m.rotated().0, n);
            grows_first(m, m.rotated().0, n, none, none);
        },
        Event::Live(Some(LiveModel::Closed(r)), now) => {
            same_text_kept(m, n);
        },
        Event::Live(None, now) => {
            same_text_kept(m, n);
        },
        Event::Boundary => {
            same_text_kept(m, n);
        },
        Event::Connected(_) => {
            same_text_kept(m, n);
        },
        Event::User(c) => {
            same_text_kept(m, n);
        },
        Event::StorageFailure(_) => {
            same_text_kept(m, n);
        },
        Event::End => {
            finalizing_keeps_text(m);
        },
    }
}

/// A meeting loses no text: whatever happens, the visible text of the sealed
/// entries, followed by what is pending, is the text that the live connection
/// transcribed, in order; the same holds of the translation.
pub proof fn no_text_is_lost(m: MeetingModel, es: Seq<Event>)
    requires
        m.turns == AssemblerModel::initial(),
        m.sealed.len() == 0,
    ensures
        ran(m, es).0.turns.wf(),
        original_of(ran(m, es).0) == all_original(es),
        translation_of(ran(m, es).0) == all_translation(es),
    decreases es.len(),
{
    if es.len() == 0 {
        assert(m.sealed =~= Seq::empty());
        assert(original_of(m) =~= Seq::empty());
        assert(translation_of(m) =~= Seq::empty());
    } else {
        no_text_is_lost(m, es.drop_last());
        step_keeps_text(ran(m, es.drop_last()).0, es.last());
    }
}

/// When a meeting ends, every visible character that was transcribed or
/// translated stands in an entry of the raw file.
pub proof fn ended_meeting_is_complete(m: MeetingModel, es: Seq<Event>)
    requires
        m.turns == AssemblerModel::initial(),
        m.sealed.len() == 0,
        es.len() > 0,
        es.last() is End,
    ensures
        timeline_laws::originals(entries_in(ran(m, es).1)) == all_original(es),
        timeline_laws::translations(entries_in(ran(m, es).1)) == all_translation(es),
{
    let n = ran(m, es).0;
    no_text_is_lost(m, es);
    raw_file_is_the_timeline(m, es);
    timeline_laws::finalizing_empties(ran(m, es.drop_last()).0.turns);
    assert(timeline_laws::pending_original(n.turns) =~= Seq::empty());
    assert(timeline_laws::pending_translation(n.turns) =~= Seq::empty());
    assert(original_of(n) =~= timeline_laws::originals(n.sealed));
    assert(translation_of(n) =~= timeline_laws::translations(n.sealed));
}

proof fn transcript_shows_all(es: Seq<EntryModel>, l: Seq<char>)
    ensures
        text_laws::within(timeline_laws::originals(es), text::ink(transcript(es, l))),
        text_laws::within(timeline_laws::translations(es), text::ink(transcript(es, l))),
    decreases es.len(),
{
    if es.len() > 0 {
        let before = es.drop_last();
        let e = es.last();
        let block = store::entry_text(e, l);
        transcript_shows_all(before, l);
        if e.kind == EntryKind::Speech {
            store_laws::blocks_show_every_character(e, l);
        }
        text_laws::ink_of_join(transcript(before, l), block);
        text_laws::within_joined(
            timeline_laws::originals(before),
            text::ink(transcript(before, l)),
            timeline_laws::shown(e, e.original),
            text::ink(block),
        );
        text_laws::within_joined(
            timeline_laws::translations(before),
            text::ink(transcript(before, l)),
            timeline_laws::shown(e, e.translated),
            text::ink(block),
        );
    }
}

/// When a meeting has ended, every visible character that was transcribed stands
/// in what was appended to the raw file, in order, and so does every visible
/// character that was translated.
pub proof fn raw_file_shows_every_character(m: MeetingModel, es: Seq<Event>)
    requires
        m.turns == AssemblerModel::initial(),
        m.sealed.len() == 0,
        es.len() > 0,
        es.last() is End,
    ensures
        text_laws::within(all_original(es), text::ink(written(ran(m, es).1))),
        text_laws::within(all_translation(es), text::ink(written(ran(m, es).1))),
{
    ended_meeting_is_complete(m, es);
    raw_file_is_the_timeline(m, es);
    transcript_shows_all(ran(m, es).0.sealed, m.target_language);
}

/// The journal holds what the raw file does not: the visible text of the live
/// view is exactly the text that is pending.
pub proof fn journal_holds_what_is_pending(m: MeetingModel)
    requires
        m.turns.wf(),
    ensures
        match m.turns.live() {
            Some(p) => {
                &&& text::ink(p.original) == timeline_laws::pending_original(m.turns)
                &&& text::ink(p.translated) == timeline_laws::pending_translation(m.turns)
            },
            None => {
                &&& timeline_laws::pending_original(m.turns).len() == 0
                &&& timeline_laws::pending_translation(m.turns).len() == 0
            },
        },
{
    let none = Seq::<char>::empty();
    text_laws::ink_of_blank(none);
    assert(text::ink(none) =~= none);
    match (m.turns.closing, m.turns.open) {
        (Some(c), Some(o)) => {
            text_laws::ink_of_join(c.original.push(' '), o.original);
            text_laws::ink_of_push(c.original, ' ');
            text_laws::ink_of_join(c.original, o.original);
            text_laws::ink_of_blank(o.translated);
            text_laws::ink_of_blank(c.translated);
            assert(text::ink(o.translated) =~= none);
            assert(text::ink(c.translated) + text::ink(o.translated) =~= text::ink(c.translated));
            if c.translated.len() == 0 {
                assert(text::ink(c.translated) =~= none);
            }
        },
        (Some(c), None) => {
            assert(text::ink(c.original) + none =~= text::ink(c.original));
            assert(text::ink(c.translated) + none =~= text::ink(c.translated));
        },
        (None, Some(o)) => {
            assert(none + text::ink(o.original) =~= text::ink(o.original));
            assert(none + text::ink(o.translated) =~= text::ink(o.translated));
        },
        (None, None) => {},
    }
}

// ---------------------------------------------------------------------------
// Rules
// ---------------------------------------------------------------------------

/// While a meeting is paused, audio changes nothing.
pub proof fn paused_meetings_do_not_listen(m: MeetingModel, chunks: Seq<ChunkInfo>)
    requires
        m.paused,
    ensures
        m.on_frame(chunks) == (m, Seq::<ActionModel>::empty()),
{
}

/// A transcript that cannot be written stops the listening at once and loses
/// nothing of what is known; the failure is told.
pub proof fn storage_failures_pause(m: MeetingModel, detail: Seq<char>, chunks: Seq<ChunkInfo>)
    ensures
        ({
            let (n, out) = m.on_storage_failure(detail);
            &&& n.paused
            &&& n.turns == m.turns
            &&& n.sealed == m.sealed
            &&& out.len() > 0 && out[0] == session::status("storage-error"@, detail)
            &&& n.on_frame(chunks) == (n, Seq::<ActionModel>::empty())
        }),
{
}

/// Spoken translation is played only when readout is on, the meeting is not
/// paused and the turn is not the user's own.
pub proof fn own_speech_is_never_read_back(m: MeetingModel, e: Event, i: int)
    requires
        0 <= i < stepped(m, e).1.len(),
        stepped(m, e).1[i] is Play,
    ensures
        m.readout_enabled,
        !m.paused,
        !m.turns.mic_dominated(),
        e is Live,
{
    let out = stepped(m, e).1;
    assert(e is Live && e->Live_0 matches Some(LiveModel::Audio(_))) by {
        if !(e is Live && e->Live_0 matches Some(LiveModel::Audio(_))) {
            only_audio_plays(m, e);
            assert(!(out[i] is Play));
        }
    }
}

/// No action of the list plays anything.
spec fn is_silent(out: Seq<ActionModel>) -> bool {
    forall|i: int| 0 <= i < out.len() ==> !(#[trigger] out[i] is Play)
}

proof fn silent_join(a: Seq<ActionModel>, b: Seq<ActionModel>)
    requires
        is_silent(a),
        is_silent(b),
    ensures
        is_silent(a + b),
{
}

proof fn splits_are_silent(m: MeetingModel, l: Option<Seq<char>>)
    ensures
        is_silent(m.rotated().1),
        is_silent(m.finalized().1),
        is_silent(m.split_before().1),
        is_silent(m.split_after().1),
        is_silent(m.split_language(l).1),
        is_silent(m.shown()),
{
}

proof fn original_is_silent(m: MeetingModel, s: Seq<char>)
    ensures
        is_silent(m.on_original(s).1),
{
    let l = session::spoken(s);
    let (a, out_a) = m.split_before();
    let (b, out_b) = a.split_language(l);
    let c = MeetingModel {
        open_lang: if l is Some {
            l
        } else {
            b.open_lang
        },
        turns: b.turns.with_original(s, m.last_chunk_ms),
        ..b
    };
    let (d, out_d) = c.split_after();
    let e = m.on_original(s).0;
    splits_are_silent(m, l);
    splits_are_silent(a, l);
    splits_are_silent(c, l);
    splits_are_silent(e, l);
    silent_join(out_a, out_b);
    silent_join(out_a + out_b, out_d);
    silent_join(out_a + out_b + out_d, e.shown());
}

proof fn only_audio_plays(m: MeetingModel, e: Event)
    requires
        !(e is Live && e->Live_0 matches Some(LiveModel::Audio(_))),
    ensures
        is_silent(stepped(m, e).1),
{
    match e {
        Event::Frame(chunks) => {
            let h = m.heard(chunks);
            splits_are_silent(h, None);
            splits_are_silent(h.rotated().0, None);
            silent_join(h.rotated().1, h.rotated().0.shown());
        },
        Event::Live(Some(LiveModel::Original(s)), _) => {
            original_is_silent(m, s);
        },
        Event::Live(Some(LiveModel::Translated(s)), _) => {
            splits_are_silent(m.on_translated(s).0, None);
        },
        Event::Live(Some(LiveModel::TurnComplete), _) => {
            splits_are_silent(m, None);
        },
        Event::End => {
            splits_are_silent(m, None);
        },
        _ => {},
    }
}

/// Plain Latin text never splits an entry for its language.
pub proof fn latin_never_splits(m: MeetingModel, s: Seq<char>)
    requires
        lang::detected(s) == Some("latin"@),
    ensures
        m.split_language(session::spoken(s)) == (m, Seq::<ActionModel>::empty()),
{
}

/// A fragment in another language than the open entry, once that has enough
/// text, starts an entry of its own: nothing but the fragment stands in the
/// entry that receives it.
pub proof fn language_change_starts_an_entry(m: MeetingModel, s: Seq<char>)
    requires
        !m.rotate_pending,
        session::spoken(s) is Some,
        m.open_lang is Some,
        session::spoken(s) != m.open_lang,
        m.turns.open_original().len() >= session::MIN_SPLIT_CHARS,
    ensures
        m.on_original(s).0.turns.open_original() == s,
        m.on_original(s).0.open_lang == session::spoken(s),
        m.on_original(s).0.turns.closing matches Some(c) && c.original == m.turns.open_original(),
{
    let l = session::spoken(s);
    let b = m.split_language(l).0;
    assert(m.split_before() == (m, Seq::<ActionModel>::empty()));
    let e = b.turns.opened(m.last_chunk_ms);
    assert(e.original + s =~= s) by {
        rotation_opens(m.turns);
    }
}

/// After a rotation the open entry, if there is one, has no original text yet.
proof fn rotation_opens(t: AssemblerModel)
    ensures
        t.rotated().0.open_original().len() == 0,
        t.open is Some ==> t.rotated().0.closing is Some && t.rotated().0.closing->0.original
            == t.open->0.original,
{
}

/// The delay before a reconnect grows from close to close up to the cap and
/// never beyond.
pub proof fn backoff_is_bounded(d: nat)
    requires
        d <= session::MAX_BACKOFF_S,
    ensures
        session::escalated(d) <= session::MAX_BACKOFF_S,
        session::doubled(d) <= session::MAX_BACKOFF_S,
        d < session::MAX_BACKOFF_S ==> session::escalated(d) > d,
        0 < d < session::MAX_BACKOFF_S ==> session::doubled(d) > d,
        d == session::MAX_BACKOFF_S ==> session::escalated(d) == d && session::doubled(d) == d,
{
}

/// A connection that keeps failing is tried again after twice the time, and one
/// that closes again after twice the time and a second, up to half a minute.
pub proof fn delays_double(d: nat)
    ensures
        2 * d <= 30 ==> session::doubled(d) == 2 * d,
        2 * d >= 30 ==> session::doubled(d) == 30,
        2 * d + 1 <= 30 ==> session::escalated(d) == 2 * d + 1,
        2 * d + 1 >= 30 ==> session::escalated(d) == 30,
{
}

/// Trying the other API version twice comes back to the first, where that is
/// one of the two.
pub proof fn versions_alternate(v: Seq<char>)
    requires
        v == "v1alpha"@ || v == "v1beta"@,
    ensures
        session::other_version(v) != v,
        session::other_version(session::other_version(v)) == v,
{
    reveal_strlit("v1alpha");
    reveal_strlit("v1beta");
    assert("v1alpha"@.len() != "v1beta"@.len());
}

/// Three connections in a row that are rejected at setup make the session try
/// the other API version; a message that the server does not understand does
/// so at once.
pub proof fn rejected_setup_flips_the_version(m: MeetingModel, reason: Seq<char>, now_ms: u64)
    requires
        m.closes_early(now_ms),
        m.early_closes == 2 || session::is_schema_reject(reason),
    ensures
        m.on_closed(reason, now_ms).0.api_version == session::other_version(m.api_version),
        m.on_closed(reason, now_ms).0.early_closes == 0,
{
}

/// An interval without transcription that is long enough to matter is marked:
/// when the connection is back, a gap with the interval's times goes to the raw
/// file first of all.
pub proof fn long_gaps_are_marked(m: MeetingModel, start: u64)
    requires
        m.gap_start_ms == Some(start),
        m.last_chunk_ms >= start + session::GAP_MARK_THRESHOLD_MS,
    ensures
        ({
            let (n, out) = m.on_ready();
            &&& out.len() > 0
            &&& out[0] matches ActionModel::Entry(e, block)
            &&& e.kind == EntryKind::Gap
            &&& e.start_ms == start
            &&& e.end_ms == m.last_chunk_ms
            &&& block == store::entry_text(e, m.target_language)
            &&& n.sealed == m.sealed.push(e)
            &&& n.gap_start_ms is None
        }),
{
}

// ---------------------------------------------------------------------------
// When entries end
// ---------------------------------------------------------------------------

/// The clock of a meeting is the time of the newest chunk. Audio that is heard
/// changes no text.
pub proof fn chunks_move_the_clock(m: MeetingModel, chunks: Seq<ChunkInfo>)
    ensures
        chunks.len() > 0 ==> m.heard(chunks).last_chunk_ms == chunks.last().t_ms,
        chunks.len() == 0 ==> m.heard(chunks) == m,
        m.heard(chunks).turns.open_original() == m.turns.open_original(),
        m.heard(chunks).turns.closing == m.turns.closing,
        m.heard(chunks).turns.open is Some <==> m.turns.open is Some,
        m.turns.open is Some ==> m.heard(chunks).turns.open->0.start_ms == m.turns.open->0.start_ms,
        m.heard(chunks).sealed == m.sealed,
        m.heard(chunks).last_fragment_ms == m.last_fragment_ms,
    decreases chunks.len(),
{
    if chunks.len() > 0 {
        chunks_move_the_clock(m, chunks.drop_last());
    }
}

/// A turn without a fragment for more than seven seconds is over: nothing stays
/// pending, whatever it was.
pub proof fn idle_turns_are_sealed(m: MeetingModel, chunks: Seq<ChunkInfo>)
    requires
        !m.paused,
        m.turns.wf(),
        chunks.len() > 0,
        m.last_fragment_ms > 0,
        chunks.last().t_ms > m.last_fragment_ms + 7_000,
    ensures
        m.on_frame(chunks).0.turns.closing is None,
        m.on_frame(chunks).0.turns.open is None,
        m.on_frame(chunks).0.last_fragment_ms == 0,
{
    chunks_move_the_clock(m, chunks);
    timeline_laws::finalizing_empties(m.heard(chunks).turns);
}

/// A turn that goes on for a minute and has twelve characters or more is set
/// aside as it is, and a new entry begins. What is shorter stays open.
pub proof fn long_turns_are_split(m: MeetingModel, chunks: Seq<ChunkInfo>)
    requires
        !m.paused,
        chunks.len() > 0,
        m.turns.open is Some,
        m.last_fragment_ms > 0,
        m.last_fragment_ms <= chunks.last().t_ms <= m.last_fragment_ms + 7_000,
    ensures
        ({
            let n = m.on_frame(chunks).0;
            let start = m.turns.open->0.start_ms;
            if m.turns.open->0.original.len() >= 12 && chunks.last().t_ms >= start + 60_000 {
                &&& n.turns.closing matches Some(c) && c.original == m.turns.open->0.original
                &&& n.turns.open_original().len() == 0
            } else {
                &&& n.turns.open_original() == m.turns.open->0.original
                &&& n.turns.closing == m.turns.closing
                &&& n.sealed == m.sealed
                &&& m.on_frame(chunks).1.len() == 0
            }
        }),
{
    chunks_move_the_clock(m, chunks);
    rotation_opens(m.heard(chunks).turns);
}

/// The end of a turn sets its text aside for late translation, and what was set
/// aside before is sealed.
pub proof fn ended_turns_are_set_aside(m: MeetingModel, now_ms: u64)
    requires
        m.turns.open is Some,
    ensures
        ({
            let (n, out) = m.on_live(Some(LiveModel::TurnComplete), now_ms);
            &&& n.turns.closing matches Some(c) && c.original == m.turns.open->0.original
            &&& n.turns.open_original().len() == 0
            &&& m.turns.closing is None ==> n.sealed == m.sealed
            &&& m.turns.closing matches Some(c) ==> (!text::is_blank(c.original) ==> n.sealed.len()
                == m.sealed.len() + 1 && text::ink(n.sealed.last().original) == text::ink(
                c.original,
            ))
        }),
{
    rotation_opens(m.turns);
    if let Some(c) = m.turns.closing {
        text_laws::trim_keeps_ink(c.original);
    }
    assert(m.sealed + timeline::listed(None) =~= m.sealed);
}

/// A change of the remote speaker splits only an entry of twelve characters or
/// more that is not the user's own, and none while the meeting is paused.
pub proof fn remote_changes_wait(m: MeetingModel)
    ensures
        ({
            let n = m.on_boundary();
            let own = m.turns.open matches Some(e) && e.speech_chunks > 0 && 2
                * e.mic_active_chunks >= e.speech_chunks;
            let enough = m.turns.open matches Some(e) && e.original.len() >= 12;
            &&& n.turns == m.turns && n.sealed == m.sealed
            &&& !m.paused && !own && enough ==> n.rotate_pending && n.pending_since_len
                == m.turns.open->0.original.len()
            &&& !(!m.paused && !own && enough) ==> n == m
        }),
{
}

/// After a change of speaker the next fragment begins a new entry as soon as the
/// sentence before it is over.
pub proof fn changes_split_at_the_sentence(m: MeetingModel, s: Seq<char>)
    requires
        m.rotate_pending,
        m.turns.open is Some,
        m.turns.at_sentence_end(),
    ensures
        ({
            let n = m.on_original(s).0;
            &&& n.turns.open_original() == s
            &&& n.turns.closing matches Some(c) && c.original == m.turns.open->0.original
            &&& !n.rotate_pending
        }),
{
    let (a, _) = m.split_before();
    rotation_opens(m.turns);
    assert(!a.rotate_pending && a.open_lang is None);
    let e = a.turns.opened(m.last_chunk_ms);
    assert(e.original + s =~= s);
}

/// While the sentence goes on, and without a change of language, a fragment goes
/// to the open entry; with the end of the sentence, or after 160 characters
/// more, a pending split comes after it.
pub proof fn sentences_are_finished(m: MeetingModel, s: Seq<char>)
    requires
        m.turns.open is Some,
        !m.turns.at_sentence_end(),
        session::spoken(s) is None || m.open_lang is None || session::spoken(s) == m.open_lang,
    ensures
        ({
            let n = m.on_original(s).0;
            let all = m.turns.open->0.original + s;
            let over = m.turns.with_original(s, m.last_chunk_ms).at_sentence_end() || all.len()
                > m.pending_since_len + 160;
            if m.rotate_pending && over {
                &&& n.turns.closing matches Some(c) && c.original == all
                &&& n.turns.open_original().len() == 0
                &&& !n.rotate_pending
            } else {
                &&& n.turns.open_original() == all
                &&& n.turns.closing == m.turns.closing
                &&& n.sealed == m.sealed
                &&& n.rotate_pending == m.rotate_pending
            }
        }),
{
    rotation_opens(m.turns.with_original(s, m.last_chunk_ms));
}

// ---------------------------------------------------------------------------
// Readout and controls
// ---------------------------------------------------------------------------

/// Spoken translation is played, whole, exactly when readout is on, the meeting
/// is not paused and less than half of the turn's speech is the user's own.
pub proof fn remote_speech_is_read_out(m: MeetingModel, samples: Seq<i16>, now_ms: u64)
    requires
        samples.len() > 0,
    ensures
        ({
            let own = m.turns.open matches Some(e) && e.speech_chunks > 0 && 2
                * e.mic_active_chunks >= e.speech_chunks;
            let (n, out) = m.on_live(Some(LiveModel::Audio(samples)), now_ms);
            &&& n == m
            &&& m.readout_enabled && !m.paused && !own ==> out == seq![ActionModel::Play(samples)]
            &&& !(m.readout_enabled && !m.paused && !own) ==> out.len() == 0
        }),
{
}

/// A pause stops what is being played and the listening; after it, the meeting
/// goes on where it was.
pub proof fn pauses_can_be_ended(m: MeetingModel)
    requires
        !m.paused,
    ensures
        m.on_control(Control::Pause).0.paused,
        m.on_control(Control::Pause).1.contains(ActionModel::StopPlayback),
        m.on_control(Control::Pause).0.on_control(Control::Resume).0 == m,
        m.on_control(Control::Resume).1 == seq![
            session::status(
                if m.connected {
                    "live"@
                } else {
                    "reconnecting"@
                },
                Seq::empty(),
            ),
        ],
{
    assert(m.on_control(Control::Pause).1[0] == ActionModel::StopPlayback);
}

/// Readout can be switched at any time; switching it off stops what is being
/// played, and nothing else changes.
pub proof fn readout_can_be_switched(m: MeetingModel, on: bool, samples: Seq<i16>)
    ensures
        ({
            let (n, out) = m.on_control(Control::SetReadout(on));
            &&& n == MeetingModel { readout_enabled: on, ..m }
            &&& !on ==> out == seq![ActionModel::StopPlayback] && n.on_audio(samples).len() == 0
            &&& on ==> out.len() == 0
        }),
{
}

/// A meeting ends with everything sealed and says so last of all.
pub proof fn ends_are_told(m: MeetingModel)
    requires
        m.turns.wf(),
    ensures
        m.on_end().1.len() > 0,
        m.on_end().1.last() == session::status("ended"@, Seq::empty()),
        m.on_end().0.turns.closing is None && m.on_end().0.turns.open is None,
        m.on_end().0.sealed == m.sealed + entries_in(m.on_end().1),
{
    timeline_laws::finalizing_empties(m.turns);
    step_writes_what_it_seals(m, Event::End);
}

// ---------------------------------------------------------------------------
// Connections
// ---------------------------------------------------------------------------

/// An interval without transcription of less than two seconds leaves no mark.
pub proof fn short_gaps_are_not_marked(m: MeetingModel)
    requires
        m.gap_start_ms matches Some(start) ==> m.last_chunk_ms < start + 2_000,
    ensures
        ({
            let (n, out) = m.on_ready();
            &&& n.sealed == m.sealed
            &&& n.turns == m.turns
            &&& n.gap_start_ms is None
            &&& n.reconnect_delay_s == 0
            &&& n.early_closes == 0
            &&& m.paused ==> out.len() == 0
            &&& !m.paused ==> out == seq![session::status("live"@, Seq::empty())]
        }),
{
}

/// A close is reported with its reason and is answered by one new connection,
/// after a delay that doubles and grows by one up to half a minute. The gap
/// begins with the first close.
pub proof fn closes_are_answered(m: MeetingModel, reason: Seq<char>, now_ms: u64)
    ensures
        ({
            let (n, out) = m.on_live(Some(LiveModel::Closed(reason)), now_ms);
            let delay: nat = if 2 * m.reconnect_delay_s + 1 < 30 {
                2 * m.reconnect_delay_s + 1
            } else {
                30
            };
            &&& !n.connected && n.connecting
            &&& n.turns == m.turns && n.sealed == m.sealed
            &&& out[0] == session::status("reconnecting"@, reason)
            &&& m.connecting ==> out.len() == 1
            &&& !m.connecting ==> out.len() == 2 && out[1] == ActionModel::Connect(
                n.api_version,
                delay,
            )
            &&& m.gap_start_ms is None ==> n.gap_start_ms == Some(m.last_chunk_ms)
            &&& m.gap_start_ms is Some ==> n.gap_start_ms == m.gap_start_ms
        }),
{
}

/// A connection that lasted five seconds or more was no rejected setup: the
/// version of the API stays. Of shorter ones the first two are only counted,
/// unless the server says that it did not understand the setup.
pub proof fn accepted_setups_keep_the_version(m: MeetingModel, reason: Seq<char>, now_ms: u64)
    requires
        m.connected_at_ms is Some,
        m.early_closes < 3,
    ensures
        ({
            let n = m.on_closed(reason, now_ms).0;
            let early = now_ms < m.connected_at_ms->0 + 5_000;
            let rejected = text::occurs(reason, "Unknown name"@) || text::occurs(
                reason,
                "Invalid JSON payload"@,
            );
            &&& !early ==> n.api_version == m.api_version && n.early_closes == m.early_closes
            &&& early && (rejected || m.early_closes == 2) ==> n.api_version
                == session::other_version(m.api_version) && n.early_closes == 0
            &&& early && !rejected && m.early_closes < 2 ==> n.api_version == m.api_version
                && n.early_closes == m.early_closes + 1
        }),
{
}

// ---------------------------------------------------------------------------
// What is shown
// ---------------------------------------------------------------------------

/// After a fragment, original or translated, everything that is pending is shown
/// last of all.
pub proof fn fragments_are_shown(m: MeetingModel, s: Seq<char>, now_ms: u64)
    ensures
        ({
            let (n, out) = m.on_live(Some(LiveModel::Translated(s)), now_ms);
            out.len() > 0 && out.last() == ActionModel::Partial(n.turns.live()->0) && n.turns.live()
                is Some
        }),
        ({
            let (n, out) = m.on_live(Some(LiveModel::Original(s)), now_ms);
            n.turns.live() is Some && out.len() > 0 && out.last() == ActionModel::Partial(
                n.turns.live()->0,
            )
        }),
{
    let (a, out_a) = m.split_before();
    let (b, out_b) = a.split_language(session::spoken(s));
    let (e, out_e) = b.extended(s, session::spoken(s));
    let c = b.turns.with_original(s, b.last_chunk_ms);
    assert(c.open is Some);
    assert(c.rotated().0.closing is Some);
    assert(e.turns.live() is Some);
    assert(out_e.last() == ActionModel::Partial(e.turns.live()->0));
    assert(m.on_original(s).1.last() == out_e.last());
}

/// Whoever has a passage of speech is a speaker of the meeting, and nobody else is.
pub proof fn speakers_are_who_spoke(sealed: Seq<EntryModel>, name: Seq<char>, i: int)
    ensures
        0 <= i < sealed.len() && sealed[i].kind == EntryKind::Speech ==> session::speaks(
            sealed,
            sealed[i].speaker,
        ),
        session::speaks(sealed, name) ==> exists|j: int|
            0 <= j < sealed.len() && (#[trigger] sealed[j]).speaker == name && sealed[j].kind
                == EntryKind::Speech,
{
}

// ---------------------------------------------------------------------------
// What keeps an entry open
// ---------------------------------------------------------------------------

/// Every fragment, original or translated, keeps its turn alive: the idle time is
/// counted from it, and it is dated by the newest audio.
pub proof fn fragments_keep_turns_alive(m: MeetingModel, s: Seq<char>, now_ms: u64)
    ensures
        m.on_live(Some(LiveModel::Original(s)), now_ms).0.last_fragment_ms == m.last_chunk_ms,
        m.on_live(Some(LiveModel::Translated(s)), now_ms).0.last_fragment_ms == m.last_chunk_ms,
        m.on_live(Some(LiveModel::Original(s)), now_ms).0.last_chunk_ms == m.last_chunk_ms,
        m.turns.open is None && !m.rotate_pending ==> (m.on_live(
            Some(LiveModel::Original(s)),
            now_ms,
        ).0.turns.open matches Some(e) && e.start_ms == m.last_chunk_ms && e.original == s),
{
    if m.turns.open is None && !m.rotate_pending {
        assert(m.turns.open_original().len() == 0);
        assert(m.turns.opened(m.last_chunk_ms).original + s =~= s);
    }
}

/// An entry of less than twelve characters is split neither by a change of language
/// nor by its length nor by a change of speaker: it reads fine on one line.
pub proof fn short_entries_stay_whole(m: MeetingModel, s: Seq<char>)
    requires
        m.turns.open is Some,
        m.turns.open->0.original.len() < 12,
        !m.rotate_pending,
    ensures
        m.on_original(s).0.turns.open_original() == m.turns.open->0.original + s,
        m.on_original(s).0.turns.closing == m.turns.closing,
        m.on_original(s).0.sealed == m.sealed,
        m.on_boundary() == m,
        !m.overlong(),
{
}

} // verus!
