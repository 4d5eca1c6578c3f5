//! What holds of the meeting files.
use vstd::prelude::*;
use crate::path::PathModel;
use crate::store;
use crate::store::StartTime;
use crate::text;
use crate::text_laws;
use crate::timeline;
use crate::timeline::{EntryKind, EntryModel};
use crate::timeline_laws;

verus! {

// ---------------------------------------------------------------------------
// Timestamps
// ---------------------------------------------------------------------------

proof fn stamp_shape(ms: nat)
    ensures
        timeline::stamp(ms).len() >= 7,
        timeline::stamp(ms)[0] == '[',
        timeline::stamp(ms).last() == ']',
        store::is_clock(timeline::stamp(ms).subrange(1, timeline::stamp(ms).len() - 1)),
{
    let s = ms / 1000;
    let m = text::two_digits((s % 3600) / 60);
    let c = text::two_digits(s % 60);
    text_laws::two_digits_shape((s % 3600) / 60);
    text_laws::two_digits_shape(s % 60);
    text_laws::decimal_is_digits(s / 3600);
    let d = text::decimal(s / 3600);
    let t = timeline::stamp(ms);
    let u = t.subrange(1, t.len() - 1);
    if s / 3600 > 0 {
        assert(u =~= d + seq![':'] + m + seq![':'] + c);
        assert forall|i: int| 0 <= i < u.len() - 6 implies store::is_digit(#[trigger] u[i]) by {
            assert(u[i] == d[i]);
            assert(text_laws::is_digit(d[i]));
        }
    } else {
        assert(u =~= m + seq![':'] + c);
    }
}

proof fn clock_chars(t: Seq<char>, i: int)
    requires
        store::is_clock(t),
        0 <= i < t.len(),
    ensures
        store::is_digit(t[i]) || t[i] == ':',
{
    if i < t.len() - 6 {
        assert(store::is_digit(t[i]));
    }
}

/// A line that begins with a timestamp loses the timestamp and the space
/// behind it, and keeps the rest.
pub proof fn stamp_is_stripped(ms: nat, rest: Seq<char>)
    ensures
        store::stripped_line(timeline::stamp(ms) + rest) == text::trim_start_of(rest),
{
    stamp_shape(ms);
    let t = timeline::stamp(ms);
    let line = t + rest;
    let close = t.len() - 1;
    let inner = t.subrange(1, close);
    assert forall|k: int| 0 <= k < close implies line[k] != ']' by {
        if k > 0 {
            clock_chars(inner, k - 1);
            assert(inner[k - 1] == line[k]);
        }
    }
    text::lemma_position_is(line, ']', close);
    assert(line.subrange(1, close) =~= inner);
    assert(line.skip(t.len() as int) =~= rest);
}

/// Stripping touches nothing behind the timestamp: a line stays as it is, or
/// what is dropped is a bracketed `mm:ss` or `h:mm:ss` and white space.
pub proof fn stripping_keeps_content(line: Seq<char>)
    ensures
        store::stamp_len(line) <= line.len(),
        text::ink(store::stripped_line(line)) == text::ink(line.skip(store::stamp_len(line) as int)),
        store::stamp_len(line) > 0 ==> {
            let n = store::stamp_len(line) as int;
            line[0] == '[' && store::is_clock(line.subrange(1, n - 1)) && line[n - 1] == ']'
        },
        store::stamp_len(line) == 0 ==> store::stripped_line(line) == line,
{
    text::lemma_position(line, ']');
    if store::stamp_len(line) > 0 {
        text_laws::trim_start_keeps_ink(line.skip(store::stamp_len(line) as int));
    } else {
        assert(line.skip(0) =~= line);
    }
}

/// A bracket that holds no colon is no timestamp, whatever its digits: the line
/// stays as it is.
pub proof fn bare_numbers_stay(number: Seq<char>, rest: Seq<char>)
    requires
        forall|i: int| 0 <= i < number.len() ==> store::is_digit(#[trigger] number[i]),
    ensures
        store::stripped_line(seq!['['] + number + seq![']'] + rest) == seq!['['] + number
            + seq![']'] + rest,
{
    let line = seq!['['] + number + seq![']'] + rest;
    let close = number.len() + 1;
    assert forall|k: int| 0 <= k < close implies line[k] != ']' by {
        if k > 0 {
            assert(line[k] == number[k - 1]);
            assert(store::is_digit(number[k - 1]));
        }
    }
    text::lemma_position_is(line, ']', close as int);
    let inner = line.subrange(1, close as int);
    assert(inner =~= number);
    if store::is_clock(inner) {
        assert(store::is_digit(number[number.len() - 3]));
    }
}

// ---------------------------------------------------------------------------
// Names
// ---------------------------------------------------------------------------

proof fn without_dashes_part(s: Seq<char>)
    ensures
        ({
            let t = store::without_dashes(s);
            &&& t.len() > 0 ==> t[0] != '-' && t.last() != '-'
            &&& exists|i: int| text::occurs_at(s, t, i)
        }),
    decreases s.len(),
{
    let t = store::without_dashes(s);
    if s.len() > 0 && s[0] == '-' {
        without_dashes_part(s.drop_first());
        let i = choose|i: int| text::occurs_at(s.drop_first(), t, i);
        assert(s.subrange(i + 1, i + 1 + t.len()) =~= s.drop_first().subrange(i, i + t.len()));
        assert(text::occurs_at(s, t, i + 1));
    } else if s.len() > 0 && s.last() == '-' {
        without_dashes_part(s.drop_last());
        let i = choose|i: int| text::occurs_at(s.drop_last(), t, i);
        assert(s.subrange(i, i + t.len()) =~= s.drop_last().subrange(i, i + t.len()));
        assert(text::occurs_at(s, t, i));
    } else {
        assert(s.subrange(0, s.len() as int) =~= s);
        assert(text::occurs_at(s, t, 0));
    }
}

/// A title in a file name holds letters, numbers, dashes and underscores only,
/// and neither begins nor ends with a dash.
pub proof fn titles_are_safe(title: Seq<char>)
    ensures
        ({
            let t = store::safe_title(title);
            &&& forall|i: int|
                0 <= i < t.len() ==> store::alphanumeric(#[trigger] t[i]) || t[i] == '-' || t[i]
                    == '_'
            &&& t.len() > 0 ==> t[0] != '-' && t.last() != '-'
        }),
{
    let mapped = text::trimmed(title).map_values(|c: char| store::safe_char(c));
    let t = store::safe_title(title);
    without_dashes_part(mapped);
    let k = choose|k: int| text::occurs_at(mapped, t, k);
    assert forall|i: int| 0 <= i < t.len() implies store::alphanumeric(#[trigger] t[i]) || t[i]
        == '-' || t[i] == '_' by {
        assert(mapped.subrange(k, k + t.len())[i] == mapped[k + i]);
        assert(mapped[k + i] == store::safe_char(text::trimmed(title)[k + i]));
    }
}

/// A title that is safe stays as it is: cleaning it again changes nothing. This
/// rests on no letter or number of the title being white space, which
/// [`store::sanitize_title`] learns of each of them.
pub proof fn safe_titles_stay(title: Seq<char>)
    ensures
        (forall|i: int|
            0 <= i < text::trimmed(title).len() && store::alphanumeric(
                #[trigger] text::trimmed(title)[i],
            ) ==> !text::is_white_space(text::trimmed(title)[i])) ==> {
            let t = store::safe_title(title);
            &&& store::safe_title(t) == t
            &&& forall|i: int| 0 <= i < t.len() ==> !text::is_white_space(#[trigger] t[i])
        },
{
    let trimmed = text::trimmed(title);
    if forall|i: int|
        0 <= i < trimmed.len() && store::alphanumeric(#[trigger] trimmed[i])
            ==> !text::is_white_space(trimmed[i]) {
        let mapped = trimmed.map_values(|c: char| store::safe_char(c));
        let t = store::safe_title(title);
        without_dashes_part(mapped);
        titles_are_safe(title);
        let k = choose|k: int| text::occurs_at(mapped, t, k);
        assert forall|i: int| 0 <= i < t.len() implies !text::is_white_space(#[trigger] t[i]) by {
            assert(mapped.subrange(k, k + t.len())[i] == mapped[k + i]);
            assert(mapped[k + i] == store::safe_char(trimmed[k + i]));
        }
        assert(text::trimmed(t) == t) by {
            if t.len() > 0 {
                assert(!text::is_white_space(t[0]));
                assert(!text::is_white_space(t[t.len() - 1]));
            }
        }
        assert(t.map_values(|c: char| store::safe_char(c)) =~= t);
    }
}

proof fn four_digits_shape(n: nat)
    requires
        n <= 9999,
    ensures
        store::four_digits(n).len() == 4,
{
    reveal_with_fuel(text::decimal, 5);
}

/// Renaming a meeting keeps the date and time at the beginning of its files.
pub proof fn renaming_keeps_the_date(t: StartTime, attempt: nat, title: Seq<char>)
    requires
        t.valid(),
        0 <= t.year <= 9999,
    ensures
        store::renamed_stem(store::attempt_stem(t, attempt), title) == t.stem_text() + "-"@
            + store::safe_title(title),
{
    four_digits_shape(t.year as nat);
    text_laws::two_digits_shape(t.month as nat);
    text_laws::two_digits_shape(t.day as nat);
    text_laws::two_digits_shape(t.hour as nat);
    text_laws::two_digits_shape(t.minute as nat);
    assert(t.stem_text().len() == 15);
    assert(store::attempt_stem(t, attempt).take(15) =~= t.stem_text());
}

proof fn last_char(stem: Seq<char>, tail: Seq<char>, k: int)
    requires
        0 <= k < tail.len(),
    ensures
        (stem + tail)[stem.len() + tail.len() - 1 - k] == tail[tail.len() - 1 - k],
{
}

/// A rename gives the files of a meeting names that differ from each other and
/// from all of their former names: no file of the meeting is overwritten.
pub proof fn moves_do_not_collide(m: store::StoreModel, title: Seq<char>)
    requires
        store::renamed_stem(m.stem, title) != m.stem,
    ensures
        ({
            let moves = m.moves(m.retitled(title));
            forall|i: int, j: int|
                #![trigger moves[i], moves[j]]
                0 <= i < 5 && 0 <= j < 5 ==> moves[i].1 != moves[j].0 && (i != j ==> moves[i].1
                    != moves[j].1)
        }),
{
    reveal_strlit("-raw.md");
    reveal_strlit("-polished.md");
    reveal_strlit("-raw-no-timestamps.md");
    reveal_strlit(".journal.json");
    reveal_strlit(".wav");
    let to = m.retitled(title);
    let moves = m.moves(to);
    let tails = seq![
        "-raw.md"@,
        "-polished.md"@,
        "-raw-no-timestamps.md"@,
        ".journal.json"@,
        ".wav"@,
    ];
    assert forall|i: int, j: int| #![trigger moves[i], moves[j]] 0 <= i < 5 && 0 <= j < 5 implies
        moves[i].1 != moves[j].0 && (i != j ==> moves[i].1 != moves[j].1) by {
        let a = moves[i].1.names.last();
        let b = moves[j].0.names.last();
        let c = moves[j].1.names.last();
        assert(a == to.stem + tails[i]);
        assert(b == m.stem + tails[j]);
        assert(c == to.stem + tails[j]);
        if i == j {
            if a == b {
                assert(a.take(a.len() - tails[i].len()) =~= to.stem);
                assert(b.take(b.len() - tails[i].len()) =~= m.stem);
            }
        } else {
            last_char(to.stem, tails[i], 0);
            last_char(m.stem, tails[j], 0);
            last_char(to.stem, tails[j], 0);
            last_char(to.stem, tails[i], 3);
            last_char(m.stem, tails[j], 3);
            last_char(to.stem, tails[j], 3);
            assert(a != b);
            assert(a != c);
        }
    }
}

// ---------------------------------------------------------------------------
// Speakers
// ---------------------------------------------------------------------------

proof fn one_rename_is_replacing(s: Seq<char>, old_name: Seq<char>, new_name: Seq<char>)
    requires
        !text::is_blank(old_name),
        !text::is_blank(new_name),
    ensures
        store::renamed(s, seq![(old_name, new_name)]) == text::replaced(
            s,
            store::label_text(old_name),
            store::label_text(text::trimmed(new_name)),
        ),
    decreases s.len(),
{
    let one = seq![(old_name, new_name)];
    let from = store::label_text(old_name);
    store::lemma_rename_at(s, one);
    assert(from.len() > 0);
    if s.len() > 0 {
        if text::starts(s, from) {
            assert(store::renames_here(s, one[0]));
            one_rename_is_replacing(s.skip(from.len() as int), old_name, new_name);
        } else {
            one_rename_is_replacing(s.drop_first(), old_name, new_name);
            if s.len() < from.len() {
                let rest = s.drop_first();
                assert(text::replaced(rest, from, store::label_text(text::trimmed(new_name)))
                    == rest);
                assert(seq![s[0]] + rest =~= s);
            }
        }
    }
}

/// Renaming one speaker cuts the transcript at the speaker's bold labels and
/// puts the new label in their place; the text between stays as it is.
pub proof fn renaming_touches_labels_only(
    s: Seq<char>,
    old_name: Seq<char>,
    new_name: Seq<char>,
) -> (pieces: Seq<Seq<char>>)
    requires
        !text::is_blank(old_name),
        !text::is_blank(new_name),
    ensures
        text_laws::cut_at(s, store::label_text(old_name), pieces),
        store::renamed(s, seq![(old_name, new_name)]) == text::joined(
            pieces,
            store::label_text(text::trimmed(new_name)),
        ),
{
    one_rename_is_replacing(s, old_name, new_name);
    text_laws::replaced_in_pieces(
        s,
        store::label_text(old_name),
        store::label_text(text::trimmed(new_name)),
    )
}

/// Pieces of text with a label behind each: the old one of the pair that
/// `used` names, or the new one.
pub open spec fn woven(
    pieces: Seq<Seq<char>>,
    used: Seq<int>,
    renames: Seq<(Seq<char>, Seq<char>)>,
    new: bool,
) -> Seq<char>
    decreases pieces.len(),
{
    if pieces.len() == 0 {
        Seq::empty()
    } else {
        let (from, to) = renames[used[0]];
        pieces[0] + store::label_text(
            if new {
                text::trimmed(to)
            } else {
                from
            },
        ) + woven(pieces.drop_first(), used.drop_first(), renames, new)
    }
}

/// Renaming takes labels of the text and puts that of their own pair in their
/// place, each once; the text between and after them stays as it is.
pub proof fn labels_get_their_own_name(
    s: Seq<char>,
    renames: Seq<(Seq<char>, Seq<char>)>,
) -> (r: (Seq<Seq<char>>, Seq<int>, Seq<char>))
    ensures
        r.0.len() == r.1.len(),
        forall|i: int| 0 <= i < r.1.len() ==> 0 <= #[trigger] r.1[i] < renames.len(),
        s == woven(r.0, r.1, renames, false) + r.2,
        store::renamed(s, renames) == woven(r.0, r.1, renames, true) + r.2,
    decreases s.len(),
{
    let none: (Seq<Seq<char>>, Seq<int>, Seq<char>) = (Seq::empty(), Seq::empty(), s);
    if s.len() == 0 {
        assert(woven(none.0, none.1, renames, false) + s =~= s);
        assert(woven(none.0, none.1, renames, true) + s =~= s);
        none
    } else {
        store::lemma_rename_at(s, renames);
        match store::rename_at(s, renames) {
            Some(k) => {
                let from = store::label_text(renames[k].0);
                let to = store::label_text(text::trimmed(renames[k].1));
                let n = from.len() as int;
                let q = labels_get_their_own_name(s.skip(n), renames);
                let r = (seq![Seq::<char>::empty()] + q.0, seq![k] + q.1, q.2);
                assert(r.0.drop_first() =~= q.0);
                assert(r.1.drop_first() =~= q.1);
                assert forall|i: int| 0 <= i < r.1.len() implies 0 <= #[trigger] r.1[i]
                    < renames.len() by {
                    if i > 0 {
                        assert(r.1[i] == q.1[i - 1]);
                    }
                }
                assert(s =~= from + s.skip(n));
                assert(woven(r.0, r.1, renames, false) + r.2 =~= from + (woven(
                    q.0,
                    q.1,
                    renames,
                    false,
                ) + q.2));
                assert(woven(r.0, r.1, renames, true) + r.2 =~= to + (woven(
                    q.0,
                    q.1,
                    renames,
                    true,
                ) + q.2));
                r
            },
            None => {
                let c = seq![s[0]];
                let q = labels_get_their_own_name(s.drop_first(), renames);
                assert(s =~= c + s.drop_first());
                if q.0.len() == 0 {
                    let r = (q.0, q.1, c + q.2);
                    assert(woven(r.0, r.1, renames, false) + r.2 =~= c + (woven(
                        q.0,
                        q.1,
                        renames,
                        false,
                    ) + q.2));
                    assert(woven(r.0, r.1, renames, true) + r.2 =~= c + (woven(
                        q.0,
                        q.1,
                        renames,
                        true,
                    ) + q.2));
                    r
                } else {
                    let r = (seq![c + q.0[0]] + q.0.drop_first(), q.1, q.2);
                    assert(r.0.drop_first() =~= q.0.drop_first());
                    assert(woven(r.0, r.1, renames, false) + r.2 =~= c + (woven(
                        q.0,
                        q.1,
                        renames,
                        false,
                    ) + q.2));
                    assert(woven(r.0, r.1, renames, true) + r.2 =~= c + (woven(
                        q.0,
                        q.1,
                        renames,
                        true,
                    ) + q.2));
                    r
                }
            },
        }
    }
}

/// A name that can stand in a bold label without ending it.
pub open spec fn is_plain_name(name: Seq<char>) -> bool {
    !text::is_blank(name) && text::trimmed(name) == name && !name.contains('*')
}

proof fn labels_differ(a: Seq<char>, b: Seq<char>, rest: Seq<char>)
    requires
        is_plain_name(a),
        is_plain_name(b),
        a != b,
    ensures
        !text::starts(store::label_text(a) + rest, store::label_text(b)),
{
    reveal_strlit("**");
    let s = store::label_text(a) + rest;
    let l = store::label_text(b);
    if text::starts(s, l) {
        assert forall|i: int| 0 <= i < l.len() implies #[trigger] l[i] == s[i] by {
            assert(s.subrange(0, l.len() as int)[i] == s[i]);
        }
        if b.len() < a.len() {
            assert(l[b.len() as int + 2] == '*');
            assert(s[b.len() as int + 2] == a[b.len() as int]);
            assert(a.contains('*'));
        } else if a.len() < b.len() {
            assert(s[a.len() as int + 2] == '*');
            assert(l[a.len() as int + 2] == b[a.len() as int]);
            assert(b.contains('*'));
        } else {
            assert forall|i: int| 0 <= i < a.len() implies a[i] == b[i] by {
                assert(l[i + 2] == b[i]);
                assert(s[i + 2] == a[i]);
            }
            assert(a =~= b);
        }
    }
}

proof fn plain_text_stays(
    plain: Seq<char>,
    rest: Seq<char>,
    renames: Seq<(Seq<char>, Seq<char>)>,
)
    requires
        !plain.contains('*'),
    ensures
        store::renamed(plain + rest, renames) == plain + store::renamed(rest, renames),
    decreases plain.len(),
{
    reveal_strlit("**");
    if plain.len() == 0 {
        assert(plain + rest =~= rest);
        assert(plain + store::renamed(rest, renames) =~= store::renamed(rest, renames));
    } else {
        let s = plain + rest;
        store::lemma_rename_at(s, renames);
        assert(s[0] == plain[0]);
        if let Some(k) = store::rename_at(s, renames) {
            let l = store::label_text(renames[k].0);
            assert(l[0] == '*');
            assert(s.subrange(0, l.len() as int)[0] == s[0]);
            assert(plain.contains('*'));
        }
        let tail = plain.drop_first();
        assert forall|i: int| 0 <= i < tail.len() implies tail[i] != '*' by {
            assert(tail[i] == plain[i + 1]);
        }
        plain_text_stays(tail, rest, renames);
        assert(s.drop_first() =~= tail + rest);
        assert(seq![s[0]] + (tail + store::renamed(rest, renames)) =~= plain + store::renamed(
            rest,
            renames,
        ));
    }
}

/// Two speakers can swap names: each label becomes the other one.
pub proof fn names_can_be_swapped(a: Seq<char>, b: Seq<char>, between: Seq<char>)
    requires
        is_plain_name(a),
        is_plain_name(b),
        a != b,
        !between.contains('*'),
    ensures
        store::renamed(
            store::label_text(a) + between + store::label_text(b),
            seq![(a, b), (b, a)],
        ) == store::label_text(b) + between + store::label_text(a),
{
    let renames = seq![(a, b), (b, a)];
    let la = store::label_text(a);
    let lb = store::label_text(b);
    let s = la + between + lb;
    store::lemma_rename_at(s, renames);
    assert(s.subrange(0, la.len() as int) =~= la);
    assert(store::renames_here(s, renames[0]));
    assert(store::rename_at(s, renames) == Some(0int));
    assert(s.skip(la.len() as int) =~= between + lb);
    plain_text_stays(between, lb, renames);
    store::lemma_rename_at(lb, renames);
    labels_differ(b, a, Seq::empty());
    assert(lb + Seq::<char>::empty() =~= lb);
    assert(lb.subrange(0, lb.len() as int) =~= lb);
    assert(!store::renames_here(lb, renames[0]));
    assert(store::renames_here(lb, renames[1]));
    assert(store::rename_at(lb, renames) == Some(1int));
    assert(lb.skip(lb.len() as int) =~= Seq::empty());
    assert(store::renamed(Seq::empty(), renames) == Seq::<char>::empty());
    assert(la + Seq::<char>::empty() =~= la);
    assert(store::renamed(lb, renames) == la);
    assert(store::renamed(s, renames) == lb + (between + la));
    assert(lb + (between + la) =~= lb + between + la);
}

/// The polished file, the copy without timestamps and the recording are files of
/// their own: none of them is the raw transcript, nor another.
pub proof fn copies_are_separate(m: store::StoreModel)
    requires
        m.wf(),
    ensures
        m.polished() != m.raw_path,
        m.export() != m.raw_path,
        m.export() != m.polished(),
        m.audio() != m.raw_path,
        m.audio() != m.polished(),
        m.audio() != m.export(),
{
    reveal_strlit("-raw.md");
    reveal_strlit("-polished.md");
    reveal_strlit("-raw-no-timestamps.md");
    reveal_strlit(".wav");
    assert(m.audio().names.last() == m.stem + ".wav"@);
    let raw = m.stem + "-raw.md"@;
    let polished = m.stem + "-polished.md"@;
    let export = m.stem + "-raw-no-timestamps.md"@;
    assert(raw.len() < polished.len() < export.len());
    assert(m.raw_path.names.last() == raw);
    assert(m.polished().names.last() == polished);
    assert(m.export().names.last() == export);
}

/// The names of the files of a meeting begin with the date and time of its
/// start.
pub proof fn files_begin_with_the_start(
    meetings_dir: PathModel,
    recovery_dir: PathModel,
    t: StartTime,
    target_language: Seq<char>,
    attempt: nat,
)
    ensures
        ({
            let m = store::StoreModel::created(
                meetings_dir,
                recovery_dir,
                t,
                target_language,
                attempt,
            );
            &&& m.wf()
            &&& text::starts(m.stem, t.stem_text())
            &&& m.raw_path == meetings_dir.joined(m.stem + "-raw.md"@)
            &&& m.polished() == meetings_dir.joined(m.stem + "-polished.md"@)
            &&& m.export() == meetings_dir.joined(m.stem + "-raw-no-timestamps.md"@)
            &&& m.audio() == meetings_dir.joined("audio"@).joined(m.stem + ".wav"@)
        }),
{
    let stem = store::attempt_stem(t, attempt);
    let p = t.stem_text();
    assert(stem.subrange(0, p.len() as int) =~= p);
}

// ---------------------------------------------------------------------------
// Blocks
// ---------------------------------------------------------------------------

proof fn part_at(before: Seq<char>, part: Seq<char>, after: Seq<char>)
    ensures
        text::occurs_at(before + part + after, part, before.len() as int),
{
    let s = before + part + after;
    assert(s.subrange(before.len() as int, (before.len() + part.len()) as int) =~= part);
}

/// The block of a passage of speech begins with its time and its speaker in
/// bold. The whole original stands in it, translated or not, and after it the
/// whole translation where there is one.
pub proof fn blocks_hold_the_speech(e: EntryModel, target_language: Seq<char>) -> (at: (int, int))
    requires
        e.kind == EntryKind::Speech,
    ensures
        ({
            let block = store::entry_text(e, target_language);
            let head = timeline::stamp(e.start_ms as nat) + " **"@ + e.speaker + "**"@;
            let (i, j) = at;
            &&& text::starts(block, head)
            &&& head.len() <= i
            &&& text::occurs_at(block, e.original, i)
            &&& i + e.original.len() <= j
            &&& e.translated.len() > 0 ==> text::occurs_at(
                block,
                target_language + ": "@ + e.translated,
                j,
            )
            &&& e.translated.len() == 0 ==> text::occurs_at(
                block,
                "*(translation unavailable)*"@,
                j,
            )
        }),
{
    let block = store::entry_text(e, target_language);
    let stamp = timeline::stamp(e.start_ms as nat);
    let head = stamp + " **"@ + e.speaker + "**"@;
    reveal_strlit("**");
    reveal_strlit("**\n\nOriginal: ");
    reveal_strlit("*(translation unavailable)*");
    reveal_strlit("*(translation unavailable)*\n\n");
    let rest = if e.translated.len() > 0 {
        target_language + ": "@ + e.translated + "\n\n"@
    } else {
        "*(translation unavailable)*\n\n"@
    };
    let before = stamp + " **"@ + e.speaker + "**\n\nOriginal: "@;
    part_at(before, e.original, "\n\n"@ + rest);
    assert(before + e.original + ("\n\n"@ + rest) =~= block);
    assert(block.subrange(0, head.len() as int) =~= head);
    let till = before + e.original + "\n\n"@;
    if e.translated.len() > 0 {
        let part = target_language + ": "@ + e.translated;
        part_at(till, part, "\n\n"@);
        assert(till + part + "\n\n"@ =~= block);
    } else {
        let part = "*(translation unavailable)*"@;
        part_at(till, part, rest.skip(part.len() as int));
        assert(till + part + rest.skip(part.len() as int) =~= block);
    }
    (before.len() as int, till.len() as int)
}

/// Every visible character of an entry's speech and of its translation stands in
/// its block.
pub proof fn blocks_show_every_character(e: EntryModel, target_language: Seq<char>)
    requires
        e.kind == EntryKind::Speech,
    ensures
        text_laws::within(text::ink(e.original), text::ink(store::entry_text(e, target_language))),
        text_laws::within(text::ink(e.translated), text::ink(store::entry_text(e, target_language))),
{
    let block = store::entry_text(e, target_language);
    let (i, j) = blocks_hold_the_speech(e, target_language);
    text_laws::parts_are_within(
        block.take(i),
        e.original,
        block.skip(i + e.original.len()),
    );
    assert(block =~= block.take(i) + e.original + block.skip(i + e.original.len()));
    if e.translated.len() > 0 {
        let part = target_language + ": "@ + e.translated;
        let before = block.take(j) + (target_language + ": "@);
        let after = block.skip(j + part.len());
        text_laws::parts_are_within(before, e.translated, after);
        assert(block =~= block.take(j) + part + after);
        assert(block =~= before + e.translated + after);
    } else {
        text_laws::ink_of_blank(e.translated);
    }
}

/// The block of a gap begins with the time at which it begins and names the time
/// at which it ends.
pub proof fn blocks_hold_the_gap(e: EntryModel, target_language: Seq<char>)
    requires
        e.kind == EntryKind::Gap,
    ensures
        ({
            let block = store::entry_text(e, target_language);
            let from = timeline::stamp(e.start_ms as nat);
            &&& text::starts(block, from)
            &&& text::occurs_at(
                block,
                timeline::stamp(e.end_ms as nat),
                (from.len() + " — "@.len()) as int,
            )
        }),
{
    let block = store::entry_text(e, target_language);
    let from = timeline::stamp(e.start_ms as nat);
    let to = timeline::stamp(e.end_ms as nat);
    let rest = " *(transcription unavailable for this interval)*\n\n"@;
    part_at(from + " — "@, to, rest);
    assert(block.subrange(0, from.len() as int) =~= from);
}

/// The raw file begins with its title, and names the start and the language.
pub proof fn headers_name_the_meeting(m: store::MetaModel)
    ensures
        text::starts(store::header_text(m), "# "@ + m.title),
        text::occurs(store::header_text(m), "Started: "@ + m.started_at),
        text::occurs(store::header_text(m), "Target language: "@ + m.target_language),
{
    let h = store::header_text(m);
    reveal_strlit("\n\n- Started: ");
    reveal_strlit("Started: ");
    reveal_strlit("\n- Target language: ");
    reveal_strlit("Target language: ");
    let title = "# "@ + m.title;
    let a = "\n\n- Started: "@;
    let b = "\n- Target language: "@;
    let end = "\n\n---\n\n"@;
    assert(h.subrange(0, title.len() as int) =~= title);
    let before = title + a.take(4);
    let part = "Started: "@ + m.started_at;
    part_at(before, part, b + m.target_language + end);
    assert(before + part + (b + m.target_language + end) =~= h);
    let till = title + a + m.started_at + b.take(3);
    let lang = "Target language: "@ + m.target_language;
    part_at(till, lang, end);
    assert(till + lang + end =~= h);
}

// ---------------------------------------------------------------------------
// Recovery
// ---------------------------------------------------------------------------

/// Text `a` stands in `s`, and after it text `b`.
pub open spec fn in_order(s: Seq<char>, a: Seq<char>, b: Seq<char>) -> bool {
    exists|i: int, j: int|
        #[trigger] text::occurs_at(s, a, i) && #[trigger] text::occurs_at(s, b, j) && i + a.len() <= j
}

/// A recovered block begins with the time of the interrupted passage. Its
/// original stands in it whole, and after it its whole translation.
pub proof fn recovered_blocks_hold_both_texts(
    start_ms: u64,
    original: Seq<char>,
    translated: Seq<char>,
)
    ensures
        ({
            let block = store::recovered_text(start_ms, original, translated);
            &&& text::starts(block, timeline::stamp(start_ms as nat))
            &&& in_order(block, text::trimmed(original), text::trimmed(translated))
            &&& text_laws::within(text::ink(original) + text::ink(translated), text::ink(block))
        }),
{
    let block = store::recovered_text(start_ms, original, translated);
    let stamp = timeline::stamp(start_ms as nat);
    let o = text::trimmed(original);
    let t = text::trimmed(translated);
    let before = stamp + " **Meeting** *(recovered after interruption)*\n\nOriginal: "@;
    let between = "\n\nTranslation: "@;
    let after = "\n\n"@;
    part_at(before, o, between + t + after);
    assert(before + o + (between + t + after) =~= block);
    part_at(before + o + between, t, after);
    assert(block.subrange(0, stamp.len() as int) =~= stamp);
    assert(in_order(block, o, t));
    let none = Seq::<char>::empty();
    text_laws::trim_keeps_ink(original);
    text_laws::trim_keeps_ink(translated);
    text_laws::parts_are_within(before, o, none);
    text_laws::parts_are_within(between, t, after);
    assert(before + o + none =~= before + o);
    text_laws::within_joined(
        text::ink(o),
        text::ink(before + o),
        text::ink(t),
        text::ink(between + t + after),
    );
    text_laws::ink_of_join(before + o, between + t + after);
    assert((before + o) + (between + t + after) =~= block);
}

/// A journal without text has no visible character of either language.
pub proof fn blank_journals_hold_nothing(j: store::RecoveryJournal)
    ensures
        j.has_text() <==> text::ink(j.open_original@).len() + text::ink(j.open_translated@).len() > 0,
{
    text_laws::ink_of_blank(j.open_original@);
    text_laws::ink_of_blank(j.open_translated@);
}

// ---------------------------------------------------------------------------
// Dates
// ---------------------------------------------------------------------------

/// A year has 365 days, and one more in every fourth year, except in those of a
/// full century that 400 does not divide.
pub proof fn years_have_their_days(year: int)
    ensures
        store::days_in(year, 1) + store::days_in(year, 2) + store::days_in(year, 3)
            + store::days_in(year, 4) + store::days_in(year, 5) + store::days_in(year, 6)
            + store::days_in(year, 7) + store::days_in(year, 8) + store::days_in(year, 9)
            + store::days_in(year, 10) + store::days_in(year, 11) + store::days_in(year, 12)
            == if year % 400 == 0 || (year % 4 == 0 && year % 100 != 0) {
            366int
        } else {
            365int
        },
{
}

proof fn four_digits_value(n: nat)
    requires
        n <= 9999,
    ensures
        store::four_digits(n).len() == 4,
        timeline_laws::digits_value(store::four_digits(n)) == n,
{
    four_digits_shape(n);
    timeline_laws::decimal_value(n);
    let d = text::decimal(n);
    let zeros = store::four_digits(n).take(4 - d.len() as int);
    assert(store::four_digits(n) =~= zeros + d);
    leading_zeros(zeros, d);
}

proof fn leading_zeros(zeros: Seq<char>, d: Seq<char>)
    requires
        forall|i: int| 0 <= i < zeros.len() ==> zeros[i] == '0',
    ensures
        timeline_laws::digits_value(zeros + d) == timeline_laws::digits_value(d),
    decreases zeros.len() + d.len(),
{
    let all = zeros + d;
    if d.len() > 0 {
        leading_zeros(zeros, d.drop_last());
        assert(all.drop_last() =~= zeros + d.drop_last());
        assert(all.last() == d.last());
    } else if zeros.len() > 0 {
        leading_zeros(zeros.drop_last(), d);
        assert(all.drop_last() =~= zeros.drop_last() + d);
        assert(all.last() == '0');
    }
}

/// The start of a meeting is read back from the time that its file shows and from
/// the name of its file.
pub proof fn starts_are_read_back(t: StartTime)
    requires
        t.valid(),
        0 <= t.year <= 9999,
    ensures
        ({
            let s = t.shown_text();
            let stem = t.stem_text();
            &&& s.len() == 16
            &&& timeline_laws::digits_value(s.take(4)) == t.year
            &&& timeline_laws::pair_value(s[5], s[6]) == t.month
            &&& timeline_laws::pair_value(s[8], s[9]) == t.day
            &&& timeline_laws::pair_value(s[11], s[12]) == t.hour
            &&& timeline_laws::pair_value(s[14], s[15]) == t.minute
            &&& s[4] == '-' && s[7] == '-' && s[10] == ' ' && s[13] == ':'
            &&& stem.len() == 15
            &&& stem.take(10) == s.take(10)
            &&& stem[10] == '_'
            &&& timeline_laws::pair_value(stem[11], stem[12]) == t.hour
            &&& timeline_laws::pair_value(stem[13], stem[14]) == t.minute
        }),
{
    four_digits_value(t.year as nat);
    text_laws::two_digits_shape(t.month as nat);
    text_laws::two_digits_shape(t.day as nat);
    text_laws::two_digits_shape(t.hour as nat);
    text_laws::two_digits_shape(t.minute as nat);
    let s = t.shown_text();
    assert(s.take(4) =~= store::four_digits(t.year as nat));
    assert(s.take(10) =~= t.date_text());
    assert(t.stem_text().take(10) =~= t.date_text());
}

// ---------------------------------------------------------------------------
// Files
// ---------------------------------------------------------------------------

/// Renaming a meeting moves each of its files to the place that the file has under
/// the new name: transcript, polished notes, copy without timestamps, journal and
/// recording.
pub proof fn renaming_moves_every_file(m: store::StoreModel, title: Seq<char>)
    requires
        m.wf(),
    ensures
        ({
            let n = m.retitled(title);
            let moves = m.moves(n);
            &&& moves.len() == 5
            &&& moves.contains((m.raw_path, n.raw_path))
            &&& moves.contains((m.polished(), n.polished()))
            &&& moves.contains((m.export(), n.export()))
            &&& moves.contains((m.journal(), n.journal()))
            &&& moves.contains((m.audio(), n.audio()))
            &&& n.meta.title == title
            &&& n.meta.started_at == m.meta.started_at
            &&& n.meta.target_language == m.meta.target_language
        }),
{
    let moves = m.moves(m.retitled(title));
    assert(moves.contains(moves[0]));
    assert(moves.contains(moves[1]));
    assert(moves.contains(moves[2]));
    assert(moves.contains(moves[3]));
    assert(moves.contains(moves[4]));
}

/// A copy without timestamps holds every line of the transcript, each without its
/// timestamp.
pub proof fn copies_keep_every_line(markdown: Seq<char>, i: int)
    requires
        0 <= i < text::lines_of(markdown).len(),
    ensures
        text::occurs(store::stripped(markdown), store::stripped_line(text::lines_of(markdown)[i])),
{
    let parts = text::lines_of(markdown).map_values(|l: Seq<char>| store::stripped_line(l));
    text_laws::joined_parts_are_kept(parts, "\n"@, i);
    assert(parts[i] == store::stripped_line(text::lines_of(markdown)[i]));
}

/// The block of a passage keeps its speaker and its text in the copy: the line
/// with the timestamp becomes the bold speaker.
pub proof fn copies_keep_the_speaker(e: EntryModel)
    ensures
        store::stripped_line(timeline::stamp(e.start_ms as nat) + " **"@ + e.speaker + "**"@)
            == "**"@ + e.speaker + "**"@,
{
    reveal_strlit(" **");
    reveal_strlit("**");
    let stamp = timeline::stamp(e.start_ms as nat);
    let rest = " **"@ + e.speaker + "**"@;
    assert(stamp + " **"@ + e.speaker + "**"@ =~= stamp + rest);
    stamp_is_stripped(e.start_ms as nat, rest);
    let label = "**"@ + e.speaker + "**"@;
    assert(rest.drop_first() =~= label);
    assert(rest[0] == ' ' && label[0] == '*');
    reveal_with_fuel(text::trim_start_of, 2);
}

/// The letters and numbers of a text, without dashes and underscores.
pub open spec fn letters_in(s: Seq<char>) -> Seq<char>
    decreases s.len(),
{
    if s.len() == 0 {
        Seq::empty()
    } else if store::alphanumeric(s.last()) && s.last() != '-' && s.last() != '_' {
        letters_in(s.drop_last()).push(s.last())
    } else {
        letters_in(s.drop_last())
    }
}

proof fn letters_of_first(s: Seq<char>)
    requires
        s.len() > 0,
        s[0] == '-',
    ensures
        letters_in(s.drop_first()) == letters_in(s),
    decreases s.len(),
{
    if s.len() == 1 {
        assert(s.drop_first() =~= s.drop_last());
    } else {
        assert(s.drop_first().drop_last() =~= s.drop_last().drop_first());
        letters_of_first(s.drop_last());
    }
}

proof fn dashes_are_no_letters(s: Seq<char>)
    ensures
        letters_in(store::without_dashes(s)) == letters_in(s),
    decreases s.len(),
{
    if s.len() > 0 && s[0] == '-' {
        letters_of_first(s);
        dashes_are_no_letters(s.drop_first());
    } else if s.len() > 0 && s.last() == '-' {
        dashes_are_no_letters(s.drop_last());
    }
}

proof fn safe_letters(s: Seq<char>)
    ensures
        letters_in(s.map_values(|c: char| store::safe_char(c))) == letters_in(s),
    decreases s.len(),
{
    let t = s.map_values(|c: char| store::safe_char(c));
    if s.len() > 0 {
        safe_letters(s.drop_last());
        assert(t.drop_last() =~= s.drop_last().map_values(|c: char| store::safe_char(c)));
        assert(t.last() == store::safe_char(s.last()));
    }
}

/// A title keeps every letter and number in the name of its file, in order.
pub proof fn titles_keep_their_letters(title: Seq<char>)
    ensures
        letters_in(store::safe_title(title)) == letters_in(text::trimmed(title)),
{
    let t = text::trimmed(title);
    safe_letters(t);
    dashes_are_no_letters(t.map_values(|c: char| store::safe_char(c)));
}

/// Two meetings that start in one minute get different files.
pub proof fn attempts_have_their_own_file(t: StartTime, a: nat, b: nat)
    requires
        1 <= a < b,
    ensures
        store::raw_name_of(t, a) != store::raw_name_of(t, b),
        store::attempt_stem(t, a) != store::attempt_stem(t, b),
{
    let x = store::attempt_stem(t, a);
    let y = store::attempt_stem(t, b);
    let stem = t.stem_text();
    reveal_strlit("-untitled");
    reveal_strlit("-untitled-");
    text_laws::decimal_is_digits(b);
    assert(x != y) by {
        if a == 1 {
            assert(x.len() < y.len());
        } else {
            let from = (stem + "-untitled-"@).len() as int;
            assert(x.skip(from) =~= text::decimal(a));
            assert(y.skip(from) =~= text::decimal(b));
            if x == y {
                text_laws::decimal_injective(a, b);
            }
        }
    }
    let p = store::raw_name_of(t, a);
    let q = store::raw_name_of(t, b);
    assert(p.take(x.len() as int) =~= x);
    assert(q.take(y.len() as int) =~= y);
    if p == q {
        assert(x.len() == y.len());
    }
}

/// The journal of a meeting is recognized by its name.
pub proof fn journals_are_recognized(m: store::StoreModel)
    ensures
        store::is_journal(m.journal().names.last()),
        m.journal().names.drop_last() == m.recovery_dir.names,
        m.journal().root == m.recovery_dir.root,
{
    reveal_strlit(".journal.json");
    reveal_strlit(".json");
    let name = m.stem + ".journal.json"@;
    assert(name.subrange(name.len() - 5, name.len() as int) =~= ".json"@);
    assert(m.journal().names.drop_last() =~= m.recovery_dir.names);
}

} // verus!
