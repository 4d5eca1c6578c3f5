//! What holds of languages: which text is taken for which, and what is read out.
use vstd::prelude::*;
use crate::lang;
use crate::lang::Script;
use crate::readout::GateModel;
use crate::text;

verus! {

// ---------------------------------------------------------------------------
// Scripts
// ---------------------------------------------------------------------------

/// Characters of the blocks that belong to one language are letters of it,
/// whatever else is known of them; of other characters only letters count, and
/// among these the marked ones are Vietnamese.
pub proof fn blocks_have_their_script(c: char)
    ensures
        lang::script_of(c) == Script::Kana <==> '\u{3040}' <= c <= '\u{30FF}',
        lang::script_of(c) == Script::Han <==> '\u{4E00}' <= c <= '\u{9FFF}' || '\u{3400}' <= c
            <= '\u{4DBF}',
        lang::script_of(c) == Script::Hangul <==> '\u{AC00}' <= c <= '\u{D7AF}' || '\u{1100}' <= c
            <= '\u{11FF}',
        lang::script_of(c) == Script::Thai <==> '\u{0E00}' <= c <= '\u{0E7F}',
        lang::script_of(c) == Script::Devanagari <==> '\u{0900}' <= c <= '\u{097F}',
        lang::script_of(c) == Script::Latin ==> lang::alphabetic(c)
            && !lang::VIETNAMESE_MARKERS@.contains(c),
        lang::script_of(c) == Script::Vietnamese ==> lang::alphabetic(c)
            && lang::VIETNAMESE_MARKERS@.contains(c),
        lang::script_of(c) == Script::Other ==> !lang::alphabetic(c),
{
}

/// The tag of a text in which only one script occurs.
pub open spec fn tag(k: Script) -> Option<Seq<char>> {
    match k {
        Script::Kana => Some("ja"@),
        Script::Han => Some("zh"@),
        Script::Hangul => Some("ko"@),
        Script::Thai => Some("th"@),
        Script::Devanagari => Some("hi"@),
        Script::Vietnamese => Some("vi"@),
        Script::Latin => Some("latin"@),
        Script::Other => None,
    }
}

proof fn tally_all_of(scripts: Seq<Script>, k: Script)
    requires
        forall|i: int| 0 <= i < scripts.len() ==> #[trigger] scripts[i] == k,
    ensures
        lang::tally(scripts, k) == scripts.len(),
        forall|j: Script| j != k ==> #[trigger] lang::tally(scripts, j) == 0,
    decreases scripts.len(),
{
    if scripts.len() > 0 {
        let rest = scripts.drop_last();
        tally_all_of(rest, k);
        assert forall|j: Script| j != k implies #[trigger] lang::tally(scripts, j) == 0 by {
            assert(lang::tally(rest, j) == 0);
        }
    }
}

proof fn tally_bound(scripts: Seq<Script>, k: Script)
    ensures
        lang::tally(scripts, k) <= scripts.len(),
    decreases scripts.len(),
{
    if scripts.len() > 0 {
        tally_bound(scripts.drop_last(), k);
    }
}

/// A text in one script has the language of that script.
pub proof fn one_script_is_one_language(s: Seq<char>, k: Script)
    requires
        s.len() > 0,
        forall|i: int| 0 <= i < s.len() ==> lang::script_of(#[trigger] s[i]) == k,
    ensures
        lang::detected(s) == tag(k),
{
    let ss = lang::scripts_of(s);
    assert forall|i: int| 0 <= i < ss.len() implies #[trigger] ss[i] == k by {
        assert(ss[i] == lang::script_of(s[i]));
    }
    tally_all_of(ss, k);
}

/// Where more than half of a text is in a script of its own language and no kana
/// is in the rest, the text has that language.
pub proof fn most_of_a_text_decides(a: Seq<char>, b: Seq<char>, k: Script)
    requires
        k == Script::Han || k == Script::Hangul || k == Script::Thai || k == Script::Devanagari,
        a.len() > b.len(),
        forall|i: int| 0 <= i < a.len() ==> lang::script_of(#[trigger] a[i]) == k,
        forall|i: int| 0 <= i < b.len() ==> lang::script_of(#[trigger] b[i]) != Script::Kana,
    ensures
        lang::detected(a + b) == tag(k),
        lang::detected(b + a) == tag(k),
{
    let x = lang::scripts_of(a);
    let y = lang::scripts_of(b);
    assert forall|i: int| 0 <= i < x.len() implies #[trigger] x[i] == k by {
        assert(x[i] == lang::script_of(a[i]));
    }
    assert forall|i: int| 0 <= i < y.len() implies #[trigger] y[i] != Script::Kana by {
        assert(y[i] == lang::script_of(b[i]));
    }
    tally_all_of(x, k);
    lang::tally_none(y, Script::Kana);
    assert(lang::scripts_of(a + b) =~= x + y);
    assert(lang::scripts_of(b + a) =~= y + x);
    assert forall|j: Script| #[trigger]
        lang::tally(x + y, j) == lang::tally(x, j) + lang::tally(y, j) && lang::tally(y + x, j)
            == lang::tally(x, j) + lang::tally(y, j) && lang::tally(y, j) <= y.len() by {
        lang::tally_append(x, y, j);
        lang::tally_append(y, x, j);
        tally_bound(y, j);
    }
    assert(lang::tally(x + y, k) > y.len());
    assert(lang::tally(x + y, Script::Other) <= y.len());
    assert(lang::tally(x + y, Script::Kana) == 0);
    assert(lang::tally(x + y, Script::Hangul) == lang::tally(x, Script::Hangul) + lang::tally(
        y,
        Script::Hangul,
    ));
    assert(lang::tally(x + y, Script::Han) == lang::tally(x, Script::Han) + lang::tally(
        y,
        Script::Han,
    ));
    assert(lang::tally(x + y, Script::Thai) == lang::tally(x, Script::Thai) + lang::tally(
        y,
        Script::Thai,
    ));
    two_parts(y, k);
}

/// Half of a text is not enough for a script: with as many Latin letters the text
/// is Latin, and Vietnamese where these are marked.
pub proof fn half_of_a_text_does_not_decide(a: Seq<char>, b: Seq<char>, k: Script, l: Script)
    requires
        k == Script::Han || k == Script::Hangul || k == Script::Thai || k == Script::Devanagari,
        l == Script::Latin || l == Script::Vietnamese,
        0 < b.len(),
        a.len() <= b.len(),
        forall|i: int| 0 <= i < a.len() ==> lang::script_of(#[trigger] a[i]) == k,
        forall|i: int| 0 <= i < b.len() ==> lang::script_of(#[trigger] b[i]) == l,
    ensures
        lang::detected(a + b) == tag(l),
        lang::detected(b + a) == tag(l),
{
    let x = lang::scripts_of(a);
    let y = lang::scripts_of(b);
    assert forall|i: int| 0 <= i < x.len() implies #[trigger] x[i] == k by {
        assert(x[i] == lang::script_of(a[i]));
    }
    assert forall|i: int| 0 <= i < y.len() implies #[trigger] y[i] == l by {
        assert(y[i] == lang::script_of(b[i]));
    }
    tally_all_of(x, k);
    tally_all_of(y, l);
    assert(lang::scripts_of(a + b) =~= x + y);
    assert(lang::scripts_of(b + a) =~= y + x);
    assert forall|j: Script| #[trigger]
        lang::tally(x + y, j) == lang::tally(x, j) + lang::tally(y, j) && lang::tally(y + x, j)
            == lang::tally(x, j) + lang::tally(y, j) by {
        lang::tally_append(x, y, j);
        lang::tally_append(y, x, j);
    }
    assert(lang::tally(x + y, Script::Kana) == 0);
    assert(lang::tally(x + y, Script::Other) == 0);
    assert(lang::tally(x + y, Script::Hangul) <= x.len());
    assert(lang::tally(x + y, Script::Han) <= x.len());
    assert(lang::tally(x + y, Script::Thai) <= x.len());
    assert(lang::tally(x + y, Script::Devanagari) <= x.len());
    assert(lang::tally(x + y, l) == y.len());
    assert(l == Script::Latin ==> lang::tally(x + y, Script::Vietnamese) == 0);
    assert(lang::tally(x + y, Script::Latin) == lang::tally(y, Script::Latin));
}

/// Among letters of the scripts that stand for one language each, the script with
/// the most letters decides, with more than half of them or not.
pub proof fn the_most_frequent_script_decides(s: Seq<char>, k: Script)
    requires
        k == Script::Han || k == Script::Hangul || k == Script::Thai || k == Script::Devanagari,
        s.len() > 0,
        forall|i: int|
            0 <= i < s.len() ==> ({
                let x = lang::script_of(#[trigger] s[i]);
                x == Script::Han || x == Script::Hangul || x == Script::Thai || x
                    == Script::Devanagari
            }),
        forall|j: Script|
            j != k ==> #[trigger] lang::tally(lang::scripts_of(s), j) < lang::tally(
                lang::scripts_of(s),
                k,
            ),
    ensures
        lang::detected(s) == tag(k),
{
    let ss = lang::scripts_of(s);
    assert forall|i: int| 0 <= i < ss.len() implies #[trigger] ss[i] != Script::Kana && ss[i]
        != Script::Other && ss[i] != Script::Vietnamese && ss[i] != Script::Latin by {
        assert(ss[i] == lang::script_of(s[i]));
    }
    lang::tally_none(ss, Script::Kana);
    lang::tally_none(ss, Script::Other);
    lang::tally_none(ss, Script::Vietnamese);
    lang::tally_none(ss, Script::Latin);
    two_parts(ss, k);
    assert(lang::tally(ss, Script::Hangul) <= lang::tally(ss, k));
    assert(lang::tally(ss, Script::Han) <= lang::tally(ss, k));
    assert(lang::tally(ss, Script::Thai) <= lang::tally(ss, k));
    assert(lang::tally(ss, Script::Devanagari) <= lang::tally(ss, k));
}

/// Two scripts share the characters of a text.
proof fn two_parts(y: Seq<Script>, k: Script)
    ensures
        forall|j: Script| j != k ==> #[trigger] lang::tally(y, j) + lang::tally(y, k) <= y.len(),
        forall|j: Script|
            j != Script::Other ==> #[trigger] lang::tally(y, j) + lang::tally(y, Script::Other)
                <= y.len(),
    decreases y.len(),
{
    if y.len() > 0 {
        let r = y.drop_last();
        two_parts(r, k);
        assert forall|j: Script| j != k implies #[trigger] lang::tally(y, j) + lang::tally(y, k)
            <= y.len() by {
            assert(lang::tally(r, j) + lang::tally(r, k) <= r.len());
        }
        assert forall|j: Script| j != Script::Other implies #[trigger] lang::tally(y, j)
            + lang::tally(y, Script::Other) <= y.len() by {
            assert(lang::tally(r, j) + lang::tally(r, Script::Other) <= r.len());
        }
    }
}

// ---------------------------------------------------------------------------
// Codes and loops
// ---------------------------------------------------------------------------

/// The languages that have a code of their own.
pub open spec fn languages() -> Seq<Seq<char>> {
    seq![
        "vietnamese"@,
        "english"@,
        "japanese"@,
        "korean"@,
        "chinese"@,
        "french"@,
        "german"@,
        "spanish"@,
        "portuguese"@,
        "thai"@,
        "indonesian"@,
        "hindi"@,
    ]
}

proof fn own_codes(i: int)
    requires
        0 <= i < 12,
    ensures
        languages()[i].len() >= 4,
        text::ascii_lowered(languages()[i]) == languages()[i],
        lang::code_of(languages()[i]).len() == 2,
        lang::code_of(languages()[i]) == seq![
            seq!['v', 'i'],
            seq!['e', 'n'],
            seq!['j', 'a'],
            seq!['k', 'o'],
            seq!['z', 'h'],
            seq!['f', 'r'],
            seq!['d', 'e'],
            seq!['e', 's'],
            seq!['p', 't'],
            seq!['t', 'h'],
            seq!['i', 'd'],
            seq!['h', 'i'],
        ][i],
{
    reveal_strlit("vietnamese");
    reveal_strlit("english");
    reveal_strlit("japanese");
    reveal_strlit("korean");
    reveal_strlit("chinese");
    reveal_strlit("french");
    reveal_strlit("german");
    reveal_strlit("spanish");
    reveal_strlit("portuguese");
    reveal_strlit("thai");
    reveal_strlit("indonesian");
    reveal_strlit("hindi");
    reveal_strlit("vi");
    reveal_strlit("en");
    reveal_strlit("ja");
    reveal_strlit("ko");
    reveal_strlit("zh");
    reveal_strlit("fr");
    reveal_strlit("de");
    reveal_strlit("es");
    reveal_strlit("pt");
    reveal_strlit("th");
    reveal_strlit("id");
    reveal_strlit("hi");
    assert("vietnamese"@[0] == 'v');
    assert("english"@[0] == 'e');
    assert("japanese"@[0] == 'j');
    assert("korean"@[0] == 'k');
    assert("chinese"@[0] == 'c');
    assert("french"@[0] == 'f');
    assert("german"@[0] == 'g');
    assert("spanish"@[0] == 's');
    assert("portuguese"@[0] == 'p');
    assert("thai"@[0] == 't');
    assert("indonesian"@[0] == 'i');
    assert("hindi"@[0] == 'h');
    assert("vi"@ =~= seq!['v', 'i']);
    assert("en"@ =~= seq!['e', 'n']);
    assert("ja"@ =~= seq!['j', 'a']);
    assert("ko"@ =~= seq!['k', 'o']);
    assert("zh"@ =~= seq!['z', 'h']);
    assert("fr"@ =~= seq!['f', 'r']);
    assert("de"@ =~= seq!['d', 'e']);
    assert("es"@ =~= seq!['e', 's']);
    assert("pt"@ =~= seq!['p', 't']);
    assert("th"@ =~= seq!['t', 'h']);
    assert("id"@ =~= seq!['i', 'd']);
    assert("hi"@ =~= seq!['h', 'i']);
    let n = languages()[i];
    assert(text::ascii_lowered(n) =~= n);
}

/// Each known language has a code that no other one has, in whatever case its
/// name is written.
pub proof fn codes_are_told_apart(a: Seq<char>, b: Seq<char>, i: int, j: int)
    requires
        0 <= i < 12,
        0 <= j < 12,
        text::ascii_lowered(a) == languages()[i],
        text::ascii_lowered(b) == languages()[j],
    ensures
        lang::code_of(a).len() == 2,
        lang::code_of(a) == lang::code_of(b) <==> i == j,
{
    own_codes(i);
    own_codes(j);
    let x = lang::code_of(a);
    let y = lang::code_of(b);
    assert(x == lang::code_of(languages()[i]));
    assert(y == lang::code_of(languages()[j]));
    if i != j {
        assert(x[0] != y[0] || x[1] != y[1]);
    }
}

/// A text that ends in a loop ends in one block twice, and the block is neither
/// shorter than ten characters nor longer than sixty.
pub proof fn loops_are_doubled_text(s: Seq<char>) -> (r: (Seq<char>, Seq<char>))
    requires
        lang::loops(s),
    ensures
        s == r.0 + r.1 + r.1,
        10 <= r.1.len() <= 60,
{
    let w = choose|w: int|
        lang::MIN_REPEAT_WINDOW <= w <= lang::MAX_REPEAT_WINDOW && #[trigger] lang::tail_repeats(
            s,
            w,
        );
    let before = s.take(s.len() - 2 * w);
    let block = s.skip(s.len() - w);
    assert(s.subrange(s.len() - 2 * w, s.len() - w) =~= block);
    assert(s =~= before + s.subrange(s.len() - 2 * w, s.len() - w) + block);
    (before, block)
}

// ---------------------------------------------------------------------------
// Readout
// ---------------------------------------------------------------------------

/// One piece of audio of a turn, and the original text at that time.
pub struct Piece {
    pub samples: Seq<i16>,
    pub original: Seq<char>,
}

/// The readout after the pieces of a turn, and what was played of them.
pub open spec fn fed(g: GateModel, pieces: Seq<Piece>) -> (GateModel, Seq<i16>)
    decreases pieces.len(),
{
    if pieces.len() == 0 {
        (g, Seq::empty())
    } else {
        let (h, out) = fed(g, pieces.drop_last());
        let (k, more) = h.pushed(pieces.last().samples, pieces.last().original);
        (k, out + more)
    }
}

/// What is played of a whole turn.
pub open spec fn played(g: GateModel, pieces: Seq<Piece>, original: Seq<char>) -> Seq<i16> {
    let (h, out) = fed(g, pieces);
    out + h.ended(original).1
}

/// The audio of a turn.
pub open spec fn spoken(pieces: Seq<Piece>) -> Seq<i16>
    decreases pieces.len(),
{
    if pieces.len() == 0 {
        Seq::empty()
    } else {
        spoken(pieces.drop_last()) + pieces.last().samples
    }
}

/// The text is in a known language that is not the target.
pub open spec fn foreign(original: Seq<char>, target: Seq<char>) -> bool {
    lang::detected(original) is Some && lang::detected(original)->0 != target
}

proof fn foreign_so_far(target: Seq<char>, pieces: Seq<Piece>)
    requires
        spoken(pieces).len() <= 720_000,
        forall|i: int|
            0 <= i < pieces.len() && (#[trigger] pieces[i]).original.len() >= 6 ==> foreign(
                pieces[i].original,
                target,
            ),
    ensures
        ({
            let (h, out) = fed(GateModel::initial(target), pieces);
            &&& h.target_code == target
            &&& h.decision is None && out.len() == 0 && h.buffer == spoken(pieces) || h.decision
                == Some(true) && out == spoken(pieces) && h.buffer.len() == 0
        }),
    decreases pieces.len(),
{
    if pieces.len() > 0 {
        let rest = pieces.drop_last();
        let p = pieces.last();
        foreign_so_far(target, rest);
        let (h, out) = fed(GateModel::initial(target), rest);
        assert(pieces[pieces.len() - 1] == p);
        if h.decision is None {
            assert(out + (h.buffer + p.samples) =~= spoken(pieces));
        } else {
            assert(out + p.samples =~= spoken(pieces));
        }
    }
}

/// A turn in another language than the target is read out whole, however its
/// audio and its text come in.
pub proof fn foreign_turns_are_read_out(
    target: Seq<char>,
    pieces: Seq<Piece>,
    original: Seq<char>,
)
    requires
        spoken(pieces).len() <= 720_000,
        forall|i: int|
            0 <= i < pieces.len() && (#[trigger] pieces[i]).original.len() >= 6 ==> foreign(
                pieces[i].original,
                target,
            ),
        foreign(original, target),
    ensures
        played(GateModel::initial(target), pieces, original) == spoken(pieces),
{
    foreign_so_far(target, pieces);
    let (h, out) = fed(GateModel::initial(target), pieces);
    assert(out + h.ended(original).1 =~= spoken(pieces));
}

/// A turn in the target language, or in none that is known, is not read out at
/// all.
pub proof fn own_turns_are_not_read_out(target: Seq<char>, pieces: Seq<Piece>, original: Seq<char>)
    requires
        forall|i: int|
            0 <= i < pieces.len() ==> !foreign((#[trigger] pieces[i]).original, target),
        !foreign(original, target),
    ensures
        played(GateModel::initial(target), pieces, original).len() == 0,
        fed(GateModel::initial(target), pieces).0.target_code == target,
        fed(GateModel::initial(target), pieces).0.decision != Some(true),
        fed(GateModel::initial(target), pieces).1.len() == 0,
    decreases pieces.len(),
{
    if pieces.len() > 0 {
        assert(!foreign(pieces[pieces.len() - 1].original, target));
        own_turns_are_not_read_out(target, pieces.drop_last(), original);
    }
}

/// Every turn begins undecided, with nothing left of the turn before.
pub proof fn turns_begin_afresh(g: GateModel, original: Seq<char>)
    ensures
        g.ended(original).0 == GateModel::initial(g.target_code),
        GateModel::initial(g.target_code).decision is None,
        GateModel::initial(g.target_code).buffer.len() == 0,
{
}

/// A turn is decided as soon as six characters of it are known, and not before.
pub proof fn six_characters_decide(g: GateModel, samples: Seq<i16>, original: Seq<char>)
    requires
        g.decision is None,
    ensures
        g.pushed(samples, original).0.decision is Some <==> original.len() >= 6,
        original.len() >= 6 ==> g.pushed(samples, original).0.decision == Some(
            foreign(original, g.target_code),
        ),
        original.len() < 6 ==> g.pushed(samples, original).1.len() == 0,
{
}

} // verus!
