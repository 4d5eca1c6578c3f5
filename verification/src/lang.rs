//! Lightweight script and language heuristics.
//!
//! The transcript is split into a new entry whenever the spoken language
//! changes mid-stream, so a switch from Japanese to Vietnamese does not blend
//! two languages into one entry. The live translator does not label the source
//! language of a turn, so classification runs locally on the original text. It
//! is exact for distinct scripts (Japanese, Korean, Chinese, Thai, Vietnamese
//! diacritics) and coarse for plain-Latin languages, which all map to `latin`.
use vstd::prelude::*;
use crate::text;
use crate::text::{has_char, same_text, to_ascii_lower, to_chars};

verus! {

/// Whether `char::is_alphabetic` holds of `c`.
pub uninterp spec fn alphabetic(c: char) -> bool;

/// `char::is_alphabetic` tells whether a character has the Unicode
/// `Alphabetic` property. The property is a table; it is only named here.
pub assume_specification[ char::is_alphabetic ](c: char) -> (r: bool)
    ensures
        r == alphabetic(c),
;

/// The BCP-47 code of a language by its display name, in any ASCII case.
pub open spec fn code_of(name: Seq<char>) -> Seq<char> {
    let n = text::ascii_lowered(name);
    if n == "vietnamese"@ { "vi"@ }
    else if n == "english"@ { "en"@ }
    else if n == "japanese"@ { "ja"@ }
    else if n == "korean"@ { "ko"@ }
    else if n == "chinese"@ { "zh"@ }
    else if n == "french"@ { "fr"@ }
    else if n == "german"@ { "de"@ }
    else if n == "spanish"@ { "es"@ }
    else if n == "portuguese"@ { "pt"@ }
    else if n == "thai"@ { "th"@ }
    else if n == "indonesian"@ { "id"@ }
    else if n == "hindi"@ { "hi"@ }
    else { "en"@ }
}

/// Maps a display language name to a BCP-47 code. Unknown names map to
/// English.
pub fn bcp47(display_name: &str) -> (r: &'static str)
    ensures
        r@ == code_of(display_name@),
{
    let n = to_ascii_lower(display_name);
    if same_text(&n, "vietnamese") { "vi" }
    else if same_text(&n, "english") { "en" }
    else if same_text(&n, "japanese") { "ja" }
    else if same_text(&n, "korean") { "ko" }
    else if same_text(&n, "chinese") { "zh" }
    else if same_text(&n, "french") { "fr" }
    else if same_text(&n, "german") { "de" }
    else if same_text(&n, "spanish") { "es" }
    else if same_text(&n, "portuguese") { "pt" }
    else if same_text(&n, "thai") { "th" }
    else if same_text(&n, "indonesian") { "id" }
    else if same_text(&n, "hindi") { "hi" }
    else { "en" }
}

/// Vietnamese-specific letters: the đ/ơ/ư/ă/â family plus every tone-marked
/// vowel. The plain grave, acute and tilde tone marks belong to it: short
/// fragments built only from everyday words (là, có, và, má, nhà, vào) would
/// otherwise look like plain Latin text.
pub const VIETNAMESE_MARKERS: &'static str = "đĐơƠưƯăĂàáảãạằắẳẵặầấẩẫậèéẻẽẹềếểễệìíỉĩịòóỏõọồốổỗộờớởỡợùúủũụừứửữựỳýỷỹỵÀÁẢÃẠẰẮẲẴẶẦẤẨẪẬÈÉẺẼẸỀẾỂỄỆÌÍỈĨỊÒÓỎÕỌỒỐỔỖỘỜỚỞỠỢÙÚỦŨỤỪỨỬỮỰỲÝỶỸỴ";

/// What a character says about the language of the text it stands in.
#[derive(Debug, Clone, Copy, PartialEq, Eq, Structural)]
pub enum Script {
    Kana,
    Han,
    Hangul,
    Thai,
    Devanagari,
    /// A letter of Vietnamese that no other Latin language shares cheaply.
    Vietnamese,
    /// Any other letter.
    Latin,
    /// No letter.
    Other,
}

/// The script of a character, where `letter` tells whether it is a letter.
pub open spec fn script_if(c: char, letter: bool) -> Script {
    let u = c as u32;
    if 0x3040 <= u <= 0x30FF {
        Script::Kana
    } else if 0x4E00 <= u <= 0x9FFF || 0x3400 <= u <= 0x4DBF {
        Script::Han
    } else if 0xAC00 <= u <= 0xD7AF || 0x1100 <= u <= 0x11FF {
        Script::Hangul
    } else if 0x0E00 <= u <= 0x0E7F {
        Script::Thai
    } else if 0x0900 <= u <= 0x097F {
        Script::Devanagari
    } else if !letter {
        Script::Other
    } else if VIETNAMESE_MARKERS@.contains(c) {
        Script::Vietnamese
    } else {
        Script::Latin
    }
}

/// The script of a character.
pub open spec fn script_of(c: char) -> Script {
    script_if(c, alphabetic(c))
}

/// The scripts of the characters of a text.
pub open spec fn scripts_of(s: Seq<char>) -> Seq<Script> {
    s.map_values(|c: char| script_of(c))
}

/// How often `k` stands in a list of scripts.
pub open spec fn tally(scripts: Seq<Script>, k: Script) -> nat
    decreases scripts.len(),
{
    if scripts.len() == 0 {
        0
    } else {
        tally(scripts.drop_last(), k) + if scripts.last() == k {
            1nat
        } else {
            0
        }
    }
}

/// Number of letters.
pub open spec fn letters(scripts: Seq<Script>) -> int {
    scripts.len() - tally(scripts, Script::Other)
}

/// More than half of the letters are in script `k`.
pub open spec fn dominates(scripts: Seq<Script>, k: Script) -> bool {
    2 * tally(scripts, k) > letters(scripts)
}

/// The language of the most frequent of the scripts that stand for one language
/// each. Of equally frequent ones it is the first in the order Hangul, Han,
/// Thai, Devanagari.
pub open spec fn most_frequent(scripts: Seq<Script>) -> Seq<char> {
    let hangul = tally(scripts, Script::Hangul);
    let han = tally(scripts, Script::Han);
    let thai = tally(scripts, Script::Thai);
    let devanagari = tally(scripts, Script::Devanagari);
    if hangul >= han && hangul >= thai && hangul >= devanagari {
        "ko"@
    } else if han >= thai && han >= devanagari {
        "zh"@
    } else if thai >= devanagari {
        "th"@
    } else {
        "hi"@
    }
}

/// The language tag of a text whose characters have these scripts; none exactly
/// when there is no letter. Any kana means Japanese, even among Han characters;
/// that is what tells Japanese from Chinese.
pub open spec fn tag_of(scripts: Seq<Script>) -> Option<Seq<char>> {
    if letters(scripts) == 0 {
        None
    } else if tally(scripts, Script::Kana) > 0 {
        Some("ja"@)
    } else if dominates(scripts, Script::Hangul) {
        Some("ko"@)
    } else if dominates(scripts, Script::Han) {
        Some("zh"@)
    } else if dominates(scripts, Script::Thai) {
        Some("th"@)
    } else if dominates(scripts, Script::Devanagari) {
        Some("hi"@)
    } else if tally(scripts, Script::Vietnamese) > 0 {
        Some("vi"@)
    } else if tally(scripts, Script::Latin) > 0 {
        Some("latin"@)
    } else {
        Some(most_frequent(scripts))
    }
}

/// The language tag of a text.
pub open spec fn detected(s: Seq<char>) -> Option<Seq<char>> {
    tag_of(scripts_of(s))
}

/// A language tag by its characters.
pub open spec fn tag_model(r: Option<&'static str>) -> Option<Seq<char>> {
    match r {
        Some(t) => Some(t@),
        None => None,
    }
}

/// The script of a character, where `letter` tells whether it is a letter.
pub fn char_script(c: char, letter: bool) -> (r: Script)
    ensures
        r == script_if(c, letter),
{
    let u = c as u32;
    if 0x3040 <= u && u <= 0x30FF {
        Script::Kana
    } else if (0x4E00 <= u && u <= 0x9FFF) || (0x3400 <= u && u <= 0x4DBF) {
        Script::Han
    } else if (0xAC00 <= u && u <= 0xD7AF) || (0x1100 <= u && u <= 0x11FF) {
        Script::Hangul
    } else if 0x0E00 <= u && u <= 0x0E7F {
        Script::Thai
    } else if 0x0900 <= u && u <= 0x097F {
        Script::Devanagari
    } else if !letter {
        Script::Other
    } else if has_char(&to_chars(VIETNAMESE_MARKERS), c) {
        Script::Vietnamese
    } else {
        Script::Latin
    }
}

/// The language tag of a text whose characters have these scripts.
pub fn dominant(scripts: &Vec<Script>) -> (r: Option<&'static str>)
    ensures
        tag_model(r) == tag_of(scripts@),
        r is None <==> letters(scripts@) == 0,
{
    let mut kana: usize = 0;
    let mut han: usize = 0;
    let mut hangul: usize = 0;
    let mut thai: usize = 0;
    let mut devanagari: usize = 0;
    let mut viet: usize = 0;
    let mut latin: usize = 0;
    let mut other: usize = 0;
    let mut i: usize = 0;
    while i < scripts.len()
        invariant
            i <= scripts.len(),
            kana + han + hangul + thai + devanagari + viet + latin + other == i,
            kana == tally(scripts@.take(i as int), Script::Kana),
            han == tally(scripts@.take(i as int), Script::Han),
            hangul == tally(scripts@.take(i as int), Script::Hangul),
            thai == tally(scripts@.take(i as int), Script::Thai),
            devanagari == tally(scripts@.take(i as int), Script::Devanagari),
            viet == tally(scripts@.take(i as int), Script::Vietnamese),
            latin == tally(scripts@.take(i as int), Script::Latin),
            other == tally(scripts@.take(i as int), Script::Other),
        decreases scripts.len() - i,
    {
        assert(scripts@.take(i + 1).drop_last() =~= scripts@.take(i as int));
        match scripts[i] {
            Script::Kana => kana += 1,
            Script::Han => han += 1,
            Script::Hangul => hangul += 1,
            Script::Thai => thai += 1,
            Script::Devanagari => devanagari += 1,
            Script::Vietnamese => viet += 1,
            Script::Latin => latin += 1,
            Script::Other => other += 1,
        }
        i += 1;
    }
    assert(scripts@.take(i as int) =~= scripts@);
    let letters: usize = scripts.len() - other;
    if letters == 0 {
        return None;
    }
    let half: usize = letters / 2;
    if kana > 0 {
        Some("ja")
    } else if hangul > half {
        Some("ko")
    } else if han > half {
        Some("zh")
    } else if thai > half {
        Some("th")
    } else if devanagari > half {
        Some("hi")
    } else if viet > 0 {
        Some("vi")
    } else if latin > 0 {
        Some("latin")
    } else if hangul >= han && hangul >= thai && hangul >= devanagari {
        Some("ko")
    } else if han >= thai && han >= devanagari {
        Some("zh")
    } else if thai >= devanagari {
        Some("th")
    } else {
        Some("hi")
    }
}

/// The dominant script or language of a text fragment: a BCP-47-like tag,
/// `latin` for Latin script without Vietnamese markers, or `None` when there
/// are no letters yet.
pub fn detect(s: &str) -> (r: Option<&'static str>)
    ensures
        tag_model(r) == detected(s@),
        r is None <==> letters(scripts_of(s@)) == 0,
{
    let cs = to_chars(s);
    let mut scripts: Vec<Script> = Vec::new();
    let mut i: usize = 0;
    while i < cs.len()
        invariant
            i <= cs.len(),
            scripts@ =~= scripts_of(cs@.take(i as int)),
        decreases cs.len() - i,
    {
        scripts.push(char_script(cs[i], cs[i].is_alphabetic()));
        i += 1;
    }
    assert(cs@.take(i as int) =~= s@);
    dominant(&scripts)
}

/// The detected source language of `s` is known and is not `target`.
pub open spec fn differs_from_target(s: Seq<char>, target: Seq<char>) -> bool {
    detected(s) matches Some(tag) && tag != target
}

/// Whether a passage is to be read aloud in translation: only when its
/// detected source language differs from the target language.
pub fn should_read_out(original: &str, target_code: &str) -> (r: bool)
    ensures
        r == differs_from_target(original@, target_code@),
{
    match detect(original) {
        Some(tag) => !same_text(tag, target_code),
        None => false,
    }
}

/// Shortest repeated window that is flagged as a loop; shorter windows would
/// flag incidental repeated words ("no no no").
pub const MIN_REPEAT_WINDOW: usize = 10;

/// Longest window that is searched for, so this stays cheap on long turns.
pub const MAX_REPEAT_WINDOW: usize = 60;

/// The last `2 * w` characters of `s` are the same `w` characters twice.
pub open spec fn tail_repeats(s: Seq<char>, w: int) -> bool {
    2 * w <= s.len() && s.subrange(s.len() - 2 * w, s.len() - w) == s.subrange(
        s.len() - w,
        s.len() as int,
    )
}

/// The end of the text is a window of acceptable size, twice in a row.
pub open spec fn loops(s: Seq<char>) -> bool {
    exists|w: int| MIN_REPEAT_WINDOW <= w <= MAX_REPEAT_WINDOW && #[trigger] tail_repeats(s, w)
}

/// Whether `cs` ends with the same `w` characters twice in a row.
fn repeats(cs: &Vec<char>, w: usize) -> (r: bool)
    requires
        w <= cs.len() / 2,
    ensures
        r == tail_repeats(cs@, w as int),
{
    let len: usize = cs.len();
    let mut i: usize = 0;
    while i < w
        invariant
            i <= w,
            w <= len / 2,
            len == cs.len(),
            forall|k: int|
                0 <= k < i ==> #[trigger] cs@.subrange(len - 2 * w, len - w)[k] == cs@.subrange(
                    len - w,
                    len as int,
                )[k],
        decreases w - i,
    {
        if cs[len - 2 * w + i] != cs[len - w + i] {
            assert(cs@.subrange(len - 2 * w, len - w)[i as int] != cs@.subrange(
                len - w,
                len as int,
            )[i as int]);
            return false;
        }
        i += 1;
    }
    assert(cs@.subrange(len - 2 * w, len - w) =~= cs@.subrange(len - w, len as int));
    true
}

/// Detects a degenerate repetition loop: the live model sometimes gets stuck
/// re-emitting the same phrase verbatim instead of continuing.
pub fn has_repeat_loop(s: &str) -> (r: bool)
    ensures
        r == loops(s@),
{
    let cs = to_chars(s);
    let half: usize = cs.len() / 2;
    let max_w: usize = if half < MAX_REPEAT_WINDOW {
        half
    } else {
        MAX_REPEAT_WINDOW
    };
    let mut w: usize = MIN_REPEAT_WINDOW;
    while w <= max_w
        invariant
            cs@ == s@,
            MIN_REPEAT_WINDOW <= w,
            max_w <= cs.len() / 2,
            max_w <= MAX_REPEAT_WINDOW,
            forall|k: int| MIN_REPEAT_WINDOW <= k < w ==> !tail_repeats(s@, k),
        decreases max_w + 1 - w,
    {
        if repeats(&cs, w) {
            return true;
        }
        w += 1;
    }
    proof {
        if loops(s@) {
            let k = choose|k: int|
                MIN_REPEAT_WINDOW <= k <= MAX_REPEAT_WINDOW && #[trigger] tail_repeats(s@, k);
            assert(k <= max_w);
        }
    }
    false
}

// ---------------------------------------------------------------------------
// Laws
// ---------------------------------------------------------------------------

proof fn tally_some(scripts: Seq<Script>, k: Script, i: int)
    requires
        0 <= i < scripts.len(),
        scripts[i] == k,
    ensures
        tally(scripts, k) > 0,
    decreases scripts.len(),
{
    if i < scripts.len() - 1 {
        tally_some(scripts.drop_last(), k, i);
    }
}

/// A script that stands nowhere in a list is counted nought times.
pub proof fn tally_none(scripts: Seq<Script>, k: Script)
    requires
        forall|i: int| 0 <= i < scripts.len() ==> #[trigger] scripts[i] != k,
    ensures
        tally(scripts, k) == 0,
    decreases scripts.len(),
{
    if scripts.len() > 0 {
        tally_none(scripts.drop_last(), k);
    }
}

proof fn tally_all(scripts: Seq<Script>, k: Script)
    requires
        forall|i: int| 0 <= i < scripts.len() ==> #[trigger] scripts[i] == k,
    ensures
        tally(scripts, k) == scripts.len(),
    decreases scripts.len(),
{
    if scripts.len() > 0 {
        tally_all(scripts.drop_last(), k);
    }
}

proof fn tally_pair(scripts: Seq<Script>, j: Script, k: Script)
    requires
        j != k,
    ensures
        tally(scripts, j) + tally(scripts, k) <= scripts.len(),
    decreases scripts.len(),
{
    if scripts.len() > 0 {
        tally_pair(scripts.drop_last(), j, k);
    }
}

/// A text with any kana in it is Japanese, whatever else it holds.
pub proof fn any_kana_is_japanese(s: Seq<char>, i: int)
    requires
        0 <= i < s.len(),
        script_of(s[i]) == Script::Kana,
    ensures
        detected(s) == Some("ja"@),
{
    tally_some(scripts_of(s), Script::Kana, i);
    tally_pair(scripts_of(s), Script::Kana, Script::Other);
}

/// A text in which every letter is plain Latin is `latin` when it has a letter
/// and has no language when it has none.
pub proof fn plain_latin_is_generic(s: Seq<char>)
    requires
        forall|i: int|
            0 <= i < s.len() ==> script_of(#[trigger] s[i]) == Script::Latin || script_of(s[i])
                == Script::Other,
    ensures
        detected(s) == if exists|i: int| 0 <= i < s.len() && script_of(#[trigger] s[i])
            == Script::Latin {
            Some("latin"@)
        } else {
            None
        },
{
    let ss = scripts_of(s);
    assert forall|i: int| 0 <= i < ss.len() implies #[trigger] ss[i] == Script::Latin || ss[i]
        == Script::Other by {
        assert(ss[i] == script_of(s[i]));
    }
    tally_none(ss, Script::Kana);
    tally_none(ss, Script::Han);
    tally_none(ss, Script::Hangul);
    tally_none(ss, Script::Thai);
    tally_none(ss, Script::Devanagari);
    tally_none(ss, Script::Vietnamese);
    tally_pair(ss, Script::Latin, Script::Other);
    if exists|i: int| 0 <= i < s.len() && script_of(#[trigger] s[i]) == Script::Latin {
        let i = choose|i: int| 0 <= i < s.len() && script_of(#[trigger] s[i]) == Script::Latin;
        tally_some(ss, Script::Latin, i);
    } else {
        assert forall|i: int| 0 <= i < ss.len() implies #[trigger] ss[i] == Script::Other by {
            assert(ss[i] == script_of(s[i]));
        }
        tally_none(ss, Script::Latin);
        tally_all(ss, Script::Other);
    }
}

/// A text in Latin letters is Vietnamese as soon as one of them is a Vietnamese
/// letter.
pub proof fn one_marker_is_enough(s: Seq<char>, i: int)
    requires
        0 <= i < s.len(),
        script_of(s[i]) == Script::Vietnamese,
        forall|j: int|
            0 <= j < s.len() ==> script_of(#[trigger] s[j]) == Script::Vietnamese || script_of(s[j])
                == Script::Latin || script_of(s[j]) == Script::Other,
    ensures
        detected(s) == Some("vi"@),
{
    let ss = scripts_of(s);
    assert forall|j: int| 0 <= j < ss.len() implies #[trigger] ss[j] == Script::Vietnamese || ss[j]
        == Script::Latin || ss[j] == Script::Other by {
        assert(ss[j] == script_of(s[j]));
    }
    tally_none(ss, Script::Kana);
    tally_none(ss, Script::Han);
    tally_none(ss, Script::Hangul);
    tally_none(ss, Script::Thai);
    tally_none(ss, Script::Devanagari);
    tally_some(ss, Script::Vietnamese, i);
    tally_pair(ss, Script::Vietnamese, Script::Other);
}

/// A text is Vietnamese only if a Vietnamese letter stands in it.
pub proof fn vietnamese_has_a_marker(s: Seq<char>)
    requires
        detected(s) == Some("vi"@),
    ensures
        exists|i: int| 0 <= i < s.len() && VIETNAMESE_MARKERS@.contains(#[trigger] s[i]),
{
    reveal_strlit("vi");
    reveal_strlit("ja");
    reveal_strlit("ko");
    reveal_strlit("zh");
    reveal_strlit("th");
    reveal_strlit("hi");
    reveal_strlit("latin");
    assert("vi"@[0] == 'v');
    assert("ja"@[0] == 'j');
    assert("ko"@[0] == 'k');
    assert("zh"@[0] == 'z');
    assert("th"@[0] == 't');
    assert("hi"@[0] == 'h');
    assert("latin"@[0] == 'l');
    let ss = scripts_of(s);
    if forall|i: int| 0 <= i < ss.len() ==> #[trigger] ss[i] != Script::Vietnamese {
        tally_none(ss, Script::Vietnamese);
    } else {
        let i = choose|i: int| 0 <= i < ss.len() && #[trigger] ss[i] == Script::Vietnamese;
        assert(VIETNAMESE_MARKERS@.contains(s[i]));
    }
}

/// The counts of two lists add up.
pub proof fn tally_append(a: Seq<Script>, b: Seq<Script>, k: Script)
    ensures
        tally(a + b, k) == tally(a, k) + tally(b, k),
    decreases b.len(),
{
    if b.len() == 0 {
        assert(a + b =~= a);
    } else {
        assert((a + b).drop_last() =~= a + b.drop_last());
        tally_append(a, b.drop_last(), k);
    }
}

proof fn tally_join(a: Seq<char>, b: Seq<char>, k: Script)
    ensures
        tally(scripts_of(a + b), k) == tally(scripts_of(a), k) + tally(scripts_of(b), k),
{
    assert(scripts_of(a + b) =~= scripts_of(a) + scripts_of(b));
    tally_append(scripts_of(a), scripts_of(b), k);
}

proof fn tally_reordered(a: Seq<char>, b: Seq<char>, k: Script)
    requires
        a.to_multiset() == b.to_multiset(),
    ensures
        a.len() == b.len(),
        tally(scripts_of(a), k) == tally(scripts_of(b), k),
    decreases a.len(),
{
    broadcast use vstd::seq_lib::group_to_multiset_ensures;

    assert(a.len() == a.to_multiset().len());
    assert(b.len() == b.to_multiset().len());
    if a.len() > 0 {
        let c = a.last();
        let rest = a.drop_last();
        assert(a =~= rest.push(c));
        assert(a.to_multiset().count(c) > 0);
        assert(b.contains(c));
        let i = choose|i: int| 0 <= i < b.len() && b[i] == c;
        let left = b.take(i);
        let right = b.skip(i + 1);
        assert(b.remove(i) =~= left + right);
        assert(b.remove(i).to_multiset() =~= b.to_multiset().remove(c));
        assert(rest.to_multiset() =~= a.to_multiset().remove(c));
        tally_reordered(rest, left + right, k);
        assert(b =~= left + seq![c] + right);
        tally_join(left + seq![c], right, k);
        tally_join(left, seq![c], k);
        tally_join(left, right, k);
        tally_join(rest, seq![c], k);
        assert(a =~= rest + seq![c]);
    }
}

/// The language of a text depends neither on the order of its characters nor on
/// what stands among them without being a letter: digits, spaces and
/// punctuation.
pub proof fn only_letters_count(s: Seq<char>, extra: Seq<char>, mixed: Seq<char>)
    requires
        forall|i: int| 0 <= i < extra.len() ==> script_of(#[trigger] extra[i]) == Script::Other,
        mixed.to_multiset() == (s + extra).to_multiset(),
    ensures
        detected(mixed) == detected(s),
{
    let a = scripts_of(s);
    let e = scripts_of(extra);
    let m = scripts_of(mixed);
    assert forall|i: int| 0 <= i < e.len() implies #[trigger] e[i] == Script::Other by {
        assert(e[i] == script_of(extra[i]));
    }
    tally_all(e, Script::Other);
    assert forall|k: Script| #[trigger] tally(m, k) == tally(a, k) + tally(e, k) by {
        tally_reordered(mixed, s + extra, k);
        tally_join(s, extra, k);
    }
    assert forall|k: Script| k != Script::Other implies #[trigger] tally(e, k) == 0 by {
        tally_none(e, k);
    }
    tally_reordered(mixed, s + extra, Script::Other);
    assert(tally(m, Script::Other) == tally(a, Script::Other) + extra.len());
    assert(tally(m, Script::Kana) == tally(a, Script::Kana));
    assert(tally(m, Script::Han) == tally(a, Script::Han));
    assert(tally(m, Script::Hangul) == tally(a, Script::Hangul));
    assert(tally(m, Script::Thai) == tally(a, Script::Thai));
    assert(tally(m, Script::Devanagari) == tally(a, Script::Devanagari));
    assert(tally(m, Script::Vietnamese) == tally(a, Script::Vietnamese));
    assert(tally(m, Script::Latin) == tally(a, Script::Latin));
    assert(letters(m) == letters(a));
}

/// Text twice in a row is a loop, when the text has an acceptable length,
/// whatever stands before it.
pub proof fn doubled_text_is_a_loop(before: Seq<char>, block: Seq<char>)
    requires
        MIN_REPEAT_WINDOW <= block.len() <= MAX_REPEAT_WINDOW,
    ensures
        loops(before + block + block),
{
    let s = before + block + block;
    let w = block.len() as int;
    assert(s.subrange(s.len() - 2 * w, s.len() - w) =~= block);
    assert(s.subrange(s.len() - w, s.len() as int) =~= block);
    assert(tail_repeats(s, w));
}

} // verus!
