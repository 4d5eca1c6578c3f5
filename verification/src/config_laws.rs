//! What holds of the configuration file and of redaction.
use vstd::prelude::*;
use crate::config;
use crate::config::ConfigModel;
use crate::path::PathModel;
use crate::text;
use crate::text_laws;
use crate::text_map;

verus! {

// ---------------------------------------------------------------------------
// Redaction
// ---------------------------------------------------------------------------

/// Redacting cuts a message at every occurrence of the key and puts the mark
/// in its place; the rest of the message stays as it is.
pub proof fn redaction_cuts_every_occurrence(message: Seq<char>, api_key: Seq<char>) -> (pieces:
    Seq<Seq<char>>)
    requires
        !text::is_blank(api_key),
    ensures
        text_laws::cut_at(message, text::trimmed(api_key), pieces),
        config::key_redacted(message, api_key) == text::joined(pieces, config::REDACTED@),
{
    text_laws::trimmed_empty(api_key);
    text_laws::replaced_in_pieces(message, text::trimmed(api_key), config::REDACTED@)
}

/// The key does not stand in a redacted message, unless the key can overlap
/// with the mark itself.
pub proof fn redaction_removes_the_key(message: Seq<char>, api_key: Seq<char>)
    requires
        !text::is_blank(api_key),
        text_laws::clear_of(text::trimmed(api_key), config::REDACTED@),
    ensures
        !text::occurs(config::key_redacted(message, api_key), text::trimmed(api_key)),
{
    reveal_strlit("[REDACTED]");
    text_laws::trimmed_empty(api_key);
    text_laws::replaced_is_gone(message, text::trimmed(api_key), config::REDACTED@);
}

/// A key without brackets that is no part of the mark's word cannot overlap
/// with the mark.
pub proof fn plain_keys_are_clear(key: Seq<char>)
    requires
        key.len() > 0,
        forall|i: int| 0 <= i < key.len() ==> key[i] != '[' && key[i] != ']',
        !text::occurs("REDACTED"@, key),
    ensures
        text_laws::clear_of(key, config::REDACTED@),
{
    reveal_strlit("[REDACTED]");
    reveal_strlit("REDACTED");
    let mark = config::REDACTED@;
    let word = "REDACTED"@;
    assert forall|d: int| -key.len() < d < mark.len() implies #[trigger] text_laws::differ_at(
        key,
        mark,
        d,
    ) by {
        if d <= 0 {
            assert(mark[d + (-d)] == '[');
            assert(key[-d] != mark[d + (-d)]);
        } else if d + key.len() >= 10 {
            assert(mark[d + (9 - d)] == ']');
            assert(key[9 - d] != mark[d + (9 - d)]);
        } else {
            if forall|j: int| 0 <= j < key.len() ==> key[j] == mark[d + j] {
                assert(word.subrange(d - 1, d - 1 + key.len()) =~= key);
                assert(text::occurs_at(word, key, d - 1));
            }
            let j = choose|j: int| 0 <= j < key.len() && key[j] != mark[d + j];
            assert(key[j] != mark[d + j]);
        }
    }
}

// ---------------------------------------------------------------------------
// Lines
// ---------------------------------------------------------------------------

/// `s` is one line.
pub open spec fn one_line(s: Seq<char>) -> bool {
    !s.contains('\n')
}

proof fn lines_are_lines(s: Seq<char>)
    ensures
        forall|i: int| 0 <= i < text::lines_of(s).len() ==> one_line(#[trigger] text::lines_of(s)[i]),
    decreases s.len(),
{
    text::lemma_position(s, '\n');
    let n = text::position(s, '\n') as int;
    let ls = text::lines_of(s);
    if s.len() == 0 {
    } else if n >= s.len() {
        assert(one_line(s));
    } else {
        lines_are_lines(s.skip(n + 1));
        assert forall|i: int| 0 <= i < ls.len() implies one_line(#[trigger] ls[i]) by {
            if i > 0 {
                assert(ls[i] == text::lines_of(s.skip(n + 1))[i - 1]);
            }
        }
    }
}

/// Appending a line to complete lines appends it to the list of lines.
proof fn one_more_line(s: Seq<char>, line: Seq<char>)
    requires
        s.len() > 0 ==> s.last() == '\n',
        one_line(line),
    ensures
        text::lines_of(s + line + "\n"@) == text::lines_of(s).push(text::without_return(line)),
    decreases s.len(),
{
    reveal_strlit("\n");
    let all = s + line + "\n"@;
    text::lemma_position(s, '\n');
    let n = text::position(s, '\n') as int;
    if s.len() == 0 {
        text::lemma_position_is(all, '\n', line.len() as int);
        assert(all.take(line.len() as int) =~= line);
        assert(all.skip(line.len() as int + 1) =~= Seq::empty());
        assert(text::lines_of(all.skip(line.len() as int + 1)) =~= Seq::empty());
        assert(text::lines_of(all) =~= text::lines_of(s).push(text::without_return(line)));
    } else {
        if n >= s.len() {
            assert(s[s.len() - 1] != '\n');
        }
        text::lemma_position_is(all, '\n', n);
        let t = s.skip(n + 1);
        one_more_line(t, line);
        assert(all.skip(n + 1) =~= t + line + "\n"@);
        assert(all.take(n) =~= s.take(n));
        assert(text::lines_of(all) =~= text::lines_of(s).push(text::without_return(line)));
    }
}

// ---------------------------------------------------------------------------
// Settings
// ---------------------------------------------------------------------------

/// A key that a line `key=value` can hold.
pub open spec fn storable_key(k: Seq<char>) -> bool {
    &&& one_line(k)
    &&& text::trimmed(k) == k
    &&& !k.contains('=')
    &&& k.len() > 0 ==> k[0] != '#'
}

/// A value that a line `key=value` can hold.
pub open spec fn storable_value(v: Seq<char>) -> bool {
    one_line(v) && text::trimmed(v) == v
}

/// All keys and values of a map fit into lines.
pub open spec fn storable_map(m: Map<Seq<char>, Seq<char>>) -> bool {
    forall|k: Seq<char>| #[trigger]
        m.contains_key(k) ==> storable_key(k) && storable_value(m[k])
}

/// All keys fit into lines, and all values stand on one line.
pub open spec fn lined_map(m: Map<Seq<char>, Seq<char>>) -> bool {
    forall|k: Seq<char>| #[trigger] m.contains_key(k) ==> storable_key(k) && one_line(m[k])
}

/// The map with white space around its values cut off.
pub open spec fn trimmed_map(m: Map<Seq<char>, Seq<char>>) -> Map<Seq<char>, Seq<char>> {
    m.map_values(|v: Seq<char>| text::trimmed(v))
}

proof fn trimmed_part(s: Seq<char>, c: char)
    requires
        !s.contains(c),
    ensures
        !text::trimmed(s).contains(c),
{
    text_laws::trimmed_edges(s);
    let t = text::trimmed(s);
    let i = choose|i: int| text::occurs_at(s, t, i);
    if t.contains(c) {
        let j = choose|j: int| 0 <= j < t.len() && t[j] == c;
        assert(s.subrange(i, i + t.len())[j] == s[i + j]);
    }
}

proof fn line_gives_storable(line: Seq<char>)
    requires
        one_line(line),
        config::env_line(line) is Some,
    ensures
        storable_key((config::env_line(line)->0).0),
        storable_value((config::env_line(line)->0).1),
{
    let t = text::trimmed(line);
    let p = text::position(t, '=') as int;
    let k = text::trimmed(t.take(p));
    trimmed_part(line, '\n');
    text::lemma_position(t, '=');
    text_laws::trimmed_twice(t.take(p));
    text_laws::trimmed_twice(t.skip(p + 1));
    assert(!t.take(p).contains('='));
    assert(!t.take(p).contains('\n')) by {
        if t.take(p).contains('\n') {
            let j = choose|j: int| 0 <= j < p && t.take(p)[j] == '\n';
            assert(t[j] == '\n');
        }
    }
    assert(!t.skip(p + 1).contains('\n')) by {
        if t.skip(p + 1).contains('\n') {
            let rest = t.skip(p + 1);
            let j = choose|j: int| 0 <= j < rest.len() && rest[j] == '\n';
            assert(t[p + 1 + j] == '\n');
        }
    }
    trimmed_part(t.take(p), '\n');
    trimmed_part(t.take(p), '=');
    trimmed_part(t.skip(p + 1), '\n');
    text_laws::trimmed_edges(line);
    if p > 0 {
        assert(t.take(p)[0] == t[0]);
        starts_alike(t.take(p));
    } else {
        assert(t.take(p) =~= Seq::empty());
    }
}

proof fn starts_alike(s: Seq<char>)
    requires
        s.len() > 0,
        !text::is_white_space(s[0]),
    ensures
        text::trimmed(s).len() > 0 ==> text::trimmed(s)[0] == s[0],
{
    assert(text::trim_start_of(s) == s);
    ends_shorter(s);
}

proof fn ends_shorter(s: Seq<char>)
    ensures
        text::trim_end_of(s).len() <= s.len(),
        forall|i: int| 0 <= i < text::trim_end_of(s).len() ==> text::trim_end_of(s)[i] == s[i],
    decreases s.len(),
{
    if s.len() > 0 && text::is_white_space(s.last()) {
        let t = s.drop_last();
        ends_shorter(t);
        assert forall|i: int| 0 <= i < text::trim_end_of(s).len() implies text::trim_end_of(s)[i]
            == s[i] by {
            assert(text::trim_end_of(t)[i] == t[i]);
        }
    }
}

/// Whatever a file sets fits into lines, and can be put in order.
proof fn lines_set_storable(ls: Seq<Seq<char>>)
    requires
        forall|i: int| 0 <= i < ls.len() ==> one_line(#[trigger] ls[i]),
    ensures
        storable_map(config::env_of(ls)),
        text_map::orderable(config::env_of(ls)),
    decreases ls.len(),
{
    if ls.len() == 0 {
        text_map::empty_is_orderable();
    } else {
        lines_set_storable(ls.drop_last());
        let m = config::env_of(ls.drop_last());
        if config::env_line(ls.last()) is Some {
            line_gives_storable(ls.last());
            let (k, v) = config::env_line(ls.last())->0;
            text_map::insert_is_orderable(m, k, v);
        }
    }
}

proof fn trimmed_push(s: Seq<char>, c: char)
    requires
        text::is_white_space(c),
    ensures
        text::trimmed(s.push(c)) == text::trimmed(s),
    decreases s.len(),
{
    let t = s.push(c);
    if s.len() == 0 {
        assert(t.drop_first() =~= s);
    } else if text::is_white_space(s[0]) {
        assert(t.drop_first() =~= s.drop_first().push(c));
        trimmed_push(s.drop_first(), c);
    } else {
        assert(t.drop_last() =~= s);
    }
}

/// A line `key=value` sets the key to the value, without the white space around
/// it.
proof fn row_is_read(k: Seq<char>, v: Seq<char>)
    requires
        storable_key(k),
        one_line(v),
    ensures
        config::env_line(k + "="@ + v) == Some((k, text::trimmed(v))),
        one_line(k + "="@ + v),
    decreases v.len(),
{
    reveal_strlit("=");
    let row = k + "="@ + v;
    assert(one_line(row)) by {
        if row.contains('\n') {
            let j = choose|j: int| 0 <= j < row.len() && row[j] == '\n';
            if j < k.len() {
                assert(k[j] == '\n');
            } else if j > k.len() {
                assert(v[j - k.len() - 1] == '\n');
            }
        }
    }
    if v.len() > 0 && text::is_white_space(v.last()) {
        let u = v.drop_last();
        assert(!u.contains('\n')) by {
            if u.contains('\n') {
                let j = choose|j: int| 0 <= j < u.len() && u[j] == '\n';
                assert(v[j] == '\n');
            }
        }
        row_is_read(k, u);
        assert(u.push(v.last()) =~= v);
        assert((k + "="@ + u).push(v.last()) =~= row);
        trimmed_push(u, v.last());
        trimmed_push(k + "="@ + u, v.last());
    } else {
        assert(!text::is_white_space('='));
        assert(!text::is_white_space(row[0])) by {
            text_laws::trimmed_edges(k);
            if k.len() > 0 {
                assert(row[0] == k[0]);
            }
        }
        assert(!text::is_white_space(row.last())) by {
            if v.len() > 0 {
                assert(row.last() == v.last());
            }
        }
        text_laws::trimmed_fixed(row);
        assert forall|j: int| 0 <= j < k.len() implies row[j] != '=' by {
            assert(k[j] == row[j]);
            assert(k.contains(k[j]));
        }
        text::lemma_position_is(row, '=', k.len() as int);
        assert(row.take(k.len() as int) =~= k);
        assert(row.skip(k.len() as int + 1) =~= v);
    }
}

/// A carriage return at the end of a line changes nothing of what it sets.
proof fn return_is_white_space(line: Seq<char>)
    ensures
        config::env_line(text::without_return(line)) == config::env_line(line),
{
    if line.len() > 0 && line.last() == '\r' {
        assert(line.drop_last().push('\r') =~= line);
        trimmed_push(line.drop_last(), '\r');
    }
}

proof fn header_is_comment()
    ensures
        config::env_of(text::lines_of(config::env_header())) == Map::<Seq<char>, Seq<char>>::empty(),
        config::env_header().last() == '\n',
{
    reveal_strlit("# Sally configuration. The API key is stored in plain text by design;\n");
    reveal_strlit("# anyone who can read this folder can obtain it.\n");
    reveal_strlit("\n");
    let a = "# Sally configuration. The API key is stored in plain text by design;\n"@;
    let b = "# anyone who can read this folder can obtain it.\n"@;
    let x = a.drop_last();
    let y = b.drop_last();
    let none = Seq::<char>::empty();
    assert(none + x + "\n"@ =~= a);
    assert(a + y + "\n"@ =~= config::env_header());
    one_more_line(none, x);
    one_more_line(a, y);
    let ls = text::lines_of(config::env_header());
    assert(text::lines_of(none) =~= Seq::empty());
    assert(ls =~= seq![x, y]);
    comment_sets_nothing(x);
    comment_sets_nothing(y);
    assert(ls.drop_last() =~= seq![x]);
    assert(seq![x].drop_last() =~= Seq::empty());
    assert(config::env_of(seq![x].drop_last()) =~= Map::empty());
    assert(config::env_of(seq![x]) =~= Map::empty());
}

proof fn comment_sets_nothing(line: Seq<char>)
    requires
        line.len() > 0,
        line[0] == '#',
    ensures
        config::env_line(line) is None,
{
    starts_alike(line);
}

proof fn rows_are_read(p: Seq<(Seq<char>, Seq<char>)>)
    requires
        forall|i: int| 0 <= i < p.len() ==> storable_key((#[trigger] p[i]).0) && one_line(p[i].1),
    ensures
        config::env_map(config::env_header() + config::env_rows(p)) == trimmed_map(
            text_map::as_map(p),
        ),
        (config::env_header() + config::env_rows(p)).last() == '\n',
    decreases p.len(),
{
    header_is_comment();
    reveal_strlit("\n");
    let head = config::env_header();
    if p.len() == 0 {
        assert(head + config::env_rows(p) =~= head);
        assert(trimmed_map(text_map::as_map(p)) =~= Map::empty());
    } else {
        let q = p.drop_last();
        rows_are_read(q);
        let s = head + config::env_rows(q);
        let (k, v) = p.last();
        let row = k + "="@ + v;
        row_is_read(k, v);
        return_is_white_space(row);
        one_more_line(s, row);
        assert(s + row + "\n"@ =~= head + config::env_rows(p));
        let ls = text::lines_of(s).push(text::without_return(row));
        assert(ls.drop_last() =~= text::lines_of(s));
        assert(trimmed_map(text_map::as_map(p)) =~= trimmed_map(text_map::as_map(q)).insert(
            k,
            text::trimmed(v),
        ));
    }
}

/// Reading back what was written gives the same settings without the white
/// space around their values, for every set of settings whose values stand on
/// one line.
pub proof fn settings_are_read_trimmed(m: Map<Seq<char>, Seq<char>>)
    requires
        lined_map(m),
        text_map::orderable(m),
    ensures
        config::env_map(config::env_text(m)) == trimmed_map(m),
{
    let p = text_map::in_order(m);
    text_map::lemma_as_map(p);
    assert forall|i: int| 0 <= i < p.len() implies storable_key((#[trigger] p[i]).0) && one_line(
        p[i].1,
    ) by {
        assert(m.contains_key(p[i].0));
    }
    rows_are_read(p);
}

/// Reading back what was written gives the same settings, for every set of
/// settings that fits into lines.
pub proof fn settings_are_read_back(m: Map<Seq<char>, Seq<char>>)
    requires
        storable_map(m),
        text_map::orderable(m),
    ensures
        config::env_map(config::env_text(m)) == m,
{
    settings_are_read_trimmed(m);
    assert(trimmed_map(m) =~= m);
}

impl ConfigModel {
    /// Every text of the configuration fits into one line without white space
    /// around it.
    pub open spec fn storable(self) -> bool {
        &&& storable_value(self.api_key)
        &&& storable_value(self.live_model)
        &&& storable_value(self.cleanup_model)
        &&& storable_value(self.target_language)
        &&& storable_value(self.ui_language)
        &&& storable_value(self.mic_device)
        &&& storable_value(self.system_device)
        &&& storable_value(self.capture_app)
        &&& storable_value(self.live_api_version)
    }

    /// Every text of the configuration stands on one line.
    pub open spec fn lined(self) -> bool {
        &&& one_line(self.api_key)
        &&& one_line(self.live_model)
        &&& one_line(self.cleanup_model)
        &&& one_line(self.target_language)
        &&& one_line(self.ui_language)
        &&& one_line(self.mic_device)
        &&& one_line(self.system_device)
        &&& one_line(self.capture_app)
        &&& one_line(self.live_api_version)
    }

    /// What has a default is not empty.
    pub open spec fn complete(self) -> bool {
        &&& self.live_model.len() > 0
        &&& self.cleanup_model.len() > 0
        &&& self.target_language.len() > 0
        &&& self.ui_language.len() > 0
        &&& self.live_api_version.len() > 0
    }
}

/// One of the keys that Sally sets itself.
pub open spec fn is_own_key(k: Seq<char>) -> bool {
    ||| k == config::KEY_API@
    ||| k == config::KEY_LIVE_MODEL@
    ||| k == config::KEY_CLEANUP_MODEL@
    ||| k == config::KEY_TARGET_LANG@
    ||| k == config::KEY_UI_LANG@
    ||| k == config::KEY_ALWAYS_ON_TOP@
    ||| k == config::KEY_MIC_DEVICE@
    ||| k == config::KEY_SYSTEM_DEVICE@
    ||| k == config::KEY_CAPTURE_APP@
    ||| k == config::KEY_READOUT@
    ||| k == config::KEY_LIVE_API_VERSION@
}

proof fn plain_word_is_storable(k: Seq<char>)
    requires
        k.len() > 0,
        forall|i: int|
            0 <= i < k.len() ==> ('A' <= #[trigger] k[i] && k[i] <= 'Z') || k[i] == '_' || ('a'
                <= k[i] && k[i] <= 'z'),
    ensures
        storable_key(k),
        storable_value(k),
{
    text_laws::trimmed_fixed(k);
}

proof fn own_keys()
    ensures
        forall|k: Seq<char>| is_own_key(k) ==> storable_key(k),
        storable_value("on"@),
        storable_value("off"@),
        "on"@ != "off"@,
{
    reveal_strlit("on");
    reveal_strlit("off");
    reveal_strlit("GEMINI_API_KEY");
    reveal_strlit("SALLY_LIVE_MODEL");
    reveal_strlit("SALLY_CLEANUP_MODEL");
    reveal_strlit("SALLY_TARGET_LANGUAGE");
    reveal_strlit("SALLY_UI_LANGUAGE");
    reveal_strlit("SALLY_CAPTURE_APP");
    reveal_strlit("SALLY_ALWAYS_ON_TOP");
    reveal_strlit("SALLY_MIC_DEVICE");
    reveal_strlit("SALLY_SYSTEM_DEVICE");
    reveal_strlit("SALLY_READOUT");
    reveal_strlit("SALLY_LIVE_API_VERSION");
    plain_word_is_storable("on"@);
    plain_word_is_storable("off"@);
    plain_word_is_storable(config::KEY_API@);
    plain_word_is_storable(config::KEY_LIVE_MODEL@);
    plain_word_is_storable(config::KEY_CLEANUP_MODEL@);
    plain_word_is_storable(config::KEY_TARGET_LANG@);
    plain_word_is_storable(config::KEY_UI_LANG@);
    plain_word_is_storable(config::KEY_ALWAYS_ON_TOP@);
    plain_word_is_storable(config::KEY_MIC_DEVICE@);
    plain_word_is_storable(config::KEY_SYSTEM_DEVICE@);
    plain_word_is_storable(config::KEY_CAPTURE_APP@);
    plain_word_is_storable(config::KEY_READOUT@);
    plain_word_is_storable(config::KEY_LIVE_API_VERSION@);
}

/// The keys that Sally sets itself, in the order in which they are set.
pub open spec fn own_key_list() -> Seq<Seq<char>> {
    seq![
        config::KEY_API@,
        config::KEY_LIVE_MODEL@,
        config::KEY_CLEANUP_MODEL@,
        config::KEY_TARGET_LANG@,
        config::KEY_UI_LANG@,
        config::KEY_ALWAYS_ON_TOP@,
        config::KEY_MIC_DEVICE@,
        config::KEY_SYSTEM_DEVICE@,
        config::KEY_CAPTURE_APP@,
        config::KEY_READOUT@,
        config::KEY_LIVE_API_VERSION@,
    ]
}

/// The keys that Sally sets are all different.
proof fn own_keys_differ()
    ensures
        own_key_list().len() == 11,
        own_key_list().no_duplicates(),
{
    reveal_strlit("GEMINI_API_KEY");
    reveal_strlit("SALLY_LIVE_MODEL");
    reveal_strlit("SALLY_CLEANUP_MODEL");
    reveal_strlit("SALLY_TARGET_LANGUAGE");
    reveal_strlit("SALLY_UI_LANGUAGE");
    reveal_strlit("SALLY_CAPTURE_APP");
    reveal_strlit("SALLY_ALWAYS_ON_TOP");
    reveal_strlit("SALLY_MIC_DEVICE");
    reveal_strlit("SALLY_SYSTEM_DEVICE");
    reveal_strlit("SALLY_READOUT");
    reveal_strlit("SALLY_LIVE_API_VERSION");
    let keys = own_key_list();
    assert(keys[0].len() == 14 && keys[0][6] == '_');
    assert(keys[1].len() == 16 && keys[1][6] == 'L');
    assert(keys[2].len() == 19 && keys[2][6] == 'C');
    assert(keys[3].len() == 21 && keys[3][6] == 'T');
    assert(keys[4].len() == 17 && keys[4][6] == 'U');
    assert(keys[5].len() == 19 && keys[5][6] == 'A');
    assert(keys[6].len() == 16 && keys[6][6] == 'M');
    assert(keys[7].len() == 19 && keys[7][6] == 'S');
    assert(keys[8].len() == 17 && keys[8][6] == 'C');
    assert(keys[9].len() == 13 && keys[9][6] == 'R');
    assert(keys[10].len() == 22 && keys[10][6] == 'L');
    assert forall|i: int, j: int| 0 <= i < j < 11 implies keys[i] != keys[j] by {
        if keys[i].len() == keys[j].len() {
            assert(keys[i][6] != keys[j][6]);
        }
    }
}

/// What is saved is read back: loading a saved configuration gives the
/// configuration, whatever the file held before.
pub proof fn saved_configuration_is_loaded(c: ConfigModel, existing: Option<Seq<char>>)
    requires
        c.storable(),
        c.complete(),
    ensures
        ConfigModel::loaded(c.data_dir, Some(config::env_text(c.saved_map(existing)))) == c,
{
    saved_settings_are_read_back(c, existing);
    own_keys_differ();
    own_keys();
    let keys = own_key_list();
    assert(forall|i: int, j: int| 0 <= i < j < 11 ==> keys[i] != keys[j]);
    let m = c.saved_map(existing);
    assert(m[keys[0]] == c.api_key);
    assert(m[keys[1]] == c.live_model);
    assert(m[keys[2]] == c.cleanup_model);
    assert(m[keys[3]] == c.target_language);
    assert(m[keys[4]] == c.ui_language);
    assert(m[keys[5]] == config::on_off(c.always_on_top));
    assert(m[keys[6]] == c.mic_device);
    assert(m[keys[7]] == c.system_device);
    assert(m[keys[8]] == c.capture_app);
    assert(m[keys[9]] == config::on_off(c.readout_enabled));
    assert(m[keys[10]] == c.live_api_version);
    assert(ConfigModel::from_env(c.data_dir, m) =~= c);
}

/// Saving writes exactly the settings: the file that comes out sets Sally's
/// own keys, and every other key as the existing file does, without white space
/// around the values.
pub proof fn saved_settings_are_read_trimmed(c: ConfigModel, existing: Option<Seq<char>>)
    requires
        c.lined(),
    ensures
        config::env_map(config::env_text(c.saved_map(existing))) == trimmed_map(
            c.saved_map(existing),
        ),
{
    own_keys();
    let base = match existing {
        None => Map::empty(),
        Some(s) => config::env_map(s),
    };
    match existing {
        None => text_map::empty_is_orderable(),
        Some(s) => {
            lines_are_lines(s);
            lines_set_storable(text::lines_of(s));
        },
    }
    let pairs = seq![
        (config::KEY_API@, c.api_key),
        (config::KEY_LIVE_MODEL@, c.live_model),
        (config::KEY_CLEANUP_MODEL@, c.cleanup_model),
        (config::KEY_TARGET_LANG@, c.target_language),
        (config::KEY_UI_LANG@, c.ui_language),
        (config::KEY_ALWAYS_ON_TOP@, config::on_off(c.always_on_top)),
        (config::KEY_MIC_DEVICE@, c.mic_device),
        (config::KEY_SYSTEM_DEVICE@, c.system_device),
        (config::KEY_CAPTURE_APP@, c.capture_app),
        (config::KEY_READOUT@, config::on_off(c.readout_enabled)),
        (config::KEY_LIVE_API_VERSION@, c.live_api_version),
    ];
    inserts_are_lined(base, pairs);
    reveal_with_fuel(inserted_all, 12);
    assert(pairs.drop_last().drop_last().drop_last().drop_last().drop_last().drop_last()
        .drop_last().drop_last().drop_last().drop_last().drop_last() =~= Seq::empty());
    assert(inserted_all(base, pairs) =~= c.saved_map(existing));
    settings_are_read_trimmed(c.saved_map(existing));
}

/// Saving writes exactly the settings: the file that comes out sets Sally's
/// own keys, and every other key as the existing file does.
pub proof fn saved_settings_are_read_back(c: ConfigModel, existing: Option<Seq<char>>)
    requires
        c.storable(),
    ensures
        config::env_map(config::env_text(c.saved_map(existing))) == c.saved_map(existing),
{
    saved_settings_are_read_trimmed(c, existing);
    own_keys();
    if let Some(s) = existing {
        lines_are_lines(s);
        lines_set_storable(text::lines_of(s));
    }
    let m = c.saved_map(existing);
    assert forall|k: Seq<char>| #[trigger] m.contains_key(k) implies text::trimmed(m[k]) == m[k] by {
        if !is_own_key(k) {
            assert(existing is Some);
            assert(config::env_map(existing->0).contains_key(k));
        }
    }
    assert(trimmed_map(m) =~= m);
}

spec fn inserted_all(
    m: Map<Seq<char>, Seq<char>>,
    pairs: Seq<(Seq<char>, Seq<char>)>,
) -> Map<Seq<char>, Seq<char>>
    decreases pairs.len(),
{
    if pairs.len() == 0 {
        m
    } else {
        inserted_all(m, pairs.drop_last()).insert(pairs.last().0, pairs.last().1)
    }
}

proof fn inserts_are_lined(m: Map<Seq<char>, Seq<char>>, pairs: Seq<(Seq<char>, Seq<char>)>)
    requires
        lined_map(m),
        text_map::orderable(m),
        forall|i: int|
            0 <= i < pairs.len() ==> storable_key((#[trigger] pairs[i]).0) && one_line(pairs[i].1),
    ensures
        lined_map(inserted_all(m, pairs)),
        text_map::orderable(inserted_all(m, pairs)),
    decreases pairs.len(),
{
    if pairs.len() > 0 {
        inserts_are_lined(m, pairs.drop_last());
        text_map::insert_is_orderable(
            inserted_all(m, pairs.drop_last()),
            pairs.last().0,
            pairs.last().1,
        );
    }
}

/// Keys that are not Sally's own keep the value that the existing file gives
/// them, no key is made up, and the file holds the API key. This takes only that
/// no text of the configuration has a line break.
pub proof fn unknown_keys_are_preserved(c: ConfigModel, existing: Seq<char>, k: Seq<char>)
    requires
        c.lined(),
        !is_own_key(k),
    ensures
        ({
            let before = config::env_map(existing);
            let after = config::env_map(config::env_text(c.saved_map(Some(existing))));
            &&& after.contains_key(k) == before.contains_key(k)
            &&& before.contains_key(k) ==> after[k] == before[k]
            &&& after.contains_key(config::KEY_API@)
            &&& after[config::KEY_API@] == text::trimmed(c.api_key)
        }),
{
    saved_settings_are_read_trimmed(c, Some(existing));
    lines_are_lines(existing);
    lines_set_storable(text::lines_of(existing));
    own_keys_differ();
    let keys = own_key_list();
    let m = c.saved_map(Some(existing));
    assert(keys[1] != keys[0] && keys[2] != keys[0] && keys[3] != keys[0] && keys[4] != keys[0]
        && keys[5] != keys[0] && keys[6] != keys[0] && keys[7] != keys[0] && keys[8] != keys[0]
        && keys[9] != keys[0] && keys[10] != keys[0]);
    assert(m[config::KEY_API@] == c.api_key);
}

// ---------------------------------------------------------------------------
// Settings
// ---------------------------------------------------------------------------

/// A text, or what stands in for it when it is missing or empty.
pub open spec fn or_else(m: Map<Seq<char>, Seq<char>>, key: Seq<char>, other: Seq<char>) -> Seq<char> {
    if m.contains_key(key) && m[key].len() > 0 {
        m[key]
    } else {
        other
    }
}

/// Each setting is found under its own key. What is missing has its default: an
/// empty text, the default models, Vietnamese as the target, English for the
/// interface, and both switches off.
pub proof fn settings_have_their_keys(data_dir: PathModel, m: Map<Seq<char>, Seq<char>>)
    ensures
        ({
            let c = ConfigModel::from_env(data_dir, m);
            let none = Seq::<char>::empty();
            &&& c.data_dir == data_dir
            &&& c.api_key == or_else(m, "GEMINI_API_KEY"@, none)
            &&& c.live_model == or_else(
                m,
                "SALLY_LIVE_MODEL"@,
                "gemini-3.5-live-translate-preview"@,
            )
            &&& c.cleanup_model == or_else(m, "SALLY_CLEANUP_MODEL"@, "gemini-3.1-flash-lite"@)
            &&& c.target_language == or_else(m, "SALLY_TARGET_LANGUAGE"@, "Vietnamese"@)
            &&& c.ui_language == or_else(m, "SALLY_UI_LANGUAGE"@, "en"@)
            &&& c.mic_device == or_else(m, "SALLY_MIC_DEVICE"@, none)
            &&& c.system_device == or_else(m, "SALLY_SYSTEM_DEVICE"@, none)
            &&& c.capture_app == or_else(m, "SALLY_CAPTURE_APP"@, none)
            &&& c.live_api_version == or_else(m, "SALLY_LIVE_API_VERSION"@, "v1beta"@)
            &&& c.always_on_top <==> m.contains_key("SALLY_ALWAYS_ON_TOP"@)
                && m["SALLY_ALWAYS_ON_TOP"@] != "off"@
            &&& c.readout_enabled <==> m.contains_key("SALLY_READOUT"@) && m["SALLY_READOUT"@]
                == "on"@
        }),
{
    let c = ConfigModel::from_env(data_dir, m);
    let none = Seq::<char>::empty();
    assert(c.api_key =~= or_else(m, "GEMINI_API_KEY"@, none));
    assert(c.mic_device =~= or_else(m, "SALLY_MIC_DEVICE"@, none));
    assert(c.system_device =~= or_else(m, "SALLY_SYSTEM_DEVICE"@, none));
    assert(c.capture_app =~= or_else(m, "SALLY_CAPTURE_APP"@, none));
}

/// A folder without a file has the configuration of a file without settings.
pub proof fn missing_files_mean_defaults(data_dir: PathModel)
    ensures
        ConfigModel::loaded(data_dir, None) == ConfigModel::from_env(data_dir, Map::empty()),
{
    assert(ConfigModel::loaded(data_dir, None) =~= ConfigModel::from_env(data_dir, Map::empty()));
}

/// Each setting is saved under its own key, and a switch as `on` or `off`.
pub proof fn settings_are_saved_under_their_keys(c: ConfigModel, existing: Option<Seq<char>>)
    ensures
        ({
            let m = c.saved_map(existing);
            &&& m["GEMINI_API_KEY"@] == c.api_key
            &&& m["SALLY_LIVE_MODEL"@] == c.live_model
            &&& m["SALLY_CLEANUP_MODEL"@] == c.cleanup_model
            &&& m["SALLY_TARGET_LANGUAGE"@] == c.target_language
            &&& m["SALLY_UI_LANGUAGE"@] == c.ui_language
            &&& m["SALLY_ALWAYS_ON_TOP"@] == if c.always_on_top { "on"@ } else { "off"@ }
            &&& m["SALLY_MIC_DEVICE"@] == c.mic_device
            &&& m["SALLY_SYSTEM_DEVICE"@] == c.system_device
            &&& m["SALLY_CAPTURE_APP"@] == c.capture_app
            &&& m["SALLY_READOUT"@] == if c.readout_enabled { "on"@ } else { "off"@ }
            &&& m["SALLY_LIVE_API_VERSION"@] == c.live_api_version
        }),
{
    own_keys_differ();
    let keys = own_key_list();
    assert(forall|i: int, j: int| 0 <= i < j < 11 ==> keys[i] != keys[j]);
    let m = c.saved_map(existing);
    assert(m[keys[0]] == c.api_key);
    assert(m[keys[1]] == c.live_model);
    assert(m[keys[2]] == c.cleanup_model);
    assert(m[keys[3]] == c.target_language);
    assert(m[keys[4]] == c.ui_language);
    assert(m[keys[5]] == config::on_off(c.always_on_top));
    assert(m[keys[6]] == c.mic_device);
    assert(m[keys[7]] == c.system_device);
    assert(m[keys[8]] == c.capture_app);
    assert(m[keys[9]] == config::on_off(c.readout_enabled));
    assert(m[keys[10]] == c.live_api_version);
}

/// A line that sets a key sets it whatever the lines before it said, and leaves
/// every other key alone; white space around the value does not count.
pub proof fn later_lines_win(ls: Seq<Seq<char>>, key: Seq<char>, value: Seq<char>, k: Seq<char>)
    requires
        storable_key(key),
        one_line(value),
    ensures
        ({
            let before = config::env_of(ls);
            let after = config::env_of(ls.push(key + "="@ + value));
            &&& after.contains_key(key) && after[key] == text::trimmed(value)
            &&& k != key ==> after.contains_key(k) == before.contains_key(k)
            &&& k != key && before.contains_key(k) ==> after[k] == before[k]
        }),
{
    row_is_read(key, value);
    assert(ls.push(key + "="@ + value).drop_last() =~= ls);
}

/// Comments, blank lines and lines without a sign of equality set nothing.
pub proof fn other_lines_set_nothing(ls: Seq<Seq<char>>, line: Seq<char>)
    requires
        text::is_blank(line) || !line.contains('=') || text::trimmed(line)[0] == '#',
    ensures
        config::env_of(ls.push(line)) == config::env_of(ls),
{
    let t = text::trimmed(line);
    text_laws::trimmed_empty(line);
    text::lemma_position(t, '=');
    assert(ls.push(line).drop_last() =~= ls);
    if !line.contains('=') {
        trimmed_part(line, '=');
    }
}

/// What the interface sees of a configuration tells whether there is a key, and
/// is the same for every key that there could be.
pub proof fn shown_settings_hide_the_key(c: ConfigModel, api_key: Seq<char>)
    requires
        text::is_blank(api_key) == text::is_blank(c.api_key),
    ensures
        c.redaction().has_api_key <==> text::ink(c.api_key).len() > 0,
        (ConfigModel { api_key, ..c }).redaction() == c.redaction(),
        c.redaction().data_dir == c.data_dir,
        c.redaction().live_model == c.live_model,
        c.redaction().cleanup_model == c.cleanup_model,
        c.redaction().target_language == c.target_language,
        c.redaction().ui_language == c.ui_language,
        c.redaction().always_on_top == c.always_on_top,
        c.redaction().mic_device == c.mic_device,
        c.redaction().system_device == c.system_device,
        c.redaction().capture_app == c.capture_app,
        c.redaction().readout_enabled == c.readout_enabled,
{
    text_laws::ink_of_blank(c.api_key);
}

} // verus!
