//! Facts about the operations of [`crate::text`].
use vstd::prelude::*;
use crate::text;

verus! {

// ---------------------------------------------------------------------------
// White space and visible characters
// ---------------------------------------------------------------------------

/// Joining two texts joins their visible characters.
pub proof fn ink_of_join(a: Seq<char>, b: Seq<char>)
    ensures
        text::ink(a + b) == text::ink(a) + text::ink(b),
{
    Seq::filter_distributes_over_add(a, b, |c: char| !text::is_white_space(c));
}

/// One visible character more is one character of ink more; white space adds
/// none.
pub proof fn ink_of_push(s: Seq<char>, c: char)
    ensures
        text::ink(s.push(c)) == if text::is_white_space(c) { text::ink(s) } else { text::ink(s).push(c) },
{
    let keep = |c: char| !text::is_white_space(c);
    assert(s.push(c).drop_last() =~= s);
    reveal(Seq::filter);
}

/// Text that is all white space has no visible characters, and only that.
pub proof fn ink_of_blank(s: Seq<char>)
    ensures
        text::is_blank(s) <==> text::ink(s).len() == 0,
    decreases s.len(),
{
    if s.len() > 0 {
        let t = s.drop_last();
        assert(t.push(s.last()) =~= s);
        ink_of_push(t, s.last());
        ink_of_blank(t);
        if text::is_blank(t) && text::is_white_space(s.last()) {
            assert forall|i: int| 0 <= i < s.len() implies text::is_white_space(#[trigger] s[i]) by {
                if i < t.len() {
                    assert(s[i] == t[i]);
                }
            }
        }
        if text::is_blank(s) {
            assert forall|i: int| 0 <= i < t.len() implies text::is_white_space(#[trigger] t[i]) by {
                assert(t[i] == s[i]);
            }
        }
    } else {
        reveal(Seq::filter);
    }
}

proof fn ink_of_one(c: char)
    ensures
        text::ink(seq![c]) == if text::is_white_space(c) { Seq::empty() } else { seq![c] },
{
    let e = Seq::<char>::empty();
    assert(e.push(c) =~= seq![c]);
    ink_of_push(e, c);
    ink_of_blank(e);
    assert(text::ink(e) =~= e);
    assert(e.push(c) =~= seq![c]);
}

/// Trimming removes no visible character.
pub proof fn trim_start_keeps_ink(s: Seq<char>)
    ensures
        text::ink(text::trim_start_of(s)) == text::ink(s),
    decreases s.len(),
{
    if s.len() > 0 && text::is_white_space(s[0]) {
        trim_start_keeps_ink(s.drop_first());
        assert(seq![s[0]] + s.drop_first() =~= s);
        ink_of_join(seq![s[0]], s.drop_first());
        ink_of_one(s[0]);
        assert(text::ink(s) =~= text::ink(s.drop_first()));
    }
}

/// Trimming removes no visible character.
pub proof fn trim_end_keeps_ink(s: Seq<char>)
    ensures
        text::ink(text::trim_end_of(s)) == text::ink(s),
    decreases s.len(),
{
    if s.len() > 0 && text::is_white_space(s.last()) {
        trim_end_keeps_ink(s.drop_last());
        assert(s.drop_last().push(s.last()) =~= s);
        ink_of_push(s.drop_last(), s.last());
    }
}

/// Trimming removes no visible character.
pub proof fn trim_keeps_ink(s: Seq<char>)
    ensures
        text::ink(text::trimmed(s)) == text::ink(s),
{
    trim_start_keeps_ink(s);
    trim_end_keeps_ink(text::trim_start_of(s));
}

/// What is left after trimming is empty exactly when the text was blank.
pub proof fn trimmed_empty(s: Seq<char>)
    ensures
        text::trimmed(s).len() == 0 <==> text::is_blank(s),
{
    trim_keeps_ink(s);
    ink_of_blank(s);
    ink_of_blank(text::trimmed(s));
    trimmed_edges(s);
    if text::trimmed(s).len() > 0 && text::is_blank(text::trimmed(s)) {
        assert(text::is_white_space(text::trimmed(s)[0]));
    }
}

proof fn trim_start_edge(s: Seq<char>)
    ensures
        text::trim_start_of(s).len() > 0 ==> !text::is_white_space(text::trim_start_of(s)[0]),
        text::trim_start_of(s).len() <= s.len(),
        text::trim_start_of(s) == s.skip(s.len() - text::trim_start_of(s).len()),
    decreases s.len(),
{
    if s.len() > 0 && text::is_white_space(s[0]) {
        trim_start_edge(s.drop_first());
        let t = text::trim_start_of(s.drop_first());
        assert(s.skip(s.len() - t.len()) =~= s.drop_first().skip(s.len() - 1 - t.len()));
    } else {
        assert(s.skip(0) =~= s);
    }
}

proof fn trim_end_edge(s: Seq<char>)
    ensures
        text::trim_end_of(s).len() > 0 ==> !text::is_white_space(text::trim_end_of(s).last()),
        text::trim_end_of(s).len() <= s.len(),
        text::trim_end_of(s) == s.take(text::trim_end_of(s).len() as int),
    decreases s.len(),
{
    if s.len() > 0 && text::is_white_space(s.last()) {
        trim_end_edge(s.drop_last());
        let t = text::trim_end_of(s.drop_last());
        assert(s.take(t.len() as int) =~= s.drop_last().take(t.len() as int));
    } else {
        assert(s.take(s.len() as int) =~= s);
    }
}

/// A trimmed text neither begins nor ends with white space, and it is a part
/// of the text.
pub proof fn trimmed_edges(s: Seq<char>)
    ensures
        text::trimmed(s).len() > 0 ==> !text::is_white_space(text::trimmed(s)[0]) && !text::is_white_space(
            text::trimmed(s).last(),
        ),
        exists|i: int| text::occurs_at(s, text::trimmed(s), i),
{
    let t = text::trim_start_of(s);
    trim_start_edge(s);
    trim_end_edge(t);
    let u = text::trimmed(s);
    if u.len() > 0 {
        assert(u[0] == t[0]);
    }
    let i = s.len() - t.len();
    assert(s.subrange(i, i + u.len()) =~= u);
    assert(text::occurs_at(s, u, i));
}

/// Text without white space at its edges is already trimmed.
pub proof fn trimmed_fixed(s: Seq<char>)
    requires
        s.len() > 0 ==> !text::is_white_space(s[0]) && !text::is_white_space(s.last()),
    ensures
        text::trimmed(s) == s,
{
}

/// Trimming twice is trimming once.
pub proof fn trimmed_twice(s: Seq<char>)
    ensures
        text::trimmed(text::trimmed(s)) == text::trimmed(s),
{
    trimmed_edges(s);
    trimmed_fixed(text::trimmed(s));
}

// ---------------------------------------------------------------------------
// Order
// ---------------------------------------------------------------------------

/// No text comes before itself.
pub proof fn precedes_irreflexive(a: Seq<char>)
    ensures
        !text::precedes(a, a),
    decreases a.len(),
{
    if a.len() > 0 {
        precedes_irreflexive(a.drop_first());
    }
}

/// The dictionary order is transitive.
pub proof fn precedes_transitive(a: Seq<char>, b: Seq<char>, c: Seq<char>)
    requires
        text::precedes(a, b),
        text::precedes(b, c),
    ensures
        text::precedes(a, c),
    decreases a.len(),
{
    if a.len() > 0 && a[0] == b[0] && b[0] == c[0] {
        precedes_transitive(a.drop_first(), b.drop_first(), c.drop_first());
    }
}

/// Of two different texts one comes first.
pub proof fn precedes_total(a: Seq<char>, b: Seq<char>)
    ensures
        text::precedes(a, b) || text::precedes(b, a) || a == b,
    decreases a.len(),
{
    if a.len() > 0 && b.len() > 0 && a[0] == b[0] {
        precedes_total(a.drop_first(), b.drop_first());
        if a.drop_first() == b.drop_first() {
            assert(a =~= seq![a[0]] + a.drop_first());
            assert(b =~= seq![b[0]] + b.drop_first());
            assert(a == b);
        }
    } else if a.len() == 0 && b.len() == 0 {
        assert(a =~= b);
    }
}

// ---------------------------------------------------------------------------
// Numbers
// ---------------------------------------------------------------------------

/// `c` is a decimal digit.
pub open spec fn is_digit(c: char) -> bool {
    '0' <= c && c <= '9'
}

pub proof fn decimal_is_digits(n: nat)
    ensures
        text::decimal(n).len() > 0,
        forall|i: int| 0 <= i < text::decimal(n).len() ==> is_digit(#[trigger] text::decimal(n)[i]),
    decreases n,
{
    if n >= 10 {
        decimal_is_digits(n / 10);
    }
}

/// Two numbers with the same decimal digits are equal.
pub proof fn decimal_injective(a: nat, b: nat)
    requires
        text::decimal(a) == text::decimal(b),
    ensures
        a == b,
    decreases a,
{
    decimal_is_digits(a / 10);
    decimal_is_digits(b / 10);
    if a >= 10 && b >= 10 {
        assert(text::decimal(a).drop_last() =~= text::decimal(a / 10));
        assert(text::decimal(b).drop_last() =~= text::decimal(b / 10));
        decimal_injective(a / 10, b / 10);
        assert(text::decimal(a).last() == text::digit((a % 10) as int));
        assert(text::decimal(b).last() == text::digit((b % 10) as int));
    } else if a < 10 && b < 10 {
        assert(text::decimal(a)[0] == text::digit(a as int));
        assert(text::decimal(b)[0] == text::digit(b as int));
    } else if a < 10 {
        assert(text::decimal(a).len() == 1);
        assert(text::decimal(b).len() >= 2);
    } else {
        assert(text::decimal(b).len() == 1);
        assert(text::decimal(a).len() >= 2);
    }
}

/// Below a hundred, two digits are two digits, and they name the number.
pub proof fn two_digits_shape(n: nat)
    requires
        n < 100,
    ensures
        text::two_digits(n).len() == 2,
        text::two_digits(n)[0] == text::digit((n / 10) as int),
        text::two_digits(n)[1] == text::digit((n % 10) as int),
{
    if n >= 10 {
        assert(text::decimal(n / 10) =~= seq![text::digit((n / 10) as int)]);
    }
}

// ---------------------------------------------------------------------------
// Replacing
// ---------------------------------------------------------------------------

proof fn joined_first(a: Seq<char>, rest: Seq<Seq<char>>, sep: Seq<char>)
    requires
        rest.len() > 0,
    ensures
        text::joined(seq![a] + rest, sep) == a + sep + text::joined(rest, sep),
    decreases rest.len(),
{
    let all = seq![a] + rest;
    if rest.len() == 1 {
        assert(all.drop_last() =~= seq![a]);
        assert(text::joined(seq![a], sep) == a);
        assert(text::joined(all, sep) =~= a + sep + text::joined(rest, sep));
    } else {
        assert(all.drop_last() =~= seq![a] + rest.drop_last());
        joined_first(a, rest.drop_last(), sep);
        assert(text::joined(all, sep) =~= a + sep + text::joined(rest, sep));
    }
}

proof fn joined_longer_first(c: Seq<char>, pieces: Seq<Seq<char>>, sep: Seq<char>)
    requires
        pieces.len() > 0,
    ensures
        text::joined(pieces.update(0, c + pieces[0]), sep) == c + text::joined(pieces, sep),
    decreases pieces.len(),
{
    let more = pieces.update(0, c + pieces[0]);
    if pieces.len() > 1 {
        joined_longer_first(c, pieces.drop_last(), sep);
        assert(more.drop_last() =~= pieces.drop_last().update(0, c + pieces[0]));
        assert(text::joined(more, sep) =~= c + text::joined(pieces, sep));
    }
}

/// `s` is the pieces with `from` between them, and no piece holds `from`.
pub open spec fn cut_at(s: Seq<char>, from: Seq<char>, pieces: Seq<Seq<char>>) -> bool {
    &&& pieces.len() > 0
    &&& s == text::joined(pieces, from)
    &&& forall|i: int| 0 <= i < pieces.len() ==> !text::occurs(#[trigger] pieces[i], from)
}

/// Replacing cuts a text at every occurrence and puts the pieces together
/// again with the replacement: nothing else changes, and no occurrence is left
/// inside a piece.
pub proof fn replaced_in_pieces(s: Seq<char>, from: Seq<char>, to: Seq<char>) -> (pieces: Seq<
    Seq<char>,
>)
    requires
        from.len() > 0,
    ensures
        cut_at(s, from, pieces),
        text::replaced(s, from, to) == text::joined(pieces, to),
        pieces[0].len() <= s.len(),
        s.take(pieces[0].len() as int) == pieces[0],
    decreases s.len(),
{
    if s.len() < from.len() {
        assert(s.take(s.len() as int) =~= s);
        seq![s]
    } else if text::starts(s, from) {
        let rest = s.skip(from.len() as int);
        let tail = replaced_in_pieces(rest, from, to);
        let none = Seq::<char>::empty();
        let pieces = seq![none] + tail;
        joined_first(none, tail, from);
        joined_first(none, tail, to);
        assert(none + from + rest =~= s) by {
            assert(s.subrange(0, from.len() as int) + rest =~= s);
        }
        assert(none + to + text::joined(tail, to) =~= to + text::joined(tail, to));
        assert forall|i: int| 0 <= i < pieces.len() implies !text::occurs(
            #[trigger] pieces[i],
            from,
        ) by {
            if i > 0 {
                assert(pieces[i] == tail[i - 1]);
            }
        }
        assert(s.take(0) =~= none);
        pieces
    } else {
        let c = seq![s[0]];
        let rest = s.drop_first();
        let tail = replaced_in_pieces(rest, from, to);
        let pieces = tail.update(0, c + tail[0]);
        joined_longer_first(c, tail, from);
        joined_longer_first(c, tail, to);
        assert(c + rest =~= s);
        assert(s.take(pieces[0].len() as int) =~= pieces[0]) by {
            assert forall|k: int| 0 <= k < pieces[0].len() implies s[k] == pieces[0][k] by {
                if k > 0 {
                    assert(rest.take(tail[0].len() as int)[k - 1] == tail[0][k - 1]);
                }
            }
        }
        assert forall|i: int| 0 <= i < pieces.len() implies !text::occurs(
            #[trigger] pieces[i],
            from,
        ) by {
            if i > 0 {
                assert(pieces[i] == tail[i]);
            } else if text::occurs(pieces[0], from) {
                let k = choose|k: int| text::occurs_at(pieces[0], from, k);
                if k == 0 {
                    assert(s.subrange(0, from.len() as int) =~= pieces[0].subrange(
                        0,
                        from.len() as int,
                    ));
                } else {
                    assert(tail[0].subrange(k - 1, k - 1 + from.len()) =~= pieces[0].subrange(
                        k,
                        k + from.len(),
                    ));
                    assert(text::occurs_at(tail[0], from, k - 1));
                }
            }
        }
        pieces
    }
}

/// However `a` is laid over `b` so that they overlap, they differ somewhere in
/// the overlap.
pub open spec fn clear_of(a: Seq<char>, b: Seq<char>) -> bool {
    forall|d: int| -a.len() < d < b.len() ==> #[trigger] differ_at(a, b, d)
}

/// `a`, laid over `b` from position `d` of `b`, differs from it.
pub open spec fn differ_at(a: Seq<char>, b: Seq<char>, d: int) -> bool {
    exists|j: int| 0 <= j < a.len() && 0 <= d + j < b.len() && #[trigger] a[j] != b[d + j]
}

proof fn start_is_kept(s: Seq<char>, from: Seq<char>, to: Seq<char>, k: int)
    requires
        from.len() > 0,
        to.len() > 0,
        clear_of(from, to),
        0 <= k <= from.len(),
        text::starts(text::replaced(s, from, to), from.skip(k)),
    ensures
        text::starts(s, from.skip(k)),
    decreases s.len(),
{
    let r = text::replaced(s, from, to);
    let p = from.skip(k);
    if p.len() == 0 {
        assert(s.subrange(0, 0) =~= p);
    } else if s.len() < from.len() {
    } else if text::starts(s, from) {
        assert(differ_at(from, to, -k));
        let j = choose|j: int|
            0 <= j < from.len() && 0 <= -k + j < to.len() && #[trigger] from[j] != to[-k + j];
        assert(p[j - k] == from[j]);
        assert(r.subrange(0, p.len() as int)[j - k] == r[j - k]);
        assert(r[j - k] == to[j - k]);
    } else {
        let t = s.drop_first();
        let rt = text::replaced(t, from, to);
        assert(r.subrange(0, p.len() as int)[0] == r[0]);
        assert(p[0] == s[0]);
        assert(from.skip(k + 1) =~= p.drop_first());
        assert(rt.subrange(0, p.len() - 1) =~= r.subrange(0, p.len() as int).drop_first());
        start_is_kept(t, from, to, k + 1);
        assert(s.subrange(0, p.len() as int) =~= seq![s[0]] + t.subrange(0, p.len() - 1));
        assert(p =~= seq![p[0]] + p.drop_first());
    }
}

/// Where the replacement and the replaced text cannot overlap, the replaced
/// text is gone.
pub proof fn replaced_is_gone(s: Seq<char>, from: Seq<char>, to: Seq<char>)
    requires
        from.len() > 0,
        to.len() > 0,
        clear_of(from, to),
    ensures
        !text::occurs(text::replaced(s, from, to), from),
    decreases s.len(),
{
    let r = text::replaced(s, from, to);
    if text::occurs(r, from) {
        let i = choose|i: int| text::occurs_at(r, from, i);
        if s.len() < from.len() {
        } else if text::starts(s, from) {
            let rest = text::replaced(s.skip(from.len() as int), from, to);
            replaced_is_gone(s.skip(from.len() as int), from, to);
            if i >= to.len() {
                assert(rest.subrange(i - to.len(), i - to.len() + from.len()) =~= r.subrange(
                    i,
                    i + from.len(),
                ));
                assert(text::occurs_at(rest, from, i - to.len()));
            } else {
                assert(differ_at(from, to, i));
                let j = choose|j: int|
                    0 <= j < from.len() && 0 <= i + j < to.len() && #[trigger] from[j] != to[i + j];
                assert(r.subrange(i, i + from.len())[j] == r[i + j]);
                assert(r[i + j] == to[i + j]);
            }
        } else {
            let rest = text::replaced(s.drop_first(), from, to);
            replaced_is_gone(s.drop_first(), from, to);
            if i > 0 {
                assert(rest.subrange(i - 1, i - 1 + from.len()) =~= r.subrange(i, i + from.len()));
                assert(text::occurs_at(rest, from, i - 1));
            } else {
                assert(from.skip(0) =~= from);
                start_is_kept(s, from, to, 0);
            }
        }
    }
}

/// Every part of a joined text stands in it.
pub proof fn joined_parts_are_kept(parts: Seq<Seq<char>>, sep: Seq<char>, i: int)
    requires
        0 <= i < parts.len(),
    ensures
        text::occurs(text::joined(parts, sep), parts[i]),
    decreases parts.len(),
{
    let all = text::joined(parts, sep);
    if parts.len() == 1 {
        assert(all.subrange(0, all.len() as int) =~= all);
        assert(text::occurs_at(all, parts[0], 0));
    } else if i == parts.len() - 1 {
        let before = text::joined(parts.drop_last(), sep) + sep;
        assert(all.subrange(before.len() as int, all.len() as int) =~= parts[i]);
        assert(text::occurs_at(all, parts[i], before.len() as int));
    } else {
        let before = text::joined(parts.drop_last(), sep);
        joined_parts_are_kept(parts.drop_last(), sep, i);
        let k = choose|k: int| text::occurs_at(before, parts[i], k);
        assert(all.subrange(k, k + parts[i].len()) =~= before.subrange(k, k + parts[i].len()));
        assert(text::occurs_at(all, parts[i], k));
    }
}

// ---------------------------------------------------------------------------
// Texts within texts
// ---------------------------------------------------------------------------

/// The characters of `a` stand in `b`, in order, with others between them.
pub open spec fn within(a: Seq<char>, b: Seq<char>) -> bool
    decreases b.len(),
{
    if a.len() == 0 {
        true
    } else if b.len() == 0 {
        false
    } else {
        ||| a.last() == b.last() && within(a.drop_last(), b.drop_last())
        ||| within(a, b.drop_last())
    }
}

pub proof fn within_itself(a: Seq<char>)
    ensures
        within(a, a),
    decreases a.len(),
{
    if a.len() > 0 {
        within_itself(a.drop_last());
    }
}

/// What stands in two texts, one after the other, stands in both joined.
pub proof fn within_joined(a: Seq<char>, b: Seq<char>, c: Seq<char>, d: Seq<char>)
    requires
        within(a, b),
        within(c, d),
    ensures
        within(a + c, b + d),
    decreases d.len(),
{
    if d.len() == 0 {
        assert(a + c =~= a);
        assert(b + d =~= b);
    } else {
        assert((b + d).drop_last() =~= b + d.drop_last());
        if c.len() > 0 && c.last() == d.last() && within(c.drop_last(), d.drop_last()) {
            within_joined(a, b, c.drop_last(), d.drop_last());
            assert((a + c).drop_last() =~= a + c.drop_last());
        } else {
            within_joined(a, b, c, d.drop_last());
        }
    }
}

/// The visible characters of a part of a text stand among those of the text.
pub proof fn parts_are_within(before: Seq<char>, part: Seq<char>, after: Seq<char>)
    ensures
        within(text::ink(part), text::ink(before + part + after)),
{
    let none = Seq::<char>::empty();
    let p = text::ink(part);
    ink_of_join(before + part, after);
    ink_of_join(before, part);
    within_itself(p);
    within_joined(none, text::ink(before), p, p);
    assert(none + p =~= p);
    within_joined(p, text::ink(before) + p, none, text::ink(after));
    assert(p + none =~= p);
}

// ---------------------------------------------------------------------------
// Case
// ---------------------------------------------------------------------------

/// Only the capitals of ASCII change in lower case, each to the small letter that
/// stands 32 places after it.
pub proof fn capitals_become_small(s: Seq<char>, i: int)
    requires
        0 <= i < s.len(),
    ensures
        text::ascii_lowered(s).len() == s.len(),
        'A' <= s[i] <= 'Z' ==> text::ascii_lowered(s)[i] as u32 == s[i] as u32 + 32,
        !('A' <= s[i] <= 'Z') ==> text::ascii_lowered(s)[i] == s[i],
        text::ascii_lowered(text::ascii_lowered(s)) == text::ascii_lowered(s),
{
    assert(text::ascii_lowered(text::ascii_lowered(s)) =~= text::ascii_lowered(s));
}

} // verus!
