//! Text as sequences of characters.
//!
//! Strings are modelled by their characters (`s@`). The functions here are the
//! few operations the rest of the crate is written with: trimming, splitting
//! into lines, replacing, comparing and printing numbers.
use vstd::prelude::*;

verus! {

/// `String::push` appends one character to the end of the string.
pub assume_specification[ String::push ](s: &mut String, ch: char)
    ensures
        final(s)@ == old(s)@.push(ch),
;

/// `String::push_str` appends the characters of the slice to the end of the
/// string.
pub assume_specification[ String::push_str ](s: &mut String, string: &str)
    ensures
        final(s)@ == old(s)@ + string@,
;

// ---------------------------------------------------------------------------
// Model
// ---------------------------------------------------------------------------

/// Characters with the Unicode `White_Space` property.
pub open spec fn is_white_space(c: char) -> bool {
    let u = c as u32;
    ||| 0x09 <= u <= 0x0D
    ||| u == 0x20
    ||| u == 0x85
    ||| u == 0xA0
    ||| u == 0x1680
    ||| 0x2000 <= u <= 0x200A
    ||| u == 0x2028
    ||| u == 0x2029
    ||| u == 0x202F
    ||| u == 0x205F
    ||| u == 0x3000
}

/// `s` holds nothing but white space.
pub open spec fn is_blank(s: Seq<char>) -> bool {
    forall|i: int| 0 <= i < s.len() ==> is_white_space(#[trigger] s[i])
}

/// `s` without its leading white space.
pub open spec fn trim_start_of(s: Seq<char>) -> Seq<char>
    decreases s.len(),
{
    if s.len() > 0 && is_white_space(s[0]) {
        trim_start_of(s.drop_first())
    } else {
        s
    }
}

/// `s` without its trailing white space.
pub open spec fn trim_end_of(s: Seq<char>) -> Seq<char>
    decreases s.len(),
{
    if s.len() > 0 && is_white_space(s.last()) {
        trim_end_of(s.drop_last())
    } else {
        s
    }
}

/// `s` without the white space around it.
pub open spec fn trimmed(s: Seq<char>) -> Seq<char> {
    trim_end_of(trim_start_of(s))
}

/// The visible characters of `s`, in order.
pub open spec fn ink(s: Seq<char>) -> Seq<char> {
    s.filter(|c: char| !is_white_space(c))
}

/// The characters of each string of a list.
pub open spec fn texts(v: Seq<String>) -> Seq<Seq<char>> {
    Seq::new(v.len(), |i: int| v[i]@)
}

/// `s` begins with `p`.
pub open spec fn starts(s: Seq<char>, p: Seq<char>) -> bool {
    p.len() <= s.len() && s.subrange(0, p.len() as int) == p
}

/// `s` ends with `p`.
pub open spec fn ends(s: Seq<char>, p: Seq<char>) -> bool {
    p.len() <= s.len() && s.subrange(s.len() - p.len(), s.len() as int) == p
}

/// `p` stands in `s` at position `i`.
pub open spec fn occurs_at(s: Seq<char>, p: Seq<char>, i: int) -> bool {
    0 <= i && i + p.len() <= s.len() && s.subrange(i, i + p.len()) == p
}

/// `p` stands somewhere in `s`.
pub open spec fn occurs(s: Seq<char>, p: Seq<char>) -> bool {
    exists|i: int| occurs_at(s, p, i)
}

/// Position of the first `c` in `s`, or `s.len()` when there is none.
pub open spec fn position(s: Seq<char>, c: char) -> nat
    decreases s.len(),
{
    if s.len() == 0 || s[0] == c {
        0
    } else {
        1 + position(s.drop_first(), c)
    }
}

/// A line without the carriage return of a `\r\n` ending.
pub open spec fn without_return(line: Seq<char>) -> Seq<char> {
    if line.len() > 0 && line.last() == '\r' {
        line.drop_last()
    } else {
        line
    }
}

/// The lines of `s`, each without its `\n` or `\r\n` ending. The ending of the
/// last line is optional.
pub open spec fn lines_of(s: Seq<char>) -> Seq<Seq<char>>
    decreases s.len(),
{
    let n = position(s, '\n');
    if s.len() == 0 {
        Seq::empty()
    } else if n >= s.len() {
        seq![s]
    } else {
        seq![without_return(s.take(n as int))] + lines_of(s.skip(n as int + 1))
    }
}

/// The parts one after the other, with `sep` between neighbours.
pub open spec fn joined(parts: Seq<Seq<char>>, sep: Seq<char>) -> Seq<char>
    decreases parts.len(),
{
    if parts.len() == 0 {
        Seq::empty()
    } else if parts.len() == 1 {
        parts[0]
    } else {
        joined(parts.drop_last(), sep) + sep + parts.last()
    }
}

/// `s` with every occurrence of `from` replaced by `to`, scanning from the
/// left and never looking into what was replaced.
pub open spec fn replaced(s: Seq<char>, from: Seq<char>, to: Seq<char>) -> Seq<char>
    decreases s.len(),
{
    if from.len() == 0 || s.len() < from.len() {
        s
    } else if starts(s, from) {
        to + replaced(s.skip(from.len() as int), from, to)
    } else {
        seq![s[0]] + replaced(s.drop_first(), from, to)
    }
}

/// The lower-case form of an ASCII letter; any other character as it is.
pub open spec fn ascii_lower(c: char) -> char {
    if 'A' <= c && c <= 'Z' {
        (c as u32 + 32) as char
    } else {
        c
    }
}

/// `s` with its ASCII letters in lower case.
pub open spec fn ascii_lowered(s: Seq<char>) -> Seq<char> {
    s.map_values(|c: char| ascii_lower(c))
}

/// The decimal digit of `d`.
pub open spec fn digit(d: int) -> char {
    if d == 0 { '0' }
    else if d == 1 { '1' }
    else if d == 2 { '2' }
    else if d == 3 { '3' }
    else if d == 4 { '4' }
    else if d == 5 { '5' }
    else if d == 6 { '6' }
    else if d == 7 { '7' }
    else if d == 8 { '8' }
    else { '9' }
}

/// `n` in decimal, without leading zeros.
pub open spec fn decimal(n: nat) -> Seq<char>
    decreases n,
{
    if n < 10 {
        seq![digit(n as int)]
    } else {
        decimal(n / 10).push(digit((n % 10) as int))
    }
}

/// `n` in decimal, with at least two digits.
pub open spec fn two_digits(n: nat) -> Seq<char> {
    if n < 10 {
        seq!['0'] + decimal(n)
    } else {
        decimal(n)
    }
}

/// Dictionary order by code point.
pub open spec fn precedes(a: Seq<char>, b: Seq<char>) -> bool
    decreases a.len(),
{
    if b.len() == 0 {
        false
    } else if a.len() == 0 {
        true
    } else if a[0] != b[0] {
        a[0] < b[0]
    } else {
        precedes(a.drop_first(), b.drop_first())
    }
}

// ---------------------------------------------------------------------------
// Characters and strings
// ---------------------------------------------------------------------------

/// Whether `c` is white space.
pub fn is_space(c: char) -> (r: bool)
    ensures
        r == is_white_space(c),
{
    let u = c as u32;
    (0x09 <= u && u <= 0x0D) || u == 0x20 || u == 0x85 || u == 0xA0 || u == 0x1680 || (0x2000 <= u
        && u <= 0x200A) || u == 0x2028 || u == 0x2029 || u == 0x202F || u == 0x205F || u == 0x3000
}

/// The characters of `s`, in order.
pub fn to_chars(s: &str) -> (out: Vec<char>)
    ensures
        out@ == s@,
{
    let mut out: Vec<char> = Vec::new();
    for c in it: s.chars()
        invariant
            out@ =~= it.seq().take(it.index()),
            it.seq() == s@,
    {
        out.push(c);
    }
    out
}

/// The string whose characters are `cs[from..to]`.
pub fn from_chars(cs: &Vec<char>, from: usize, to: usize) -> (out: String)
    requires
        from <= to <= cs.len(),
    ensures
        out@ == cs@.subrange(from as int, to as int),
{
    let mut out = String::new();
    for i in from..to
        invariant
            from <= to <= cs.len(),
            out@ =~= cs@.subrange(from as int, i as int),
    {
        out.push(cs[i]);
    }
    out
}

/// An owned copy of `s`.
pub fn owned(s: &str) -> (out: String)
    ensures
        out@ == s@,
{
    let mut out = String::new();
    out.push_str(s);
    out
}

/// Whether two strings have the same characters.
pub fn same_text(a: &str, b: &str) -> (r: bool)
    ensures
        r == (a@ == b@),
{
    let x = to_chars(a);
    let y = to_chars(b);
    if x.len() != y.len() {
        return false;
    }
    let mut i: usize = 0;
    while i < x.len()
        invariant
            i <= x.len(),
            x.len() == y.len(),
            x@ == a@,
            y@ == b@,
            forall|k: int| 0 <= k < i ==> x[k] == y[k],
        decreases x.len() - i,
    {
        if x[i] != y[i] {
            assert(x@[i as int] != y@[i as int]);
            return false;
        }
        i += 1;
    }
    assert(x@ =~= y@);
    true
}

/// Whether `c` is one of `cs`.
pub fn has_char(cs: &Vec<char>, c: char) -> (r: bool)
    ensures
        r == cs@.contains(c),
{
    let mut i: usize = 0;
    while i < cs.len()
        invariant
            i <= cs.len(),
            forall|k: int| 0 <= k < i ==> cs[k] != c,
        decreases cs.len() - i,
    {
        if cs[i] == c {
            assert(cs@[i as int] == c);
            return true;
        }
        i += 1;
    }
    false
}

/// Whether `p` stands in `cs` at position `at`.
pub fn found_at(cs: &Vec<char>, p: &Vec<char>, at: usize) -> (r: bool)
    ensures
        r == occurs_at(cs@, p@, at as int),
{
    if at > cs.len() || cs.len() - at < p.len() {
        return false;
    }
    let mut i: usize = 0;
    while i < p.len()
        invariant
            i <= p.len(),
            at + p.len() <= cs.len(),
            forall|k: int| 0 <= k < i ==> cs[at + k] == p[k],
        decreases p.len() - i,
    {
        if cs[at + i] != p[i] {
            assert(cs@.subrange(at as int, at + p.len())[i as int] != p@[i as int]);
            return false;
        }
        i += 1;
    }
    assert(cs@.subrange(at as int, at + p.len()) =~= p@);
    true
}

/// Whether `s` begins with `p`.
pub fn starts_with(s: &str, p: &str) -> (r: bool)
    ensures
        r == starts(s@, p@),
{
    found_at(&to_chars(s), &to_chars(p), 0)
}

/// Whether `s` ends with `p`.
pub fn ends_with(s: &str, p: &str) -> (r: bool)
    ensures
        r == ends(s@, p@),
{
    let cs = to_chars(s);
    let ps = to_chars(p);
    if ps.len() > cs.len() {
        return false;
    }
    found_at(&cs, &ps, cs.len() - ps.len())
}

/// Whether `p` stands somewhere in `s`.
pub fn contains_text(s: &str, p: &str) -> (r: bool)
    ensures
        r == occurs(s@, p@),
{
    let cs = to_chars(s);
    let ps = to_chars(p);
    let mut i: usize = 0;
    while i < cs.len()
        invariant
            i <= cs.len(),
            cs@ == s@,
            ps@ == p@,
            forall|k: int| 0 <= k < i ==> !occurs_at(s@, p@, k),
        decreases cs.len() - i,
    {
        if found_at(&cs, &ps, i) {
            return true;
        }
        i += 1;
    }
    let r = found_at(&cs, &ps, i);
    proof {
        if occurs(s@, p@) {
            let k = choose|k: int| occurs_at(s@, p@, k);
            assert(k == i);
        }
    }
    r
}

// ---------------------------------------------------------------------------
// Trimming
// ---------------------------------------------------------------------------

/// Leading white space can be dropped character by character.
proof fn lemma_trim_start_step(s: Seq<char>, i: int)
    requires
        0 <= i < s.len(),
        is_white_space(s[i]),
    ensures
        trim_start_of(s.skip(i)) == trim_start_of(s.skip(i + 1)),
{
    assert(s.skip(i).drop_first() =~= s.skip(i + 1));
}

/// First position of `cs` that is not white space.
pub fn leading(cs: &Vec<char>) -> (lo: usize)
    ensures
        lo <= cs.len(),
        cs@.skip(lo as int) == trim_start_of(cs@),
{
    let mut lo: usize = 0;
    assert(cs@.skip(0) =~= cs@);
    while lo < cs.len() && is_space(cs[lo])
        invariant
            lo <= cs.len(),
            trim_start_of(cs@) == trim_start_of(cs@.skip(lo as int)),
        decreases cs.len() - lo,
    {
        proof {
            lemma_trim_start_step(cs@, lo as int);
        }
        lo += 1;
    }
    lo
}

/// One past the last position of `cs[lo..]` that is not white space.
fn trailing(cs: &Vec<char>, lo: usize) -> (hi: usize)
    requires
        lo <= cs.len(),
    ensures
        lo <= hi <= cs.len(),
        cs@.subrange(lo as int, hi as int) == trim_end_of(cs@.skip(lo as int)),
{
    let mut hi: usize = cs.len();
    assert(cs@.skip(lo as int) =~= cs@.subrange(lo as int, hi as int));
    while hi > lo && is_space(cs[hi - 1])
        invariant
            lo <= hi <= cs.len(),
            trim_end_of(cs@.skip(lo as int)) == trim_end_of(cs@.subrange(lo as int, hi as int)),
        decreases hi,
    {
        assert(cs@.subrange(lo as int, hi as int).drop_last() =~= cs@.subrange(
            lo as int,
            hi - 1,
        ));
        hi -= 1;
    }
    hi
}

/// `s` without the white space around it.
pub fn trim(s: &str) -> (out: String)
    ensures
        out@ == trimmed(s@),
{
    let cs = to_chars(s);
    let lo = leading(&cs);
    let hi = trailing(&cs, lo);
    from_chars(&cs, lo, hi)
}

/// `s` without its leading white space.
pub fn trim_start(s: &str) -> (out: String)
    ensures
        out@ == trim_start_of(s@),
{
    let cs = to_chars(s);
    let lo = leading(&cs);
    assert(cs@.skip(lo as int) =~= cs@.subrange(lo as int, cs.len() as int));
    from_chars(&cs, lo, cs.len())
}

/// `s` without its trailing white space.
pub fn trim_end(s: &str) -> (out: String)
    ensures
        out@ == trim_end_of(s@),
{
    let cs = to_chars(s);
    assert(cs@.skip(0) =~= cs@);
    let hi = trailing(&cs, 0);
    from_chars(&cs, 0, hi)
}

/// Whether `s` holds nothing but white space.
pub fn blank(s: &str) -> (r: bool)
    ensures
        r == is_blank(s@),
{
    let cs = to_chars(s);
    let mut i: usize = 0;
    while i < cs.len()
        invariant
            i <= cs.len(),
            cs@ == s@,
            forall|k: int| 0 <= k < i ==> is_white_space(#[trigger] cs@[k]),
        decreases cs.len() - i,
    {
        if !is_space(cs[i]) {
            assert(!is_white_space(s@[i as int]));
            return false;
        }
        i += 1;
    }
    true
}

// ---------------------------------------------------------------------------
// Lines, joining and replacing
// ---------------------------------------------------------------------------

pub proof fn lemma_position(s: Seq<char>, c: char)
    ensures
        position(s, c) <= s.len(),
        forall|k: int| 0 <= k < position(s, c) ==> s[k] != c,
        position(s, c) < s.len() ==> s[position(s, c) as int] == c,
    decreases s.len(),
{
    if s.len() > 0 && s[0] != c {
        let t = s.drop_first();
        lemma_position(t, c);
        assert forall|k: int| 0 <= k < position(s, c) implies s[k] != c by {
            if k > 0 {
                assert(s[k] == t[k - 1]);
            }
        }
    }
}

/// The first `c` is where nothing before it is `c`.
pub proof fn lemma_position_is(s: Seq<char>, c: char, n: int)
    requires
        0 <= n <= s.len(),
        forall|k: int| 0 <= k < n ==> s[k] != c,
        n < s.len() ==> s[n] == c,
    ensures
        position(s, c) == n,
{
    lemma_position(s, c);
    let p = position(s, c) as int;
    if p < n {
        assert(s[p] == c);
    }
    if n < p {
        assert(s[n] != c);
    }
}

/// Position of the first `c` in `cs` at or after `from`, or `cs.len()`.
pub fn find_char(cs: &Vec<char>, from: usize, c: char) -> (at: usize)
    requires
        from <= cs.len(),
    ensures
        from <= at <= cs.len(),
        at - from == position(cs@.skip(from as int), c),
{
    let mut at: usize = from;
    while at < cs.len() && cs[at] != c
        invariant
            from <= at <= cs.len(),
            forall|k: int| from <= k < at ==> cs[k] != c,
        decreases cs.len() - at,
    {
        at += 1;
    }
    proof {
        let s = cs@.skip(from as int);
        assert forall|k: int| 0 <= k < at - from implies s[k] != c by {
            assert(s[k] == cs[from + k]);
        }
        lemma_position_is(s, c, at - from);
    }
    at
}

pub proof fn lemma_texts_push(v: Seq<String>, s: String)
    ensures
        texts(v.push(s)) == texts(v).push(s@),
{
    assert(texts(v.push(s)) =~= texts(v).push(s@));
}

/// The lines of `s`, without their endings.
pub fn lines(s: &str) -> (out: Vec<String>)
    ensures
        texts(out@) == lines_of(s@),
{
    let cs = to_chars(s);
    let mut out: Vec<String> = Vec::new();
    let mut pos: usize = 0;
    assert(cs@.skip(0) =~= cs@);
    assert(texts(out@) + lines_of(s@) =~= lines_of(s@));
    while pos < cs.len()
        invariant
            pos <= cs.len(),
            cs@ == s@,
            lines_of(s@) == texts(out@) + lines_of(cs@.skip(pos as int)),
        decreases cs.len() - pos,
    {
        let at = find_char(&cs, pos, '\n');
        let ghost rest = cs@.skip(pos as int);
        let ghost before = out@;
        if at == cs.len() {
            out.push(from_chars(&cs, pos, at));
            proof {
                lemma_texts_push(before, out@.last());
                assert(cs@.subrange(pos as int, at as int) =~= rest);
                assert(lines_of(rest) == seq![rest]);
                assert(cs@.skip(at as int) =~= Seq::<char>::empty());
                assert(texts(before) + seq![rest] =~= texts(out@) + lines_of(cs@.skip(at as int)));
            }
            pos = at;
        } else {
            let end = if at > pos && cs[at - 1] == '\r' {
                at - 1
            } else {
                at
            };
            out.push(from_chars(&cs, pos, end));
            proof {
                lemma_texts_push(before, out@.last());
                let line = rest.take(at - pos);
                assert(line =~= cs@.subrange(pos as int, at as int));
                assert(without_return(line) =~= cs@.subrange(pos as int, end as int));
                assert(rest.skip(at - pos + 1) =~= cs@.skip(at + 1));
                assert(lines_of(rest) == seq![without_return(line)] + lines_of(cs@.skip(at + 1)));
                assert(texts(before) + (seq![without_return(line)] + lines_of(cs@.skip(at + 1)))
                    =~= texts(out@) + lines_of(cs@.skip(at + 1)));
            }
            pos = at + 1;
        }
    }
    assert(cs@.skip(pos as int) =~= Seq::<char>::empty());
    assert(texts(out@) + lines_of(cs@.skip(pos as int)) =~= texts(out@));
    out
}

/// The parts one after the other, with `sep` between neighbours.
pub fn join(parts: &Vec<String>, sep: &str) -> (out: String)
    ensures
        out@ == joined(texts(parts@), sep@),
{
    let mut out = String::new();
    let mut i: usize = 0;
    assert(texts(parts@).take(0) =~= Seq::empty());
    while i < parts.len()
        invariant
            i <= parts.len(),
            out@ == joined(texts(parts@).take(i as int), sep@),
        decreases parts.len() - i,
    {
        proof {
            let all = texts(parts@);
            assert(all.take(i + 1).drop_last() =~= all.take(i as int));
        }
        if i > 0 {
            out.push_str(sep);
        }
        out.push_str(&parts[i]);
        proof {
            let all = texts(parts@);
            if i == 0 {
                assert(out@ =~= all[0]);
            }
        }
        i += 1;
    }
    assert(texts(parts@).take(i as int) =~= texts(parts@));
    out
}

/// `s` with every occurrence of `from` replaced by `to`.
pub fn replace(s: &str, from: &str, to: &str) -> (out: String)
    ensures
        out@ == replaced(s@, from@, to@),
{
    let cs = to_chars(s);
    let ps = to_chars(from);
    if ps.len() == 0 {
        return owned(s);
    }
    let mut out = String::new();
    let mut pos: usize = 0;
    assert(cs@.skip(0) =~= cs@);
    assert(out@ + replaced(s@, from@, to@) =~= replaced(s@, from@, to@));
    while cs.len() - pos >= ps.len()
        invariant
            pos <= cs.len(),
            cs@ == s@,
            ps@ == from@,
            ps.len() > 0,
            replaced(s@, from@, to@) == out@ + replaced(cs@.skip(pos as int), from@, to@),
        decreases cs.len() - pos,
    {
        let ghost rest = cs@.skip(pos as int);
        let ghost before = out@;
        let hit = found_at(&cs, &ps, pos);
        assert(hit == starts(rest, from@)) by {
            assert(rest.subrange(0, ps.len() as int) =~= cs@.subrange(pos as int, pos + ps.len()));
        }
        if hit {
            out.push_str(to);
            assert(rest.skip(ps.len() as int) =~= cs@.skip(pos + ps.len()));
            assert(before + (to@ + replaced(cs@.skip(pos + ps.len()), from@, to@)) =~= out@
                + replaced(cs@.skip(pos + ps.len()), from@, to@));
            pos += ps.len();
        } else {
            out.push(cs[pos]);
            assert(rest.drop_first() =~= cs@.skip(pos + 1));
            assert(before + (seq![rest[0]] + replaced(cs@.skip(pos + 1), from@, to@)) =~= out@
                + replaced(cs@.skip(pos + 1), from@, to@));
            pos += 1;
        }
    }
    let rest = from_chars(&cs, pos, cs.len());
    assert(rest@ =~= cs@.skip(pos as int));
    out.push_str(&rest);
    out
}

// ---------------------------------------------------------------------------
// Case, order and numbers
// ---------------------------------------------------------------------------

/// The lower-case form of an ASCII letter; any other character as it is.
pub fn lower_ascii(c: char) -> (r: char)
    ensures
        r == ascii_lower(c),
{
    if 'A' <= c && c <= 'Z' {
        ((c as u8) + 32) as char
    } else {
        c
    }
}

/// `s` with its ASCII letters in lower case.
pub fn to_ascii_lower(s: &str) -> (out: String)
    ensures
        out@ == ascii_lowered(s@),
{
    let cs = to_chars(s);
    let mut out = String::new();
    let mut i: usize = 0;
    while i < cs.len()
        invariant
            i <= cs.len(),
            cs@ == s@,
            out@ =~= ascii_lowered(s@).take(i as int),
        decreases cs.len() - i,
    {
        out.push(lower_ascii(cs[i]));
        i += 1;
    }
    out
}

/// Whether two strings are the same up to the case of ASCII letters.
pub fn same_ignoring_ascii_case(a: &str, b: &str) -> (r: bool)
    ensures
        r == (ascii_lowered(a@) == ascii_lowered(b@)),
{
    same_text(&to_ascii_lower(a), &to_ascii_lower(b))
}

/// Whether `a` comes before `b` in dictionary order by code point.
pub fn text_before(a: &str, b: &str) -> (r: bool)
    ensures
        r == precedes(a@, b@),
{
    let x = to_chars(a);
    let y = to_chars(b);
    let mut i: usize = 0;
    assert(x@.skip(0) =~= x@);
    assert(y@.skip(0) =~= y@);
    while i < x.len() && i < y.len()
        invariant
            i <= x.len(),
            i <= y.len(),
            x@ == a@,
            y@ == b@,
            precedes(x@, y@) == precedes(x@.skip(i as int), y@.skip(i as int)),
        decreases x.len() - i,
    {
        if x[i] != y[i] {
            return x[i] < y[i];
        }
        assert(x@.skip(i as int).drop_first() =~= x@.skip(i + 1));
        assert(y@.skip(i as int).drop_first() =~= y@.skip(i + 1));
        i += 1;
    }
    i < y.len()
}

/// The decimal digit of `d`.
pub fn digit_char(d: u64) -> (c: char)
    requires
        d < 10,
    ensures
        c == digit(d as int),
{
    match d {
        0 => '0',
        1 => '1',
        2 => '2',
        3 => '3',
        4 => '4',
        5 => '5',
        6 => '6',
        7 => '7',
        8 => '8',
        _ => '9',
    }
}

/// Appends `n` in decimal.
pub fn push_decimal(out: &mut String, n: u64)
    ensures
        final(out)@ == old(out)@ + decimal(n as nat),
    decreases n,
{
    if n >= 10 {
        push_decimal(out, n / 10);
    }
    out.push(digit_char(n % 10));
    proof {
        if n >= 10 {
            assert(out@ =~= old(out)@ + decimal(n as nat));
        } else {
            assert(out@ =~= old(out)@ + decimal(n as nat));
        }
    }
}

/// Appends `n` in decimal with at least two digits.
pub fn push_two_digits(out: &mut String, n: u64)
    ensures
        final(out)@ == old(out)@ + two_digits(n as nat),
{
    if n < 10 {
        out.push('0');
    }
    push_decimal(out, n);
    assert(out@ =~= old(out)@ + two_digits(n as nat));
}

} // verus!
