//! What holds of the sections of every transcript, of the prompts and requests,
//! and of the polished file.
use vstd::prelude::*;
use crate::error::{ErrorModel, SallyError};
use crate::gemini::cleanup;
use crate::gemini::json::JsonModel;
use crate::gemini::live;
use crate::gemini::live_laws;
use crate::gemini::REST_BASE;
use crate::text;
use crate::text_laws;

verus! {

proof fn byte_len_of_join(a: Seq<char>, b: Seq<char>)
    ensures
        cleanup::byte_len(a + b) == cleanup::byte_len(a) + cleanup::byte_len(b),
    decreases b.len(),
{
    if b.len() == 0 {
        assert(a + b =~= a);
    } else {
        byte_len_of_join(a, b.drop_last());
        assert((a + b).drop_last() =~= a + b.drop_last());
    }
}

/// Trailing white space removed from a text that is not blank leaves its
/// beginning.
proof fn trim_end_keeps_start(s: Seq<char>)
    requires
        !text::is_blank(s),
    ensures
        text::trim_end_of(s).len() > 0,
        text::trim_end_of(s)[0] == s[0],
        !text::is_blank(text::trim_end_of(s)),
    decreases s.len(),
{
    if s.len() > 0 && text::is_white_space(s.last()) {
        let t = s.drop_last();
        assert(!text::is_blank(t)) by {
            if text::is_blank(t) {
                assert forall|i: int| 0 <= i < s.len() implies text::is_white_space(
                    #[trigger] s[i],
                ) by {
                    if i < t.len() {
                        assert(s[i] == t[i]);
                    }
                }
            }
        }
        trim_end_keeps_start(t);
    }
}

/// Every block has visible text, and every block but the first begins an entry.
proof fn gathered_shape(ls: Seq<Seq<char>>)
    ensures
        ({
            let (done, current) = cleanup::gathered(ls);
            &&& forall|i: int| 0 <= i < done.len() ==> !text::is_blank(#[trigger] done[i])
            &&& forall|i: int| 1 <= i < done.len() ==> (#[trigger] done[i])[0] == '['
            &&& done.len() > 0 ==> current.len() > 0 && current[0] == '[' && !text::is_blank(
                current,
            )
            &&& ls.len() > 0 && cleanup::begins_entry(ls[0]) ==> {
                &&& current.len() > 0 && current[0] == '['
                &&& done.len() > 0 ==> done[0][0] == '['
            }
        }),
    decreases ls.len(),
{
    if ls.len() > 0 {
        gathered_shape(ls.drop_last());
        let (done, current) = cleanup::gathered(ls.drop_last());
        let line = ls.last().push('\n');
        if cleanup::begins_entry(ls.last()) && !text::is_blank(current) {
            trim_end_keeps_start(current);
            assert(!text::is_white_space(line[0]));
            assert(!text::is_blank(line));
        } else {
            if done.len() > 0 {
                assert((current + line)[0] == '[');
                assert(!text::is_white_space((current + line)[0]));
            }
            if ls.len() == 1 {
                assert(ls.drop_last().len() == 0);
                assert(current.len() == 0);
                assert(current + line =~= line);
            } else {
                assert(ls.drop_last()[0] == ls[0]);
            }
        }
    }
}

/// The visible characters of a list of texts, one after the other.
pub open spec fn ink_of_all(parts: Seq<Seq<char>>) -> Seq<char>
    decreases parts.len(),
{
    if parts.len() == 0 {
        Seq::empty()
    } else {
        ink_of_all(parts.drop_last()) + text::ink(parts.last())
    }
}

proof fn ink_of_all_push(parts: Seq<Seq<char>>, p: Seq<char>)
    ensures
        ink_of_all(parts.push(p)) == ink_of_all(parts) + text::ink(p),
{
    assert(parts.push(p).drop_last() =~= parts);
}

proof fn gathered_keeps_ink(ls: Seq<Seq<char>>)
    ensures
        ({
            let (done, current) = cleanup::gathered(ls);
            ink_of_all(done) + text::ink(current) == ink_of_all(ls)
        }),
    decreases ls.len(),
{
    if ls.len() == 0 {
        text_laws::ink_of_blank(Seq::empty());
        assert(ink_of_all(Seq::empty()) + text::ink(Seq::empty()) =~= ink_of_all(ls));
    } else {
        gathered_keeps_ink(ls.drop_last());
        let (done, current) = cleanup::gathered(ls.drop_last());
        let line = ls.last().push('\n');
        text_laws::ink_of_push(ls.last(), '\n');
        if cleanup::begins_entry(ls.last()) && !text::is_blank(current) {
            text_laws::trim_end_keeps_ink(current);
            ink_of_all_push(done, text::trim_end_of(current));
        } else {
            text_laws::ink_of_join(current, line);
            assert(ink_of_all(done) + (text::ink(current) + text::ink(line)) =~= (ink_of_all(done)
                + text::ink(current)) + text::ink(line));
        }
    }
}

proof fn ink_of_line(line: Seq<char>)
    ensures
        text::ink(text::without_return(line)) == text::ink(line),
{
    if line.len() > 0 && line.last() == '\r' {
        assert(line.drop_last().push('\r') =~= line);
        text_laws::ink_of_push(line.drop_last(), '\r');
    }
}

proof fn ink_of_all_join(a: Seq<char>, rest: Seq<Seq<char>>)
    ensures
        ink_of_all(seq![a] + rest) == text::ink(a) + ink_of_all(rest),
    decreases rest.len(),
{
    if rest.len() == 0 {
        assert((seq![a] + rest).drop_last() =~= Seq::empty());
        assert(ink_of_all(Seq::<Seq<char>>::empty()) =~= Seq::empty());
        assert(ink_of_all(seq![a] + rest) =~= text::ink(a) + ink_of_all(rest));
    } else {
        ink_of_all_join(a, rest.drop_last());
        assert((seq![a] + rest).drop_last() =~= seq![a] + rest.drop_last());
        assert(ink_of_all(seq![a] + rest) =~= text::ink(a) + ink_of_all(rest));
    }
}

proof fn lines_keep_ink(s: Seq<char>)
    ensures
        ink_of_all(text::lines_of(s)) == text::ink(s),
    decreases s.len(),
{
    let n = text::position(s, '\n') as int;
    text::lemma_position(s, '\n');
    if s.len() == 0 {
        text_laws::ink_of_blank(s);
        assert(text::ink(s) =~= Seq::empty());
    } else if n >= s.len() {
        let none = Seq::<Seq<char>>::empty();
        assert(seq![s] =~= seq![s] + none);
        ink_of_all_join(s, none);
        assert(text::ink(s) + ink_of_all(none) =~= text::ink(s));
    } else {
        let rest = s.skip(n + 1);
        lines_keep_ink(rest);
        let line = s.take(n);
        ink_of_line(line);
        ink_of_all_join(text::without_return(line), text::lines_of(rest));
        assert(s =~= line.push('\n') + rest);
        text_laws::ink_of_join(line.push('\n'), rest);
        text_laws::ink_of_push(line, '\n');
    }
}

/// The blocks of a transcript hold all of its visible text, in order.
pub proof fn blocks_keep_text(raw: Seq<char>)
    ensures
        ink_of_all(cleanup::blocks_of(raw)) == text::ink(raw),
{
    let ls = text::lines_of(raw);
    let (done, current) = cleanup::gathered(ls);
    lines_keep_ink(raw);
    gathered_keeps_ink(ls);
    text_laws::ink_of_blank(current);
    if text::is_blank(current) {
        assert(ink_of_all(done) + text::ink(current) =~= ink_of_all(done));
    } else {
        text_laws::trim_end_keeps_ink(current);
        ink_of_all_push(done, text::trim_end_of(current));
    }
}

/// Every block has visible text, and every block but the first begins an
/// entry.
proof fn blocks_shape(raw: Seq<char>)
    ensures
        forall|i: int|
            0 <= i < cleanup::blocks_of(raw).len() ==> !text::is_blank(
                #[trigger] cleanup::blocks_of(raw)[i],
            ),
        forall|i: int|
            1 <= i < cleanup::blocks_of(raw).len() ==> (#[trigger] cleanup::blocks_of(raw)[i])[0]
                == '[',
        cleanup::begins_entry(raw) && cleanup::blocks_of(raw).len() > 0 ==> cleanup::blocks_of(
            raw,
        )[0][0] == '[',
{
    let ls = text::lines_of(raw);
    let (done, current) = cleanup::gathered(ls);
    gathered_shape(ls);
    if !text::is_blank(current) {
        trim_end_keeps_start(current);
    }
    if cleanup::begins_entry(raw) {
        text::lemma_position(raw, '\n');
        let n = text::position(raw, '\n') as int;
        assert(n > 0);
        if n < raw.len() {
            assert(raw.take(n)[0] == '[');
            assert(ls[0] == text::without_return(raw.take(n)));
        }
        assert(cleanup::begins_entry(ls[0]));
    }
}

/// The blocks of a list and the sections made of them.
proof fn packed_shape(blocks: Seq<Seq<char>>, budget: nat)
    requires
        forall|i: int| 0 <= i < blocks.len() ==> !text::is_blank(#[trigger] blocks[i]),
        forall|i: int| 1 <= i < blocks.len() ==> (#[trigger] blocks[i])[0] == '[',
    ensures
        ({
            let (full, section) = cleanup::packed(blocks, budget);
            let all = full.push(section);
            &&& blocks.len() > 0 ==> !text::is_blank(section) && section.len() > 0
            &&& blocks.len() == 0 ==> full.len() == 0 && section.len() == 0
            &&& blocks.len() > 0 ==> text::joined(all, "\n\n"@) == text::joined(blocks, "\n\n"@)
            &&& blocks.len() > 0 ==> forall|i: int|
                0 <= i < all.len() ==> cleanup::byte_len(#[trigger] all[i]) <= budget
                    || blocks.contains(all[i])
            &&& forall|i: int| 1 <= i < all.len() ==> (#[trigger] all[i])[0] == '['
            &&& blocks.len() > 0 ==> all[0][0] == blocks[0][0]
        }),
    decreases blocks.len(),
{
    reveal_strlit("\n\n");
    let sep = "\n\n"@;
    if blocks.len() > 0 {
        let init = blocks.drop_last();
        let block = blocks.last();
        packed_shape(init, budget);
        let (full, section) = cleanup::packed(init, budget);
        let all = full.push(section);
        let (full2, section2) = cleanup::packed(blocks, budget);
        let all2 = full2.push(section2);
        assert(blocks[blocks.len() - 1] == block);
        assert(!text::is_blank(block));
        if init.len() == 0 {
            assert(all2 =~= seq![block]);
            assert(blocks =~= seq![block]);
        } else {
            assert(text::joined(blocks, sep) == text::joined(init, sep) + sep + block);
            assert forall|i: int| 0 <= i < all.len() && init.contains(#[trigger] all[i]) implies
                blocks.contains(all[i]) by {
                let k = choose|k: int| 0 <= k < init.len() && init[k] == all[i];
                assert(blocks[k] == all[i]);
            }
            if cleanup::byte_len(section) + cleanup::byte_len(block) + 2 > budget {
                assert(all2 =~= all.push(block));
                assert(all2.drop_last() =~= all);
                assert(blocks.contains(block)) by {
                    assert(blocks[blocks.len() - 1] == block);
                }
                assert forall|i: int| 0 <= i < all2.len() implies cleanup::byte_len(
                    #[trigger] all2[i],
                ) <= budget || blocks.contains(all2[i]) by {
                    if i < all.len() {
                        assert(all2[i] == all[i]);
                    }
                }
                assert forall|i: int| 1 <= i < all2.len() implies (#[trigger] all2[i])[0]
                    == '[' by {
                    if i < all.len() {
                        assert(all2[i] == all[i]);
                    }
                }
            } else {
                let longer = section + sep + block;
                byte_len_of_join(section, sep);
                byte_len_of_join(section + sep, block);
                assert(cleanup::byte_len(sep) == 2) by {
                    reveal_with_fuel(cleanup::byte_len, 3);
                }
                assert(all2 =~= full.push(longer));
                assert(!text::is_blank(longer)) by {
                    let k = choose|k: int|
                        0 <= k < section.len() && !text::is_white_space(#[trigger] section[k]);
                    assert(longer[k] == section[k]);
                }
                if full.len() == 0 {
                    assert(all =~= seq![section]);
                    assert(all2 =~= seq![longer]);
                    assert(text::joined(all, sep) == section);
                    assert(text::joined(all2, sep) == longer);
                } else {
                    assert(all.drop_last() =~= full);
                    assert(all2.drop_last() =~= full);
                    assert(text::joined(all2, sep) == text::joined(full, sep) + sep + longer);
                    assert(text::joined(all, sep) == text::joined(full, sep) + sep + section);
                    assert(text::joined(full, sep) + sep + longer =~= (text::joined(full, sep)
                        + sep + section) + sep + block);
                }
                assert forall|i: int| 0 <= i < all2.len() implies cleanup::byte_len(
                    #[trigger] all2[i],
                ) <= budget || blocks.contains(all2[i]) by {
                    if i < full.len() {
                        assert(all2[i] == all[i]);
                    }
                }
                assert forall|i: int| 1 <= i < all2.len() implies (#[trigger] all2[i])[0]
                    == '[' by {
                    if i < full.len() {
                        assert(all2[i] == all[i]);
                    } else {
                        assert(all[i] == section);
                        assert(longer[0] == section[0]);
                    }
                }
                assert(all2[0][0] == all[0][0]) by {
                    if full.len() == 0 {
                        assert(longer[0] == section[0]);
                    } else {
                        assert(all2[0] == all[0]);
                    }
                }
            }
        }
    }
}

/// No content is lost: the sections, joined by a blank line, are the blocks of
/// the transcript joined by a blank line, whatever the budget.
pub proof fn sections_keep_blocks(raw: Seq<char>, budget: nat)
    ensures
        text::joined(cleanup::sections_of(raw, budget), "\n\n"@) == text::joined(
            cleanup::blocks_of(raw),
            "\n\n"@,
        ),
{
    blocks_shape(raw);
    packed_shape(cleanup::blocks_of(raw), budget);
}

proof fn ink_of_joined(parts: Seq<Seq<char>>)
    ensures
        text::ink(text::joined(parts, "\n\n"@)) == ink_of_all(parts),
    decreases parts.len(),
{
    reveal_strlit("\n\n");
    let sep = "\n\n"@;
    text_laws::ink_of_blank(Seq::empty());
    assert(text::ink(Seq::empty()) =~= Seq::empty());
    if parts.len() == 1 {
        assert(parts.drop_last() =~= Seq::empty());
        assert(ink_of_all(Seq::<Seq<char>>::empty()) =~= Seq::empty());
        assert(ink_of_all(parts) =~= text::ink(parts[0]));
    } else if parts.len() > 1 {
        ink_of_joined(parts.drop_last());
        let head = text::joined(parts.drop_last(), sep);
        text_laws::ink_of_join(head, sep);
        text_laws::ink_of_join(head + sep, parts.last());
        text_laws::ink_of_blank(sep);
        assert(text::ink(sep) =~= Seq::empty());
        assert(text::ink(head) + text::ink(sep) =~= text::ink(head));
    }
}

/// The sections together hold exactly the visible text of the transcript, in
/// order.
pub proof fn sections_keep_text(raw: Seq<char>, budget: nat)
    ensures
        ink_of_all(cleanup::sections_of(raw, budget)) == text::ink(raw),
{
    sections_keep_blocks(raw, budget);
    blocks_keep_text(raw);
    ink_of_joined(cleanup::sections_of(raw, budget));
    ink_of_joined(cleanup::blocks_of(raw));
}

/// A section is larger than the budget only where it is a single entry that
/// does not fit on its own.
pub proof fn sections_are_bounded(raw: Seq<char>, budget: nat)
    ensures
        forall|i: int|
            0 <= i < cleanup::sections_of(raw, budget).len() ==> cleanup::byte_len(
                #[trigger] cleanup::sections_of(raw, budget)[i],
            ) <= budget || cleanup::blocks_of(raw).contains(cleanup::sections_of(raw, budget)[i]),
{
    blocks_shape(raw);
    packed_shape(cleanup::blocks_of(raw), budget);
}

/// Sections begin at an entry: every section but the first, and the first too
/// where the transcript does.
pub proof fn sections_begin_entries(raw: Seq<char>, budget: nat)
    ensures
        forall|i: int|
            1 <= i < cleanup::sections_of(raw, budget).len() ==> cleanup::begins_entry(
                #[trigger] cleanup::sections_of(raw, budget)[i],
            ),
        cleanup::begins_entry(raw) ==> forall|i: int|
            0 <= i < cleanup::sections_of(raw, budget).len() ==> cleanup::begins_entry(
                #[trigger] cleanup::sections_of(raw, budget)[i],
            ),
{
    blocks_shape(raw);
    let blocks = cleanup::blocks_of(raw);
    packed_shape(blocks, budget);
    let (full, section) = cleanup::packed(blocks, budget);
    let all = full.push(section);
    let out = cleanup::sections_of(raw, budget);
    if blocks.len() > 0 {
        assert(out =~= all);
        packed_nonempty(blocks, budget);
    }
}

proof fn packed_nonempty(blocks: Seq<Seq<char>>, budget: nat)
    requires
        forall|i: int| 0 <= i < blocks.len() ==> !text::is_blank(#[trigger] blocks[i]),
    ensures
        ({
            let (full, section) = cleanup::packed(blocks, budget);
            &&& forall|i: int| 0 <= i < full.len() ==> (#[trigger] full[i]).len() > 0
            &&& blocks.len() > 0 ==> section.len() > 0
        }),
    decreases blocks.len(),
{
    if blocks.len() > 0 {
        packed_nonempty(blocks.drop_last(), budget);
        let (full, section) = cleanup::packed(blocks.drop_last(), budget);
        let (full2, section2) = cleanup::packed(blocks, budget);
        assert(!text::is_blank(blocks[blocks.len() - 1]));
        assert forall|i: int| 0 <= i < full2.len() implies (#[trigger] full2[i]).len() > 0 by {
            if i < full.len() {
                assert(full2[i] == full[i]);
            }
        }
        assert(section2.len() > 0);
    }
}

// ---------------------------------------------------------------------------
// Prompt
// ---------------------------------------------------------------------------

#[verifier::rlimit(60)]
proof fn rules_lack_ps()
    ensures
        cleanup::CLEANUP_RULES@.len() > 2,
        cleanup::CLEANUP_RULES@[cleanup::CLEANUP_RULES@.len() - 2] == '-',
        cleanup::CLEANUP_RULES@[cleanup::CLEANUP_RULES@.len() - 1] == ' ',
        forall|i: int|
            0 <= i < cleanup::CLEANUP_RULES@.len() - 1 ==> !(#[trigger] cleanup::CLEANUP_RULES@[i]
                == 'p' && cleanup::CLEANUP_RULES@[i + 1] == 's'),
{
    reveal_strlit(
        "You clean up a raw meeting transcript section. Rules:\n\
    - Preserve the meaning of every passage exactly; never invent facts.\n\
    - Remove filler words, false starts, and repeated fragments.\n\
    - Lines labeled **You** are the user and keep that label. Lines \
    labeled **Meeting** are remote participants: work out from the \
    conversation itself who is speaking and replace **Meeting** with a \
    distinct label per person — a real name when the dialogue reveals \
    one, otherwise Speaker 1, Speaker 2, … used consistently for the \
    same voice throughout. When one entry clearly contains two \
    people, split it into separate entries at the handover. The \
    **You**/**Meeting** split itself comes from a very rough local \
    heuristic (which microphone picked up more energy) — it can be \
    wrong, especially near handovers, so weigh the conversation's own \
    content and phrasing at least as heavily as the existing label \
    when deciding who said what; don't treat it as ground truth.\n\
    - Keep the exact Markdown structure of entries: a `[mm:ss]` \
    timestamp, the bold speaker label, the `Original:` line, then a \
    blank line, then the translation line.\n\
    - Mark genuinely unclear passages with [unclear].\n\
    - Keep both the original text and its translation lines.\n\
    - ",
    );
}

/// Where a line on timestamps can stand: its `ps` is the only one of the rules.
proof fn stamp_rule_place(keep: bool, line: Seq<char>, i: int)
    requires
        line.len() >= 3,
        line[line.len() - 3] == 'p',
        line[line.len() - 2] == 's',
        text::occurs_at(cleanup::cleanup_text(keep, Seq::empty()), line, i),
    ensures
        i + line.len() == cleanup::CLEANUP_RULES@.len() + if keep {
            4int
        } else {
            6
        } + 12,
        forall|k: int|
            0 <= k < line.len() ==> #[trigger] line[k] == cleanup::cleanup_text(
                keep,
                Seq::empty(),
            )[i + k],
{
    rules_lack_ps();
    reveal_strlit("Keep");
    reveal_strlit("Remove");
    reveal_strlit(
        " timestamps.\n\
    Return only the cleaned Markdown, no commentary.",
    );
    let rules = cleanup::CLEANUP_RULES@;
    let end = cleanup::CLEANUP_END@;
    let word = if keep {
        "Keep"@
    } else {
        "Remove"@
    };
    let p = cleanup::cleanup_text(keep, Seq::empty());
    assert(p == rules + word + end);
    assert forall|k: int| 0 <= k < line.len() implies #[trigger] line[k] == p[i + k] by {
        assert(p.subrange(i, i + line.len())[k] == p[i + k]);
    }
    let at = i + line.len() - 3;
    assert(line[line.len() - 3] == p[at]);
    assert(line[line.len() - 2] == p[at + 1]);
    let n = rules.len() as int;
    let w = word.len() as int;
    if at < n - 1 {
        assert(p[at] == rules[at] && p[at + 1] == rules[at + 1]);
    } else if at == n - 1 {
        assert(p[at] == rules[n - 1]);
    } else if at < n + w {
        assert(p[at] == word[at - n]);
        if at + 1 < n + w {
            assert(p[at + 1] == word[at + 1 - n]);
        } else {
            assert(p[at + 1] == end[0]);
        }
    } else {
        assert(p[at] == end[at - n - w]);
        assert(p[at + 1] == end[at + 1 - n - w]);
        assert(at - n - w == 9);
    }
}

/// Exactly one of the two lines on timestamps stands in the prompt, the one that
/// was asked for.
pub proof fn prompts_say_what_becomes_of_timestamps(keep: bool)
    ensures
        text::occurs(cleanup::cleanup_text(keep, Seq::empty()), "- Keep timestamps."@) == keep,
        text::occurs(cleanup::cleanup_text(keep, Seq::empty()), "- Remove timestamps."@) == !keep,
{
    rules_lack_ps();
    reveal_strlit("Keep");
    reveal_strlit("Remove");
    reveal_strlit("- Keep timestamps.");
    reveal_strlit("- Remove timestamps.");
    reveal_strlit(
        " timestamps.\n\
    Return only the cleaned Markdown, no commentary.",
    );
    let rules = cleanup::CLEANUP_RULES@;
    let n = rules.len() as int;
    let p = cleanup::cleanup_text(keep, Seq::empty());
    let kept = "- Keep timestamps."@;
    let removed = "- Remove timestamps."@;
    if keep {
        assert(p.subrange(n - 2, n - 2 + kept.len()) =~= kept);
        assert(text::occurs_at(p, kept, n - 2));
        if text::occurs(p, removed) {
            let i = choose|i: int| text::occurs_at(p, removed, i);
            stamp_rule_place(keep, removed, i);
            assert(removed[2] == p[i + 2]);
            assert(p[n - 2] == rules[n - 2]);
        }
    } else {
        assert(p.subrange(n - 2, n - 2 + removed.len()) =~= removed);
        assert(text::occurs_at(p, removed, n - 2));
        if text::occurs(p, kept) {
            let i = choose|i: int| text::occurs_at(p, kept, i);
            stamp_rule_place(keep, kept, i);
            assert(kept[2] == p[i + 2]);
            assert(p[n + 2] == "Remove"@[2]);
        }
    }
}

/// A context is only appended: the prompt begins as it does without one, and
/// ends with the context.
pub proof fn contexts_are_appended(keep: bool, context: Seq<char>)
    ensures
        text::starts(
            cleanup::cleanup_text(keep, context),
            cleanup::cleanup_text(keep, Seq::empty()),
        ),
        text::ends(cleanup::cleanup_text(keep, context), context),
{
    let p = cleanup::cleanup_text(keep, Seq::empty());
    let q = cleanup::cleanup_text(keep, context);
    assert(q.subrange(0, p.len() as int) =~= p);
    assert(q.subrange(q.len() - context.len(), q.len() as int) =~= context);
}

// ---------------------------------------------------------------------------
// Requests
// ---------------------------------------------------------------------------

/// The request for a section carries the section itself as what the user says,
/// and the end of the section before it, whole, in the instruction.
pub proof fn requests_carry_their_section(section: Seq<char>, keep: bool, context: Seq<char>)
    ensures
        live_laws::has(
            cleanup::clean_model(section, keep, context),
            "contents"@,
            cleanup::user_turn(section),
        ),
        live_laws::has(
            cleanup::clean_model(section, keep, context),
            "systemInstruction"@,
            live::parts_model(cleanup::cleanup_text(keep, context)),
        ),
        text::ends(cleanup::cleanup_text(keep, context), context),
{
    let m = cleanup::clean_model(section, keep, context);
    assert(m->Object_0.contains(m->Object_0[0]));
    assert(m->Object_0.contains(m->Object_0[1]));
    let t = cleanup::cleanup_text(keep, context);
    assert(t.subrange(t.len() - context.len(), t.len() as int) =~= context);
}

/// What the user says in a request is its text and nothing else.
pub proof fn turns_hold_their_text(t: Seq<char>)
    ensures
        cleanup::user_turn(t) matches JsonModel::List(turns) && turns.len() == 1 && live_laws::has(
            turns[0],
            "role"@,
            JsonModel::Text("user"@),
        ) && live_laws::has(
            turns[0],
            "parts"@,
            JsonModel::List(seq![JsonModel::Object(seq![("text"@, JsonModel::Text(t))])]),
        ),
{
    let turn = cleanup::user_turn(t)->List_0[0];
    assert(turn->Object_0.contains(turn->Object_0[0]));
    assert(turn->Object_0.contains(turn->Object_0[1]));
}

/// A summary is asked for in the language of the interface, over the whole
/// cleaned transcript, as JSON.
pub proof fn summaries_are_asked_for(cleaned: Seq<char>, ui_language: Seq<char>)
    ensures
        live_laws::has(
            cleanup::summarize_model(cleaned, ui_language),
            "contents"@,
            cleanup::user_turn(cleaned),
        ),
        live_laws::has(
            cleanup::summarize_model(cleaned, ui_language),
            "systemInstruction"@,
            live::parts_model(cleanup::summary_text(ui_language)),
        ),
        ui_language == "vi"@ ==> text::occurs(cleanup::summary_text(ui_language), " in Vietnamese,"@),
        ui_language != "vi"@ ==> text::occurs(cleanup::summary_text(ui_language), " in English,"@),
{
    let m = cleanup::summarize_model(cleaned, ui_language);
    assert(m->Object_0.contains(m->Object_0[0]));
    assert(m->Object_0.contains(m->Object_0[1]));
    let a =
        "You summarize a cleaned meeting transcript. Respond with JSON only. Do not invent facts; include owners and deadlines only when explicitly stated; mark uncertainty with [unclear]. Write every field's text (summary, decisions, action items, open questions) in "@;
    let b = ", regardless of what language the transcript itself is in."@;
    let l = if ui_language == "vi"@ {
        "Vietnamese"@
    } else {
        "English"@
    };
    let t = cleanup::summary_text(ui_language);
    reveal_strlit(
        "You summarize a cleaned meeting transcript. Respond with JSON only. Do not invent facts; include owners and deadlines only when explicitly stated; mark uncertainty with [unclear]. Write every field's text (summary, decisions, action items, open questions) in ",
    );
    reveal_strlit(", regardless of what language the transcript itself is in.");
    reveal_strlit("Vietnamese");
    reveal_strlit("English");
    reveal_strlit(" in Vietnamese,");
    reveal_strlit(" in English,");
    let at = a.len() - 4;
    let want = if ui_language == "vi"@ {
        " in Vietnamese,"@
    } else {
        " in English,"@
    };
    assert(a.skip(at) =~= seq![' ', 'i', 'n', ' ']);
    assert(b[0] == ',');
    assert(want =~= seq![' ', 'i', 'n', ' '] + l + seq![',']);
    assert(t.subrange(at, at + want.len()) =~= want) by {
        assert(t =~= a.take(at) + a.skip(at) + l + b);
        assert(t =~= a.take(at) + (a.skip(at) + l + seq![',']) + b.skip(1));
    }
    assert(text::occurs_at(t, want, at));
}

/// The address of a request names the model and ends with the key.
pub proof fn addresses_name_model_and_key(model: Seq<char>, api_key: Seq<char>)
    ensures
        text::occurs(cleanup::generate_url_text(model, api_key), "/models/"@ + model),
        text::ends(cleanup::generate_url_text(model, api_key), "key="@ + api_key),
{
    let t = cleanup::generate_url_text(model, api_key);
    reveal_strlit(":generateContent?key=");
    reveal_strlit("key=");
    let part = "/models/"@ + model;
    let from = REST_BASE@.len() as int;
    assert(t.subrange(from, from + part.len()) =~= part);
    assert(text::occurs_at(t, part, from));
    let tail = "key="@ + api_key;
    assert(t.subrange(t.len() - tail.len(), t.len() as int) =~= tail);
}

/// A refused request tells the status and the reason of the server, whatever
/// else the reply holds, and a reply without text is an error; only a reply with
/// text succeeds, and gives exactly that text.
pub proof fn replies_are_told(
    r: Result<String, SallyError>,
    success: bool,
    status: Seq<char>,
    found: Option<Seq<char>>,
    message: Option<Seq<char>>,
)
    requires
        cleanup::is_reply(r, success, status, found, message, Seq::empty()),
    ensures
        r is Ok <==> success && found is Some,
        r matches Ok(s) ==> s@ == found->0,
        !success ==> r->Err_0@ is Gemini && text::occurs(r->Err_0@->Gemini_0, status) && (
        message is Some ==> text::ends(r->Err_0@->Gemini_0, message->0)),
{
    let none = Seq::<char>::empty();
    assert(text::is_blank(none)) by {
        text_laws::ink_of_blank(none);
        assert(text::ink(none) =~= none) by {
            reveal(Seq::filter);
        }
    }
    if !success {
        let why = match message {
            Some(m) => m,
            None => "unknown error"@,
        };
        let m = "cleanup failed ("@ + status + "): "@ + why;
        let from = "cleanup failed ("@.len() as int;
        assert(m.subrange(from, from + status.len()) =~= status);
        assert(text::occurs_at(m, status, from));
        assert(m.subrange(m.len() - why.len(), m.len() as int) =~= why);
    }
}

// ---------------------------------------------------------------------------
// Polished files
// ---------------------------------------------------------------------------

/// What stands in a part stands in the whole.
proof fn found_in_part(before: Seq<char>, part: Seq<char>, after: Seq<char>, p: Seq<char>)
    requires
        text::occurs(part, p),
    ensures
        text::occurs(before + part + after, p),
{
    let all = before + part + after;
    let k = choose|k: int| text::occurs_at(part, p, k);
    let at = before.len() + k;
    assert(all.subrange(at, at + p.len()) =~= part.subrange(k, k + p.len()));
    assert(text::occurs_at(all, p, at));
}

proof fn found_itself(p: Seq<char>)
    ensures
        text::occurs(p, p),
{
    assert(p.subrange(0, p.len() as int) =~= p);
    assert(text::occurs_at(p, p, 0));
}

proof fn rows_hold_lines(ls: Seq<Seq<char>>, i: int)
    requires
        0 <= i < ls.len(),
    ensures
        text::occurs(cleanup::rows(ls), ls[i]),
    decreases ls.len(),
{
    let before = cleanup::rows(ls.drop_last());
    let end = "\n"@;
    if i == ls.len() - 1 {
        found_itself(ls[i]);
        found_in_part(before, ls[i], end, ls[i]);
    } else {
        rows_hold_lines(ls.drop_last(), i);
        found_in_part(Seq::empty(), before, ls.last() + end, ls[i]);
        assert(Seq::<char>::empty() + before + (ls.last() + end) =~= cleanup::rows(ls));
    }
}

proof fn sections_hold_items(header: Seq<char>, none: Seq<char>, items: Seq<Seq<char>>, i: int)
    requires
        0 <= i < items.len(),
    ensures
        text::occurs(cleanup::section_text(header, none, items), items[i]),
{
    rows_hold_lines(items, i);
    found_in_part("## "@ + header + "\n\n"@, cleanup::rows(items), "\n"@, items[i]);
    assert(cleanup::section_text(header, none, items) =~= "## "@ + header + "\n\n"@
        + cleanup::rows(items) + "\n"@);
}

/// The words for nothing stand in a section without items.
pub proof fn empty_sections_say_so(header: Seq<char>, none: Seq<char>)
    ensures
        text::occurs(cleanup::section_text(header, none, Seq::empty()), none),
        text::starts(cleanup::section_text(header, none, Seq::empty()), "## "@ + header),
{
    let s = cleanup::section_text(header, none, Seq::empty());
    let head = "## "@ + header;
    found_itself(none);
    found_in_part(head + "\n\n"@, none, "\n\n"@, none);
    assert(s =~= head + "\n\n"@ + none + "\n\n"@);
    assert(s.subrange(0, head.len() as int) =~= head);
}

/// What is shown of an item before its deadline.
spec fn without_deadline(a: cleanup::ItemModel) -> Seq<char> {
    if a.owner.len() > 0 {
        ("- "@ + a.item) + (" — "@ + a.owner)
    } else {
        "- "@ + a.item
    }
}

proof fn owners_are_shown(a: cleanup::ItemModel)
    ensures
        text::starts(without_deadline(a), "- "@ + a.item),
        a.owner.len() > 0 ==> text::occurs(without_deadline(a), a.owner),
{
    let item = "- "@ + a.item;
    let none = Seq::<char>::empty();
    if a.owner.len() > 0 {
        begins_with(item, " — "@ + a.owner);
        found_itself(a.owner);
        found_in_part(item + " — "@, a.owner, none, a.owner);
        assert(item + " — "@ + a.owner + none =~= item + (" — "@ + a.owner));
    } else {
        begins_with(item, none);
        assert(item + none =~= item);
    }
}

proof fn deadlines_are_shown(before: Seq<char>, due: Seq<char>, deadline: Seq<char>)
    ensures
        text::occurs(
            before + (" ("@ + due + " "@ + deadline + ")"@),
            due + " "@ + deadline,
        ),
{
    let d = due + " "@ + deadline;
    regrouped(" ("@, due, " "@, deadline);
    found_itself(d);
    found_in_part(" ("@, d, ")"@, d);
    found_in_part(before, " ("@ + d + ")"@, Seq::empty(), d);
    assert(before + (" ("@ + d + ")"@) + Seq::<char>::empty() =~= before + (" ("@ + d + ")"@));
}

proof fn regrouped(a: Seq<char>, b: Seq<char>, c: Seq<char>, d: Seq<char>)
    ensures
        a + b + c + d == a + (b + c + d),
{
    assert(a + b + c + d =~= a + (b + c + d));
}

proof fn still_shown(before: Seq<char>, tail: Seq<char>, start: Seq<char>, p: Seq<char>)
    ensures
        text::starts(before, start) ==> text::starts(before + tail, start),
        text::occurs(before, p) ==> text::occurs(before + tail, p),
{
    let none = Seq::<char>::empty();
    if text::starts(before, start) {
        assert((before + tail).subrange(0, start.len() as int) =~= before.subrange(
            0,
            start.len() as int,
        ));
    }
    if text::occurs(before, p) {
        found_in_part(none, before, tail, p);
        assert(none + before + tail =~= before + tail);
    }
}

/// An item to do is shown with its owner and its deadline where it has them.
pub proof fn todos_are_shown(a: cleanup::ItemModel, due: Seq<char>)
    ensures
        text::starts(cleanup::todo_text(a, due), "- "@ + a.item),
        a.owner.len() > 0 ==> text::occurs(cleanup::todo_text(a, due), a.owner),
        a.deadline.len() > 0 ==> text::occurs(cleanup::todo_text(a, due), due + " "@ + a.deadline),
        a.owner.len() == 0 && a.deadline.len() == 0 ==> cleanup::todo_text(a, due) == "- "@ + a.item,
{
    let before = without_deadline(a);
    let tail = " ("@ + due + " "@ + a.deadline + ")"@;
    owners_are_shown(a);
    deadlines_are_shown(before, due, a.deadline);
    still_shown(before, tail, "- "@ + a.item, a.owner);
}

proof fn begins_with(a: Seq<char>, b: Seq<char>)
    ensures
        text::starts(a + b, a),
{
    assert((a + b).subrange(0, a.len() as int) =~= a);
}

/// The polished file begins with the title, holds the summary, every decision,
/// every item to do, every open question and the whole cleaned transcript, which
/// comes last.
pub proof fn polished_files_hold_everything(
    title: Seq<char>,
    s: cleanup::SummaryModel,
    cleaned: Seq<char>,
    ui_language: Seq<char>,
)
    ensures
        ({
            let file = cleanup::polished_text(title, s, cleaned, ui_language);
            let due = cleanup::headers_model(ui_language).due;
            &&& text::starts(file, "# "@ + title)
            &&& text::occurs(file, s.summary)
            &&& forall|i: int|
                0 <= i < s.decisions.len() ==> text::occurs(file, "- "@ + #[trigger] s.decisions[i])
            &&& forall|i: int|
                0 <= i < s.action_items.len() ==> text::occurs(
                    file,
                    cleanup::todo_text(#[trigger] s.action_items[i], due),
                )
            &&& forall|i: int|
                0 <= i < s.open_questions.len() ==> text::occurs(
                    file,
                    "- "@ + #[trigger] s.open_questions[i],
                )
            &&& text::ends(file, cleaned + "\n"@)
        }),
{
    let h = cleanup::headers_model(ui_language);
    let file = cleanup::polished_text(title, s, cleaned, ui_language);
    let decisions = s.decisions.map_values(|t: Seq<char>| cleanup::bullet(t));
    let todos = s.action_items.map_values(|a: cleanup::ItemModel| cleanup::todo_text(a, h.due));
    let questions = s.open_questions.map_values(|t: Seq<char>| cleanup::bullet(t));
    let top = "# "@ + title + " — "@ + h.meeting_notes + "\n\n## "@ + h.summary + "\n\n"@;
    let head = top + s.summary + "\n\n"@;
    let a = cleanup::section_text(h.key_decisions, h.none_recorded, decisions);
    let b = cleanup::section_text(h.action_items, h.none_recorded, todos);
    let c = cleanup::section_text(h.open_questions, h.none_recorded, questions);
    let foot = "## "@ + h.cleaned_transcript + "\n\n"@ + cleaned + "\n"@;
    let none = Seq::<char>::empty();
    assert(file =~= head + a + b + c + foot);
    let begin = "# "@ + title;
    assert(file.subrange(0, begin.len() as int) =~= begin);
    let last = cleaned + "\n"@;
    assert(file.subrange(file.len() - last.len(), file.len() as int) =~= last);
    found_itself(s.summary);
    found_in_part(top, s.summary, "\n\n"@ + a + b + c + foot, s.summary);
    assert(file =~= top + s.summary + ("\n\n"@ + a + b + c + foot));
    assert forall|i: int| 0 <= i < s.decisions.len() implies text::occurs(
        file,
        "- "@ + #[trigger] s.decisions[i],
    ) by {
        sections_hold_items(h.key_decisions, h.none_recorded, decisions, i);
        found_in_part(head, a, b + c + foot, decisions[i]);
        assert(file =~= head + a + (b + c + foot));
    }
    assert forall|i: int| 0 <= i < s.action_items.len() implies text::occurs(
        file,
        cleanup::todo_text(#[trigger] s.action_items[i], h.due),
    ) by {
        sections_hold_items(h.action_items, h.none_recorded, todos, i);
        found_in_part(head + a, b, c + foot, todos[i]);
        assert(file =~= (head + a) + b + (c + foot));
    }
    assert forall|i: int| 0 <= i < s.open_questions.len() implies text::occurs(
        file,
        "- "@ + #[trigger] s.open_questions[i],
    ) by {
        sections_hold_items(h.open_questions, h.none_recorded, questions, i);
        found_in_part(head + a + b, c, foot, questions[i]);
        assert(file =~= (head + a + b) + c + foot);
    }
}

// ---------------------------------------------------------------------------
// Context and size
// ---------------------------------------------------------------------------

/// The context of the next section is the end of the one before it: nothing
/// visible follows it there, and it is not blank where the section is not.
pub proof fn contexts_are_the_end(cleaned: Seq<char>) -> (before: Seq<char>)
    ensures
        text::ink(cleaned) == before + text::ink(cleanup::tail_of(cleaned)),
        text::ink(cleaned).len() > 0 ==> text::ink(cleanup::tail_of(cleaned)).len() > 0,
        before.len() > 0 ==> cleanup::begins_entry(cleanup::tail_of(cleaned)),
{
    let blocks = cleanup::blocks_of(cleaned);
    blocks_keep_text(cleaned);
    blocks_shape(cleaned);
    if blocks.len() == 0 {
        let none = Seq::<char>::empty();
        text_laws::ink_of_blank(none);
        assert(text::ink(none) =~= none) by {
            reveal(Seq::filter);
        }
        none
    } else {
        let before = ink_of_all(blocks.drop_last());
        let last = blocks[blocks.len() - 1];
        text_laws::ink_of_blank(last);
        if blocks.len() == 1 {
            assert(blocks.drop_last() =~= Seq::empty());
        }
        before
    }
}

proof fn byte_len_of_parts(a: Seq<char>, b: Seq<char>, c: Seq<char>)
    ensures
        cleanup::byte_len(a) <= cleanup::byte_len(a + b + c),
{
    byte_len_of_join(a + b, c);
    byte_len_of_join(a, b);
}

proof fn packed_is_filled(blocks: Seq<Seq<char>>, budget: nat)
    requires
        forall|i: int| 0 <= i < blocks.len() ==> !text::is_blank(#[trigger] blocks[i]),
    ensures
        ({
            let (full, section) = cleanup::packed(blocks, budget);
            let all = full.push(section);
            forall|i: int|
                0 <= i < full.len() ==> cleanup::byte_len(#[trigger] full[i]) + cleanup::byte_len(
                    all[i + 1],
                ) + 2 > budget
        }),
    decreases blocks.len(),
{
    if blocks.len() > 0 {
        let rest = blocks.drop_last();
        packed_is_filled(rest, budget);
        packed_nonempty(rest, budget);
        let (before, section) = cleanup::packed(rest, budget);
        let (full, last) = cleanup::packed(blocks, budget);
        let block = blocks.last();
        let all = full.push(last);
        byte_len_of_parts(section, "\n\n"@, block);
        assert forall|i: int| 0 <= i < full.len() implies cleanup::byte_len(#[trigger] full[i])
            + cleanup::byte_len(all[i + 1]) + 2 > budget by {
            if i < before.len() {
                assert(full[i] == before[i]);
                let one = before.push(section);
                assert(cleanup::byte_len(before[i]) + cleanup::byte_len(one[i + 1]) + 2 > budget);
                if i + 1 < before.len() {
                    assert(all[i + 1] == one[i + 1]);
                } else {
                    assert(one[i + 1] == section);
                    assert(cleanup::byte_len(all[i + 1]) >= cleanup::byte_len(section));
                }
            }
        }
    }
}

/// Sections are as few as they can be in order: no section has room for the next
/// one.
pub proof fn sections_are_filled(raw: Seq<char>, budget: nat, i: int)
    requires
        0 <= i,
        i + 1 < cleanup::sections_of(raw, budget).len(),
    ensures
        cleanup::byte_len(cleanup::sections_of(raw, budget)[i]) + cleanup::byte_len(
            cleanup::sections_of(raw, budget)[i + 1],
        ) + 2 > budget,
{
    blocks_shape(raw);
    let blocks = cleanup::blocks_of(raw);
    packed_is_filled(blocks, budget);
    packed_nonempty(blocks, budget);
    packed_shape(blocks, budget);
    let (full, section) = cleanup::packed(blocks, budget);
    assert(cleanup::sections_of(raw, budget) =~= full.push(section));
    assert(cleanup::byte_len(full[i]) + cleanup::byte_len(full.push(section)[i + 1]) + 2 > budget);
}

} // verus!
