//! What a compaction promises: how sizes are estimated, what is dropped, and what is
//! kept of it in digests, dumps and summaries.

use vstd::prelude::*;

use crate::agent_loop;
use crate::compaction;
use crate::conversation::{CallView, ItemView};
use crate::text;
use crate::text_laws;

verus! {

// ---------------------------------------------------------------------------
// Estimates
// ---------------------------------------------------------------------------

/// Four ASCII characters more are one token more, and so is any other character.
pub proof fn law_tokens_grow_with_the_text(s: Seq<char>, a: char, b: char, c: char, d: char)
    ensures
        a as u32 >= 128 ==> compaction::tokens(s.push(a)) == compaction::tokens(s) + 1,
        (a as u32) < 128 && (b as u32) < 128 && (c as u32) < 128 && (d as u32) < 128
            ==> compaction::tokens(s + seq![a, b, c, d]) == compaction::tokens(s) + 1,
        (a as u32) < 128 ==> compaction::tokens(s) <= compaction::tokens(s.push(a))
            <= compaction::tokens(s) + 1,
        compaction::tokens(Seq::empty()) == 0,
{
    compaction::lemma_tokens_bounded(s);
    let one = s.push(a);
    assert(one.drop_last() =~= s);
    let two = one.push(b);
    assert(two.drop_last() =~= one);
    let three = two.push(c);
    assert(three.drop_last() =~= two);
    let four = three.push(d);
    assert(four.drop_last() =~= three);
    assert(four =~= s + seq![a, b, c, d]);
    if (a as u32) < 128 && (b as u32) < 128 && (c as u32) < 128 && (d as u32) < 128 {
        assert(compaction::ascii_count(one) == compaction::ascii_count(s) + 1);
        assert(compaction::ascii_count(two) == compaction::ascii_count(s) + 2);
        assert(compaction::ascii_count(three) == compaction::ascii_count(s) + 3);
        assert(compaction::ascii_count(four) == compaction::ascii_count(s) + 4);
    }
}

/// A text of n ASCII characters is estimated at a quarter of them, rounded up.
pub proof fn law_ascii_takes_a_quarter(s: Seq<char>)
    requires
        forall|i: int| 0 <= i < s.len() ==> (#[trigger] s[i] as u32) < 128,
    ensures
        s.len() <= 4 * compaction::tokens(s) < s.len() + 4,
{
    lemma_all_ascii(s);
}

proof fn lemma_all_ascii(s: Seq<char>)
    requires
        forall|i: int| 0 <= i < s.len() ==> (#[trigger] s[i] as u32) < 128,
    ensures
        compaction::ascii_count(s) == s.len(),
    decreases s.len(),
{
    if s.len() > 0 {
        let front = s.drop_last();
        assert forall|i: int| 0 <= i < front.len() implies (#[trigger] front[i] as u32) < 128 by {
            assert(front[i] == s[i]);
        }
        assert((s[s.len() - 1] as u32) < 128);
        lemma_all_ascii(front);
    }
}

/// An item costs its text, and for each tool call its name and its arguments; a
/// conversation costs its items.
pub proof fn law_costs_add_up(
    items: Seq<ItemView>,
    item: ItemView,
    said: Seq<char>,
    calls: Seq<CallView>,
    call: CallView,
)
    ensures
        compaction::conversation_cost(items.push(item)) == compaction::conversation_cost(items)
            + compaction::item_cost(item),
        compaction::conversation_cost(Seq::empty()) == 0,
        compaction::item_cost(ItemView::User { text: said }) == compaction::tokens(said),
        compaction::item_cost(ItemView::ToolResult { call_id: call.id, text: said })
            == compaction::tokens(said),
        compaction::item_cost(ItemView::Assistant { text: said, tool_calls: Seq::empty() })
            == compaction::tokens(said),
        compaction::item_cost(ItemView::Assistant { text: said, tool_calls: calls.push(call) })
            == compaction::item_cost(ItemView::Assistant { text: said, tool_calls: calls })
            + compaction::tokens(call.name) + compaction::tokens(call.arguments),
{
    assert(items.push(item).drop_last() =~= items);
    assert(calls.push(call).drop_last() =~= calls);
}

// ---------------------------------------------------------------------------
// Plans
// ---------------------------------------------------------------------------

/// Nothing is dropped that fits the kept budget: whatever a plan drops does not fit
/// together with all that follows it.
pub proof fn law_plan_keeps_what_fits(items: Seq<ItemView>, keep: int, pinned_prefix: int, k: int)
    requires
        0 <= pinned_prefix,
        compaction::planned(items, keep, pinned_prefix) is Some,
        (compaction::planned(items, keep, pinned_prefix)->0).0 <= k <= (compaction::planned(
            items,
            keep,
            pinned_prefix,
        )->0).1,
    ensures
        compaction::conversation_cost(items.skip(k)) > keep,
{
    let start = compaction::pinned_end(items.len() as int, pinned_prefix);
    let t = compaction::tail_from(items, items.len() as int, start, keep);
    let first = compaction::keep_start(items, start, keep);
    compaction::lemma_tail_from(items, items.len() as int, start, keep);
    compaction::lemma_pair_safe(items, first - 1, start);
    let longer = items.skip(k);
    let shorter = items.skip(t - 1);
    assert(longer.take(t - 1 - k) + shorter =~= longer);
    compaction::lemma_conversation_cost_add(longer.take(t - 1 - k), shorter);
    compaction::lemma_conversation_cost_nonneg(longer.take(t - 1 - k));
}

/// Where something may be dropped and all of it does not fit, there is a plan, as long
/// as no tool result is in the way.
pub proof fn law_there_is_a_plan_when_it_does_not_fit(
    items: Seq<ItemView>,
    keep: int,
    pinned_prefix: int,
)
    requires
        0 <= pinned_prefix,
        items.len() >= pinned_prefix + 2,
        compaction::conversation_cost(items.skip(pinned_prefix)) > keep,
        forall|i: int| 0 <= i < items.len() ==> !(#[trigger] items[i] is ToolResult),
    ensures
        compaction::planned(items, keep, pinned_prefix) is Some,
        (compaction::planned(items, keep, pinned_prefix)->0).0 == pinned_prefix,
{
    let start = pinned_prefix;
    let t = compaction::tail_from(items, items.len() as int, start, keep);
    let first = compaction::keep_start(items, start, keep);
    compaction::lemma_tail_from(items, items.len() as int, start, keep);
    if t <= start {
        assert(compaction::conversation_cost(items.skip(start)) <= keep);
    }
    compaction::lemma_pair_safe(items, first - 1, start);
    let cut = compaction::pair_safe(items, first - 1, start);
    assert(!(items[cut + 1] is ToolResult));
}

// ---------------------------------------------------------------------------
// Texts of items
// ---------------------------------------------------------------------------

/// A bounded text is the text where it is short enough; else it begins with as many
/// characters of it as the bound says, and says that it was cut.
pub proof fn law_bounded_texts_say_when_they_are_cut(s: Seq<char>, max: nat)
    ensures
        s.len() <= max ==> compaction::bounded(s, max) == s,
        s.len() > max ==> text::begins(compaction::bounded(s, max), s.take(max as int))
            && text::mentions(compaction::bounded(s, max), "[text truncated]"@)
            && compaction::bounded(s, max).len() == max + "\n... [text truncated]"@.len(),
{
    if s.len() > max {
        let b = compaction::bounded(s, max);
        let note = "\n... [text truncated]"@;
        assert(b.subrange(0, max as int) =~= s.take(max as int));
        reveal_strlit("\n... [text truncated]");
        reveal_strlit("[text truncated]");
        let gap = note.take(5);
        assert(note =~= gap + "[text truncated]"@);
        text_laws::law_a_part_is_mentioned(s.take(max as int) + gap, "[text truncated]"@, Seq::empty());
        assert(b =~= (s.take(max as int) + gap) + "[text truncated]"@ + Seq::empty());
    }
}

/// The text of an item begins with its role and holds its text; that of a tool result
/// names its call.
pub proof fn law_items_are_written_with_their_role(
    said: Seq<char>,
    calls: Seq<CallView>,
    id: Seq<char>,
    max: nat,
)
    requires
        said.len() <= max,
    ensures
        text::begins(compaction::item_text(ItemView::User { text: said }, max), "[user]\n"@),
        text::ends(compaction::item_text(ItemView::User { text: said }, max), said),
        text::begins(
            compaction::item_text(ItemView::Assistant { text: said, tool_calls: calls }, max),
            "[assistant]\n"@ + said,
        ),
        text::begins(
            compaction::item_text(ItemView::ToolResult { call_id: id, text: said }, max),
            "[tool result "@ + id,
        ),
        text::ends(
            compaction::item_text(ItemView::ToolResult { call_id: id, text: said }, max),
            said,
        ),
{
    let user = compaction::item_text(ItemView::User { text: said }, max);
    assert(user.subrange(0, "[user]\n"@.len() as int) =~= "[user]\n"@);
    assert(user.subrange(user.len() - said.len(), user.len() as int) =~= said);
    let own = compaction::item_text(ItemView::Assistant { text: said, tool_calls: calls }, max);
    let front = "[assistant]\n"@ + said;
    assert(own.subrange(0, front.len() as int) =~= front);
    let result = compaction::item_text(ItemView::ToolResult { call_id: id, text: said }, max);
    let head = "[tool result "@ + id;
    assert(result.subrange(0, head.len() as int) =~= head);
    assert(result.subrange(result.len() - said.len(), result.len() as int) =~= said);
}

/// The text of an assistant item names every tool call of it, with its arguments, of
/// which at most two hundred characters are shown.
pub proof fn law_every_tool_call_is_written(
    said: Seq<char>,
    calls: Seq<CallView>,
    max: nat,
    i: int,
)
    requires
        0 <= i < calls.len(),
    ensures
        text::mentions(
            compaction::item_text(ItemView::Assistant { text: said, tool_calls: calls }, max),
            call_line(calls[i]),
        ),
{
    lemma_call_text(calls, i);
    let list = compaction::calls_text(calls);
    let front = "[assistant]\n"@ + compaction::bounded(said, max) + "\n[tool calls]"@;
    let all = compaction::item_text(ItemView::Assistant { text: said, tool_calls: calls }, max);
    text_laws::law_a_part_is_mentioned(front, list, Seq::empty());
    assert(all =~= front + list + Seq::empty());
    text_laws::law_mentioning_is_transitive(all, list, call_line(calls[i]));
}

/// A tool call as it is written.
pub open spec fn call_line(call: CallView) -> Seq<char> {
    "\n- "@ + call.name + " "@ + compaction::bounded(call.arguments, 200)
}

proof fn lemma_last_call(calls: Seq<CallView>)
    requires
        calls.len() > 0,
    ensures
        compaction::calls_text(calls) == compaction::calls_text(calls.drop_last()) + call_line(
            calls.last(),
        ),
{
    assert(compaction::calls_text(calls) =~= compaction::calls_text(calls.drop_last()) + call_line(
        calls.last(),
    ));
}

proof fn lemma_call_text(calls: Seq<CallView>, i: int)
    requires
        0 <= i < calls.len(),
    ensures
        text::mentions(compaction::calls_text(calls), call_line(calls[i])),
    decreases calls.len(),
{
    let all = compaction::calls_text(calls);
    let front = calls.drop_last();
    let done = compaction::calls_text(front);
    lemma_last_call(calls);
    if i == calls.len() - 1 {
        text_laws::law_a_part_is_mentioned(done, call_line(calls[i]), Seq::empty());
        assert(all =~= done + call_line(calls[i]) + Seq::empty());
    } else {
        assert(front[i] == calls[i]);
        lemma_call_text(front, i);
        text_laws::law_a_part_is_mentioned(Seq::empty(), done, call_line(calls.last()));
        assert(all =~= Seq::empty() + done + call_line(calls.last()));
        text_laws::law_mentioning_is_transitive(all, done, call_line(calls[i]));
    }
}

// ---------------------------------------------------------------------------
// Digests and dumps
// ---------------------------------------------------------------------------

/// A snippet of a short text on one line is the text itself; every snippet is the
/// beginning of the text on one line, without the white space around it.
pub proof fn law_short_texts_are_digested_whole(item: ItemView)
    requires
        item.text().len() <= 240,
        !item.text().contains('\n'),
        item.text().len() > 0 ==> !text::is_white(item.text()[0]) && !text::is_white(
            item.text().last(),
        ),
    ensures
        compaction::snippet_of(item) == item.text(),
{
    text_laws::law_replacing_nothing_changes_nothing(item.text(), '\n', ' ');
    text_laws::law_trimming_leaves_the_rest(item.text());
}

/// A snippet never breaks the line.
pub proof fn law_snippets_stay_on_one_line(item: ItemView)
    ensures
        !compaction::snippet_of(item).contains('\n'),
        compaction::snippet_of(item).len() <= 240,
{
    let head = compaction::head_of(item.text(), 240);
    let flat = text::replaced(head, '\n', ' ');
    let at = text_laws::law_trimming_takes_white_space_only(flat);
    let s = compaction::snippet_of(item);
    if s.contains('\n') {
        let i = choose|i: int| 0 <= i < s.len() && s[i] == '\n';
        assert(flat[at.0 + i] == '\n');
    }
}

/// An item that says something adds one line to the digest, with its role; any other
/// adds none.
pub proof fn law_items_add_a_line_to_the_digest(
    previous: Option<Seq<char>>,
    items: Seq<ItemView>,
    item: ItemView,
)
    ensures
        ({
            let before = compaction::digest_lines(previous, items);
            let after = compaction::digest_lines(previous, items.push(item));
            let role = match item {
                ItemView::User { .. } => "user"@,
                ItemView::Assistant { .. } => "assistant"@,
                ItemView::ToolResult { .. } => "tool"@,
            };
            if compaction::snippet_of(item).len() == 0 {
                after == before
            } else {
                after == before.push(role + ": "@ + compaction::snippet_of(item))
            }
        }),
        previous is None ==> compaction::digest_lines(previous, Seq::empty()).len() == 0,
{
    assert(items.push(item).drop_last() =~= items);
}

/// Where the digest fits its bound, it has a line for every item that says something.
pub proof fn law_digest_holds_every_item(
    previous: Option<Seq<char>>,
    items: Seq<ItemView>,
    max: nat,
    i: int,
)
    requires
        0 <= i < items.len(),
        compaction::snippet_of(items[i]).len() > 0,
        text::joined(compaction::digest_lines(previous, items), "\n"@).len() <= max,
    ensures
        text::mentions(
            compaction::digested(previous, items, max),
            compaction::role_of(items[i]) + ": "@ + compaction::snippet_of(items[i]),
        ),
{
    let k = lemma_digest_line(previous, items, i);
    text_laws::law_joining_keeps_every_part(
        compaction::digest_lines(previous, items),
        "\n"@,
        k,
    );
}

proof fn lemma_digest_line(previous: Option<Seq<char>>, items: Seq<ItemView>, i: int) -> (k: int)
    requires
        0 <= i < items.len(),
        compaction::snippet_of(items[i]).len() > 0,
    ensures
        0 <= k < compaction::digest_lines(previous, items).len(),
        compaction::digest_lines(previous, items)[k] == compaction::role_of(items[i]) + ": "@
            + compaction::snippet_of(items[i]),
    decreases items.len(),
{
    let front = items.drop_last();
    if i == items.len() - 1 {
        compaction::digest_lines(previous, front).len() as int
    } else {
        assert(front[i] == items[i]);
        lemma_digest_line(previous, front, i)
    }
}

/// A dump grows by the text of each item: it keeps what it had and ends with the item.
pub proof fn law_dumps_grow_item_by_item(items: Seq<ItemView>, item: ItemView)
    ensures
        text::begins(compaction::dumped(items.push(item)), compaction::dumped(items)),
        text::ends(
            compaction::dumped(items.push(item)),
            compaction::item_text(item, 4000) + "\n"@,
        ),
        text::begins(compaction::dumped(items), compaction::dumped(Seq::empty())),
    decreases items.len(),
{
    assert(items.push(item).drop_last() =~= items);
    let before = compaction::dumped(items);
    let all = compaction::dumped(items.push(item));
    let part = compaction::item_text(item, 4000) + "\n"@;
    assert(all.subrange(0, before.len() as int) =~= before);
    assert(all =~= before + "\n"@ + part);
    assert(all.subrange(all.len() - part.len(), all.len() as int) =~= part);
    if items.len() == 0 {
        assert(items =~= Seq::empty());
        assert(before.subrange(0, before.len() as int) =~= before);
    } else {
        let front = items.drop_last();
        assert(front.push(items.last()) =~= items);
        law_dumps_grow_item_by_item(front, items.last());
        let first = compaction::dumped(Seq::empty());
        let mid = compaction::dumped(front);
        assert(mid.subrange(0, first.len() as int) =~= first);
        assert(before.subrange(0, first.len() as int) =~= before.subrange(
            0,
            mid.len() as int,
        ).subrange(0, first.len() as int));
    }
}

/// A dump is a Markdown file in the directory of the tool, named by its stamp.
pub proof fn law_dumps_are_named_by_their_stamp(a: Seq<char>, b: Seq<char>)
    ensures
        text::begins(compaction::dump_name(a), ".hoverstare/"@),
        text::ends(compaction::dump_name(a), ".md"@),
        text::mentions(compaction::dump_name(a), a),
        compaction::dump_name(a) == compaction::dump_name(b) ==> a == b,
{
    reveal_strlit(".hoverstare/context-");
    reveal_strlit(".hoverstare/");
    reveal_strlit(".md");
    let head = ".hoverstare/context-"@;
    let name = compaction::dump_name(a);
    assert(head.subrange(0, 12) =~= ".hoverstare/"@);
    assert(name.subrange(0, 12) =~= ".hoverstare/"@);
    assert(name.subrange(name.len() - 3, name.len() as int) =~= ".md"@);
    text_laws::law_a_part_is_mentioned(head, a, ".md"@);
    assert(name.subrange(head.len() as int, name.len() - 3) =~= a);
    let other = compaction::dump_name(b);
    assert(other.subrange(head.len() as int, other.len() - 3) =~= b);
}

// ---------------------------------------------------------------------------
// Requests for summaries
// ---------------------------------------------------------------------------

/// The request for a summary holds what is to be summarized, between its marks, and the
/// earlier summary where there is one.
pub proof fn law_requests_hold_the_conversation(
    source: Seq<char>,
    previous: Option<Seq<char>>,
    kind: Seq<char>,
)
    ensures
        text::begins(
            compaction::summary_request(source, previous, kind),
            "<conversation>\n"@ + source + "\n</conversation>"@,
        ),
        text::mentions(compaction::summary_request(source, previous, kind), kind),
        previous is Some && text::trimmed(previous->0).len() > 0 ==> text::mentions(
            compaction::summary_request(source, previous, kind),
            "<previous-summary>\n"@ + text::trimmed(previous->0) + "\n</previous-summary>"@,
        ),
{
    let front = "<conversation>\n"@ + source + "\n</conversation>"@;
    let said = compaction::previous_text(previous);
    let intro = "\n\nThe conversation above is the part being replaced ("@;
    let close = " form). Write the summary that takes its place."@;
    let all = compaction::summary_request(source, previous, kind);
    assert(all.subrange(0, front.len() as int) =~= front);
    text_laws::law_a_part_is_mentioned(front + said + intro, kind, close);
    assert(all =~= (front + said + intro) + kind + close);
    if previous is Some && text::trimmed(previous->0).len() > 0 {
        lemma_previous(previous->0);
        text_laws::law_a_part_is_mentioned(front, said, intro + kind + close);
        assert(all =~= front + said + (intro + kind + close));
        text_laws::law_mentioning_is_transitive(
            all,
            said,
            "<previous-summary>\n"@ + text::trimmed(previous->0) + "\n</previous-summary>"@,
        );
    }
}

proof fn lemma_previous(p: Seq<char>)
    requires
        text::trimmed(p).len() > 0,
    ensures
        text::mentions(
            compaction::previous_text(Some(p)),
            "<previous-summary>\n"@ + text::trimmed(p) + "\n</previous-summary>"@,
        ),
{
    reveal_strlit("\n\n<previous-summary>\n");
    reveal_strlit("<previous-summary>\n");
    let rest = "\n</previous-summary>\nPreserve everything still true from that summary, update what changed, and drop what is resolved."@;
    reveal_strlit(
        "\n</previous-summary>\nPreserve everything still true from that summary, update what changed, and drop what is resolved.",
    );
    reveal_strlit("\n</previous-summary>");
    let gap = seq!['\n', '\n'];
    assert("\n\n<previous-summary>\n"@ =~= gap + "<previous-summary>\n"@);
    let end = "\n</previous-summary>"@;
    assert(rest =~= end + rest.skip(end.len() as int));
    let part = "<previous-summary>\n"@ + text::trimmed(p) + end;
    text_laws::law_a_part_is_mentioned(gap, part, rest.skip(end.len() as int));
    assert(compaction::previous_text(Some(p)) =~= gap + part + rest.skip(end.len() as int));
}

/// The request after an overflow names the dump and holds the digest, and the earlier
/// summary where there is one.
pub proof fn law_overflow_requests_name_the_dump(
    crude: Seq<char>,
    path: Seq<char>,
    previous: Option<Seq<char>>,
)
    ensures
        text::mentions(compaction::overflow_request(crude, path, previous), path),
        text::mentions(compaction::overflow_request(crude, path, previous), crude),
        previous is Some && text::trimmed(previous->0).len() > 0 ==> text::mentions(
            compaction::overflow_request(crude, path, previous),
            "<previous-summary>\n"@ + text::trimmed(previous->0) + "\n</previous-summary>"@,
        ),
{
    let a = "The conversation was too large for one request, so it is not included here.\nA crude digest of it follows; the full conversation is at "@;
    let b = " and can be read with the read_file, grep and glob tools. That dump is the only source you may read for this summary.\n\n<crude-digest>\n"@;
    let c = "\n</crude-digest>"@;
    let said = compaction::previous_text(previous);
    let d = "\n\nThe conversation above is the part being replaced (overflow form). Read the dump where it helps, then write the summary that takes its place."@;
    let all = compaction::overflow_request(crude, path, previous);
    text_laws::law_a_part_is_mentioned(a, path, b + crude + c + said + d);
    assert(all =~= a + path + (b + crude + c + said + d));
    text_laws::law_a_part_is_mentioned(a + path + b, crude, c + said + d);
    assert(all =~= (a + path + b) + crude + (c + said + d));
    if previous is Some && text::trimmed(previous->0).len() > 0 {
        lemma_previous(previous->0);
        text_laws::law_a_part_is_mentioned(a + path + b + crude + c, said, d);
        assert(all =~= (a + path + b + crude + c) + said + d);
        text_laws::law_mentioning_is_transitive(
            all,
            said,
            "<previous-summary>\n"@ + text::trimmed(previous->0) + "\n</previous-summary>"@,
        );
    }
}

/// The summarizer is given the messages themselves, every one of them, where they fit
/// its budget, and else the digest.
pub proof fn law_summarizers_get_the_messages_that_fit(
    previous: Option<Seq<char>>,
    items: Seq<ItemView>,
    budget: int,
    digest_max: nat,
    i: int,
)
    requires
        0 <= i < items.len(),
    ensures
        ({
            let messages = text::joined(
                Seq::new(items.len(), |k: int| compaction::item_text(items[k], 4000)),
                "\n\n"@,
            );
            let source = compaction::source_for(previous, items, budget, digest_max).0;
            &&& compaction::tokens(messages) <= budget ==> source == messages && text::mentions(
                source,
                compaction::item_text(items[i], 4000),
            )
            &&& compaction::tokens(messages) > budget ==> source == compaction::digested(
                previous,
                items,
                digest_max,
            )
        }),
{
    let list = Seq::new(items.len(), |k: int| compaction::item_text(items[k], 4000));
    assert(compaction::message_texts(items) =~= list);
    text_laws::law_joining_keeps_every_part(list, "\n\n"@, i);
}

// ---------------------------------------------------------------------------
// Answers
// ---------------------------------------------------------------------------

/// An answer is accepted where it says something and has a section that was asked for:
/// without the white space around it, whole where it fits, and else cut at the bound,
/// which it says.
pub proof fn law_summaries_need_a_section(answer: Seq<char>, max: nat)
    ensures
        ({
            let s = text::trimmed(answer);
            let r = compaction::accepted(answer, max);
            &&& r is Some <==> s.len() > 0 && compaction::has_section(s)
            &&& r is Some && s.len() <= max ==> r->0 == s
            &&& r is Some && s.len() > max ==> text::begins(r->0, s.take(max as int))
                && text::mentions(r->0, text::decimal(max)) && text::mentions(
                r->0,
                "[summary truncated"@,
            )
        }),
{
    let s = text::trimmed(answer);
    if s.len() > max && compaction::has_section(s) {
        let r = compaction::accepted(answer, max)->0;
        let kept = s.take(max as int);
        let note = "\n... [summary truncated at "@;
        let end = " characters]"@;
        assert(r.subrange(0, max as int) =~= kept);
        text_laws::law_a_part_is_mentioned(kept + note, text::decimal(max), end);
        assert(r =~= (kept + note) + text::decimal(max) + end);
        reveal_strlit("\n... [summary truncated at ");
        reveal_strlit("[summary truncated");
        let mark = "[summary truncated"@;
        assert(note =~= note.take(5) + mark + note.skip(5 + mark.len() as int));
        text_laws::law_a_part_is_mentioned(
            kept + note.take(5),
            mark,
            note.skip(5 + mark.len() as int) + text::decimal(max) + end,
        );
        assert(r =~= (kept + note.take(5)) + mark + (note.skip(5 + mark.len() as int) + text::decimal(max)
            + end));
    }
}

/// A section is found wherever its heading stands, in upper or lower case.
pub proof fn law_headings_are_found_anywhere(
    before: Seq<char>,
    heading: Seq<char>,
    after: Seq<char>,
    k: int,
)
    requires
        0 <= k < compaction::SUMMARY_SECTIONS@.len(),
        text::lowered(heading) == text::lowered(
            "## "@ + compaction::SUMMARY_SECTIONS@[k]@,
        ),
    ensures
        compaction::has_section(before + heading + after),
{
    let all = before + heading + after;
    let want = "## "@ + text::lowered(compaction::SUMMARY_SECTIONS@[k]@);
    reveal_strlit("## ");
    assert(text::lowered("## "@ + compaction::SUMMARY_SECTIONS@[k]@) =~= want);
    assert(text::lowered(all) =~= text::lowered(before) + text::lowered(heading) + text::lowered(
        after,
    ));
    text_laws::law_a_part_is_mentioned(text::lowered(before), want, text::lowered(after));
}

/// A refusal is about the size exactly where it speaks of a length and of what is
/// limited, in upper or lower case.
pub proof fn law_overflows_speak_of_length_and_limit(message: Seq<char>)
    ensures
        compaction::is_overflow(message) <==> (exists|i: int|
            0 <= i < compaction::LENGTH_WORDS@.len() && text::mentions(
                text::lowered(message),
                (#[trigger] compaction::LENGTH_WORDS@[i])@,
            )) && (exists|i: int|
            0 <= i < compaction::LIMIT_WORDS@.len() && text::mentions(
                text::lowered(message),
                (#[trigger] compaction::LIMIT_WORDS@[i])@,
            )),
{
}

/// A directory gets one separator at its end where it has none; the workspace without a
/// name stays without one.
pub proof fn law_directories_end_in_a_separator(dir: Seq<char>)
    ensures
        dir.len() == 0 ==> compaction::as_dir(dir) == dir,
        dir.len() > 0 ==> compaction::as_dir(dir).last() == '/' && text::begins(
            compaction::as_dir(dir),
            dir,
        ) && compaction::as_dir(dir).len() <= dir.len() + 1,
        compaction::as_dir(dir.push('/')) == dir.push('/'),
{
    let d = compaction::as_dir(dir);
    assert(d.subrange(0, dir.len() as int) =~= dir);
}

/// A summarizer is told the rules, and behind them the heading of every section, in
/// order, each on a line of its own.
pub proof fn law_summarizers_are_told_every_section(k: int)
    requires
        0 <= k < compaction::SUMMARY_SECTIONS@.len(),
    ensures
        ({
            let prompt = agent_loop::summarizer_prompt();
            &&& text::begins(prompt, compaction::summary_rules())
            &&& text::mentions(prompt, "## "@ + compaction::SUMMARY_SECTIONS@[k]@)
        }),
{
    let prompt = agent_loop::summarizer_prompt();
    let head = compaction::summary_rules();
    let lines = compaction::heading_lines(compaction::SUMMARY_SECTIONS@);
    let list = text::joined(lines, "\n"@);
    assert(prompt.subrange(0, head.len() as int) =~= head);
    text_laws::law_joining_keeps_every_part(lines, "\n"@, k);
    text_laws::law_a_part_is_mentioned(head, list, Seq::empty());
    assert(prompt =~= head + list + Seq::empty());
    text_laws::law_mentioning_is_transitive(
        prompt,
        list,
        "## "@ + compaction::SUMMARY_SECTIONS@[k]@,
    );
}

} // verus!
