//! What a run of the loop promises, step by step: what it says to the model, what it
//! keeps of each answer, and when it makes room.

use vstd::prelude::*;

use crate::agent_loop;
use crate::agent_loop::{
    ActionView, AgentLoop, ErrorView, EventView, LoopView, Menu, PhaseView, Purpose, RecordView,
    ReplyView, RequestView, SpecView,
};
use crate::compaction;
use crate::compaction_laws;
use crate::conversation::{CallView, ItemView};
use crate::text;
use crate::text_laws;

verus! {

// ---------------------------------------------------------------------------
// The conversation
// ---------------------------------------------------------------------------

/// A run begins with the prompt of the request, and with nothing used.
pub proof fn law_a_run_begins_with_the_prompt(cfg: AgentLoop, req: RequestView)
    ensures
        ({
            let (s, action) = agent_loop::round(cfg, req, agent_loop::fresh(req));
            &&& s.items == seq![ItemView::User { text: req.user_prompt }]
            &&& s.trace.len() == 0
            &&& s.executed == 0
            &&& s.usage.input_tokens == 0
            &&& s.usage.output_tokens == 0
            &&& s.usage.cached_input_tokens == 0
            &&& !s.recovered
            &&& s.dump is None
            &&& action is Call
        }),
{
}

/// A reply with tool calls is kept whole: the conversation is the one before it with
/// exactly its text and its calls added. In a run with tools the calls are run, the
/// first of them next; without tools each is answered in its place, and the run goes on.
pub proof fn law_replies_are_kept_whole(
    cfg: AgentLoop,
    req: RequestView,
    s: LoopView,
    reply: ReplyView,
)
    requires
        s.phase is Awaiting,
        reply.tool_calls.len() > 0,
    ensures
        ({
            let (after, action) = agent_loop::stepped(cfg, req, s, EventView::Replied(Ok(reply)));
            let said = s.items.push(
                ItemView::Assistant { text: reply.text, tool_calls: reply.tool_calls },
            );
            &&& req.has_tools ==> after.items == said && after.phase == (PhaseView::Running {
                calls: reply.tool_calls,
                next: 0,
            }) && action == (ActionView::RunTool {
                purpose: Purpose::Main,
                call: reply.tool_calls[0],
            })
            &&& !req.has_tools ==> after.items.len() == said.len() + reply.tool_calls.len()
                && after.items.take(said.len() as int) == said && (forall|i: int|
                0 <= i < reply.tool_calls.len() ==> #[trigger] after.items[said.len() + i]
                    == (ItemView::ToolResult {
                    call_id: reply.tool_calls[i].id,
                    text: "no tools are available in this run"@,
                })) && action is Call
            &&& after.trace == s.trace
            &&& after.executed == s.executed
            &&& after.recovered == s.recovered
            &&& after.dump == s.dump
        }),
{
    let said = s.items.push(
        ItemView::Assistant { text: reply.text, tool_calls: reply.tool_calls },
    );
    let (after, action) = agent_loop::stepped(cfg, req, s, EventView::Replied(Ok(reply)));
    if !req.has_tools {
        assert(after.items =~= said + agent_loop::refusals(reply.tool_calls));
        assert(after.items.take(said.len() as int) =~= said);
    }
}

/// A reply without tool calls is the answer: the run ends with its text, and the
/// conversation stays.
pub proof fn law_an_answer_ends_the_run(
    cfg: AgentLoop,
    req: RequestView,
    s: LoopView,
    reply: ReplyView,
)
    requires
        s.phase is Awaiting,
        reply.tool_calls.len() == 0,
    ensures
        ({
            let (after, action) = agent_loop::stepped(cfg, req, s, EventView::Replied(Ok(reply)));
            &&& action == (ActionView::Finish { result: Ok(reply.text), remove: s.dump })
            &&& after.phase is Done
            &&& after.items == s.items
            &&& after.trace == s.trace
            &&& after.executed == s.executed
        }),
{
}

/// A counter that stays within 64 bits.
pub open spec fn within(n: int) -> int {
    if n <= u64::MAX {
        n
    } else {
        u64::MAX as int
    }
}

/// The usage of a run is the sum over the replies to its own calls: each of them adds
/// what it used, and nothing else adds anything.
pub proof fn law_usage_is_that_of_the_replies(
    cfg: AgentLoop,
    req: RequestView,
    s: LoopView,
    event: EventView,
)
    requires
        agent_loop::expected(s.phase, event),
    ensures
        ({
            let after = agent_loop::stepped(cfg, req, s, event).0;
            match (s.phase, event) {
                (PhaseView::Awaiting, EventView::Replied(Ok(reply))) => {
                    &&& after.usage.input_tokens == within(
                        s.usage.input_tokens + reply.usage.input_tokens,
                    )
                    &&& after.usage.output_tokens == within(
                        s.usage.output_tokens + reply.usage.output_tokens,
                    )
                    &&& after.usage.cached_input_tokens == within(
                        s.usage.cached_input_tokens + reply.usage.cached_input_tokens,
                    )
                },
                _ => after.usage == s.usage,
            }
        }),
{
}

/// The calls of a reply are run one after the other, each once. The output of each is
/// added to the conversation as the answer to its call, and to the trace with its name
/// and size; then the next call is run, and behind the last one the model is called.
pub proof fn law_tools_are_run_in_turn(
    cfg: AgentLoop,
    req: RequestView,
    s: LoopView,
    calls: Seq<CallView>,
    next: int,
    output: Seq<char>,
)
    requires
        s.phase == (PhaseView::Running { calls, next }),
        0 <= next < calls.len(),
        0 <= s.executed < u32::MAX,
    ensures
        ({
            let (after, action) = agent_loop::stepped(cfg, req, s, EventView::ToolRan(output));
            &&& after.items == s.items.push(
                ItemView::ToolResult { call_id: calls[next].id, text: output },
            )
            &&& after.trace == s.trace.push(
                RecordView {
                    name: calls[next].name,
                    result_bytes: text::byte_len(output) as int,
                },
            )
            &&& after.executed == s.executed + 1
            &&& next + 1 < calls.len() ==> action == (ActionView::RunTool {
                purpose: Purpose::Main,
                call: calls[next + 1],
            }) && after.phase == (PhaseView::Running { calls, next: next + 1 })
            &&& next + 1 == calls.len() ==> action is Call
            &&& after.recovered == s.recovered
            &&& after.dump == s.dump
        }),
{
}

/// Outside of a compaction the conversation only grows: what was said stays said.
pub proof fn law_what_was_said_stays(
    cfg: AgentLoop,
    req: RequestView,
    s: LoopView,
    event: EventView,
)
    requires
        agent_loop::sound(s),
        agent_loop::expected(s.phase, event),
        (s.phase is Awaiting && event matches EventView::Replied(Ok(_))) || s.phase is Running,
    ensures
        s.items.is_prefix_of(agent_loop::stepped(cfg, req, s, event).0.items),
{
    let t = agent_loop::stepped(cfg, req, s, event).0;
    assert(s.items =~= t.items.subrange(0, s.items.len() as int));
}

/// A call of the run carries the system prompt and the whole conversation, and offers
/// the tools exactly where the run has them and the budget is not spent.
pub proof fn law_calls_carry_the_conversation(req: RequestView, s: LoopView)
    ensures
        ({
            let (after, action) = agent_loop::main_call(req, s);
            &&& action matches ActionView::Call { purpose, system_prompt, items, tools } && {
                &&& purpose == Purpose::Main
                &&& system_prompt == req.system_prompt
                &&& items == s.items
                &&& tools == Menu::Full <==> req.has_tools && s.executed < req.max_tool_calls
                &&& tools == Menu::Nothing <==> !(req.has_tools && s.executed
                    < req.max_tool_calls)
            }
            &&& after == (LoopView { phase: PhaseView::Awaiting, ..s })
        }),
{
}

// ---------------------------------------------------------------------------
// Compaction at the threshold
// ---------------------------------------------------------------------------

/// What a call is estimated at: one more item of the conversation adds the cost of the
/// item, one more tool the cost of its name, description and parameters.
pub proof fn law_call_costs_add_up(
    prompt: Seq<char>,
    items: Seq<ItemView>,
    item: ItemView,
    specs: Seq<SpecView>,
    spec: SpecView,
)
    ensures
        agent_loop::call_cost(prompt, items.push(item), specs) == agent_loop::call_cost(
            prompt,
            items,
            specs,
        ) + compaction::item_cost(item),
        agent_loop::call_cost(prompt, items, specs.push(spec)) == agent_loop::call_cost(
            prompt,
            items,
            specs,
        ) + compaction::tokens(spec.name) + compaction::tokens(spec.description)
            + compaction::tokens(spec.parameters),
        agent_loop::call_cost(prompt, Seq::empty(), Seq::empty()) == compaction::tokens(prompt),
{
    assert(items.push(item).drop_last() =~= items);
    assert(specs.push(spec).drop_last() =~= specs);
}

/// A round begins with a summary exactly where compaction is on, the estimate reaches the
/// threshold and something can be dropped; else it begins with the call of the run. The
/// tools count only where the run has them. The conversation is left alone until the
/// summary is there.
pub proof fn law_the_threshold_starts_a_compaction(cfg: AgentLoop, req: RequestView, s: LoopView)
    ensures
        ({
            let (after, action) = agent_loop::round(cfg, req, s);
            let menu = if req.has_tools {
                req.specs
            } else {
                Seq::empty()
            };
            let range = compaction::planned(s.items, cfg.keep_tokens as int, 0);
            let full = cfg.enabled && agent_loop::call_cost(req.system_prompt, s.items, menu)
                >= cfg.threshold_tokens && range is Some;
            &&& full ==> after.phase == (PhaseView::Summarizing {
                start: (range->0).0,
                cut: (range->0).1,
            })
            &&& full ==> (action matches ActionView::Call { purpose, tools, items, .. } && purpose
                == Purpose::Threshold && tools == Menu::Nothing && items.len() == 1)
            &&& !full ==> after.phase is Awaiting
            &&& !full ==> (action matches ActionView::Call { purpose, .. } && purpose
                == Purpose::Main)
            &&& after.items == s.items
            &&& after == (LoopView { phase: after.phase, ..s })
        }),
{
}

/// The summarizer at the threshold is shown what is dropped: all of its messages where
/// they fit the budget, and the standing summary.
pub proof fn law_the_threshold_summarizer_sees_what_is_dropped(
    cfg: AgentLoop,
    req: RequestView,
    s: LoopView,
    start: int,
    cut: int,
    i: int,
)
    requires
        agent_loop::round(cfg, req, s).0.phase == (PhaseView::Summarizing { start, cut }),
        0 <= start <= i <= cut < s.items.len(),
        compaction::tokens(
            text::joined(
                Seq::new(
                    (cut + 1 - start) as nat,
                    |k: int| compaction::item_text(s.items[start + k], 4000),
                ),
                "\n\n"@,
            ),
        ) <= cfg.summary_input_tokens,
    ensures
        agent_loop::round(cfg, req, s).1 matches ActionView::Call { purpose, items, .. } && (purpose
            == Purpose::Threshold ==> text::mentions(
            items[0].text(),
            compaction::item_text(s.items[i], 4000),
        ) && (agent_loop::standing_in(s.items) matches Some(old_one) ==> text::trimmed(
            old_one,
        ).len() > 0 ==> text::mentions(items[0].text(), text::trimmed(old_one)))),
{
    let part = s.items.subrange(start, cut + 1);
    let list = Seq::new(part.len(), |k: int| compaction::item_text(part[k], 4000));
    assert(list =~= Seq::new(
        (cut + 1 - start) as nat,
        |k: int| compaction::item_text(s.items[start + k], 4000),
    ));
    if agent_loop::due(cfg, req, s.items) is Some {
        let previous = agent_loop::standing_in(s.items);
        compaction_laws::law_summarizers_get_the_messages_that_fit(
            previous,
            part,
            cfg.summary_input_tokens as int,
            agent_loop::DIGEST_MAX_CHARS as nat,
            i - start,
        );
        let source = compaction::source_for(
            previous,
            part,
            cfg.summary_input_tokens as int,
            agent_loop::DIGEST_MAX_CHARS as nat,
        ).0;
        let kind = "threshold"@;
        compaction_laws::law_requests_hold_the_conversation(source, previous, kind);
        let prompt = agent_loop::threshold_prompt(cfg, s.items, start, cut);
        let front = "<conversation>\n"@ + source + "\n</conversation>"@;
        text_laws::law_beginnings_and_endings(prompt, front);
        text_laws::law_a_part_is_mentioned(
            "<conversation>\n"@,
            source,
            "\n</conversation>"@ + prompt.skip(front.len() as int),
        );
        assert(prompt =~= "<conversation>\n"@ + source + ("\n</conversation>"@ + prompt.skip(
            front.len() as int,
        )));
        text_laws::law_mentioning_is_transitive(
            prompt,
            source,
            compaction::item_text(s.items[i], 4000),
        );
        if previous is Some && text::trimmed(previous->0).len() > 0 {
            let old_one = text::trimmed(previous->0);
            text_laws::law_a_part_is_mentioned(
                "<previous-summary>\n"@,
                old_one,
                "\n</previous-summary>"@,
            );
            text_laws::law_mentioning_is_transitive(
                prompt,
                "<previous-summary>\n"@ + old_one + "\n</previous-summary>"@,
                old_one,
            );
        }
    }
}

/// What the summarizer wrote takes the place of the planned range where it is accepted,
/// and the digest where it is not or the call failed; then the run is called, and the
/// rest of its state stays.
pub proof fn law_the_summary_takes_the_place_of_the_range(
    cfg: AgentLoop,
    req: RequestView,
    s: LoopView,
    start: int,
    cut: int,
    reply: Result<ReplyView, ErrorView>,
)
    requires
        s.phase == (PhaseView::Summarizing { start, cut }),
        0 <= start <= cut < s.items.len(),
    ensures
        ({
            let (after, action) = agent_loop::stepped(cfg, req, s, EventView::Replied(reply));
            let written = match reply {
                Ok(r) => compaction::accepted(r.text, cfg.summary_max_chars as nat),
                Err(_) => None,
            };
            let summary = match written {
                Some(summary) => summary,
                None => compaction::digested(
                    agent_loop::standing_in(s.items),
                    s.items.subrange(start, cut + 1),
                    2400,
                ),
            };
            &&& after.items.len() == s.items.len() - (cut - start)
            &&& forall|i: int| 0 <= i < start ==> #[trigger] after.items[i] == s.items[i]
            &&& after.items[start] is User
            &&& text::ends(after.items[start].text(), summary)
            &&& text::begins(after.items[start].text(), "[Earlier conversation summary]"@)
            &&& forall|i: int|
                start < i < after.items.len() ==> #[trigger] after.items[i] == s.items[i + (cut
                    - start)]
            &&& action matches ActionView::Call { purpose, items, .. } && purpose == Purpose::Main
                && items == after.items
            &&& after == (LoopView { items: after.items, phase: PhaseView::Awaiting, ..s })
        }),
{
    let after = agent_loop::stepped(cfg, req, s, EventView::Replied(reply)).0;
    let summary = match agent_loop::usable(cfg, reply) {
        Some(summary) => summary,
        None => agent_loop::digest_of(s.items, start, cut),
    };
    assert(after.items == agent_loop::replaced_by(s.items, start, cut, summary));
    let said = after.items[start].text();
    assert(said == agent_loop::SUMMARY_PREFIX@ + "\n"@ + summary);
    assert(said.subrange(said.len() - summary.len(), said.len() as int) =~= summary);
    let head = agent_loop::SUMMARY_PREFIX@;
    assert(said.subrange(0, head.len() as int) =~= head);
}

// ---------------------------------------------------------------------------
// Recovery from an overflow
// ---------------------------------------------------------------------------

/// A refusal for the size is recovered exactly where compaction is on, it is the first,
/// the run has tools and something can be dropped: what is dropped goes to a dump, and the
/// digest of it takes its place. Any other refusal ends the run with it.
pub proof fn law_the_first_overflow_is_recovered(
    cfg: AgentLoop,
    req: RequestView,
    s: LoopView,
    error: ErrorView,
)
    requires
        agent_loop::sound(s),
        s.phase is Awaiting,
    ensures
        ({
            let (after, action) = agent_loop::stepped(cfg, req, s, EventView::Replied(Err(error)));
            let range = compaction::planned(s.items, cfg.keep_tokens as int, 0);
            let recovers = error is ContextOverflow && cfg.enabled && !s.recovered && req.has_tools
                && range is Some;
            let (start, cut) = range->0;
            &&& recovers ==> {
                &&& action == (ActionView::WriteDump {
                    text: compaction::dumped(s.items.subrange(start, cut + 1)),
                })
                &&& after.recovered
                &&& after.items.len() == s.items.len() - (cut - start)
                &&& after.items[start] is User
                &&& text::ends(
                    after.items[start].text(),
                    compaction::digested(
                        agent_loop::standing_in(s.items),
                        s.items.subrange(start, cut + 1),
                        2400,
                    ),
                )
                &&& forall|i: int|
                    start < i < after.items.len() ==> #[trigger] after.items[i] == s.items[i + (
                    cut - start)]
                &&& after.phase matches PhaseView::Dumping { digest, previous } && text::ends(
                    after.items[start].text(),
                    digest,
                ) && previous == agent_loop::standing_in(s.items)
            }
            &&& !recovers ==> action == (ActionView::Finish {
                result: Err(error),
                remove: s.dump,
            }) && after.phase is Done && after.items == s.items
            &&& after.usage == s.usage
            &&& after.trace == s.trace
            &&& after.executed == s.executed
            &&& after.dump == s.dump
        }),
{
    let range = compaction::planned(s.items, cfg.keep_tokens as int, 0);
    if range is Some {
        compaction::law_plan_spares_newest_and_pinned(s.items, cfg.keep_tokens as int, 0);
        let (start, cut) = range->0;
        let digest = agent_loop::digest_of(s.items, start, cut);
        let said = agent_loop::summary_message(digest).text();
        assert(said.subrange(said.len() - digest.len(), said.len() as int) =~= digest);
    }
}

/// Once the dump was tried, the summarizer is called with tools that read: it is told
/// where the dump is, and given the digest and the earlier summary. The dump is to be
/// removed exactly where it was written. The conversation of the run stays.
pub proof fn law_the_dump_starts_the_summarizer(
    cfg: AgentLoop,
    req: RequestView,
    s: LoopView,
    digest: Seq<char>,
    previous: Option<Seq<char>>,
    relative: Seq<char>,
    written: bool,
)
    requires
        s.phase == (PhaseView::Dumping { digest, previous }),
    ensures
        ({
            let (after, action) = agent_loop::stepped(
                cfg,
                req,
                s,
                EventView::Dumped { relative, written },
            );
            &&& action matches ActionView::Call { purpose, items, tools, .. } && {
                &&& purpose == Purpose::Overflow
                &&& tools == Menu::ReadOnly
                &&& items.len() == 1
                &&& text::mentions(items[0].text(), relative)
                &&& text::mentions(items[0].text(), digest)
                &&& previous is Some && text::trimmed(previous->0).len() > 0 ==> text::mentions(
                    items[0].text(),
                    text::trimmed(previous->0),
                )
                &&& after.phase == (PhaseView::Distilling { items, steps: 0 })
            }
            &&& after.dump == (if written {
                Some(relative)
            } else {
                s.dump
            })
            &&& after == (LoopView { dump: after.dump, phase: after.phase, ..s })
        }),
{
    compaction_laws::law_overflow_requests_name_the_dump(digest, relative, previous);
    if previous is Some && text::trimmed(previous->0).len() > 0 {
        let old_one = text::trimmed(previous->0);
        text_laws::law_a_part_is_mentioned(
            "<previous-summary>\n"@,
            old_one,
            "\n</previous-summary>"@,
        );
        text_laws::law_mentioning_is_transitive(
            compaction::overflow_request(digest, relative, previous),
            "<previous-summary>\n"@ + old_one + "\n</previous-summary>"@,
            old_one,
        );
    }
}

/// What the summarizer says and reads stays in its own conversation: each reply with
/// calls is added to it whole, its calls are run one after the other and answered, and
/// then it is called again, six times at most. The run itself keeps its conversation, its
/// usage and its trace meanwhile.
pub proof fn law_the_summarizer_reads_on_its_own(
    cfg: AgentLoop,
    req: RequestView,
    s: LoopView,
    items: Seq<ItemView>,
    steps: int,
    calls: Seq<CallView>,
    next: int,
    reply: ReplyView,
    output: Seq<char>,
)
    requires
        reply.tool_calls.len() > 0,
        0 <= next < calls.len(),
        0 <= steps < 6,
    ensures
        s.phase == (PhaseView::Distilling { items, steps }) ==> {
            let (after, action) = agent_loop::stepped(cfg, req, s, EventView::Replied(Ok(reply)));
            &&& action == (ActionView::RunTool {
                purpose: Purpose::Overflow,
                call: reply.tool_calls[0],
            })
            &&& after.phase == (PhaseView::Reading {
                items: items.push(
                    ItemView::Assistant { text: reply.text, tool_calls: reply.tool_calls },
                ),
                steps,
                calls: reply.tool_calls,
                next: 0,
            })
            &&& after == (LoopView { phase: after.phase, ..s })
        },
        s.phase == (PhaseView::Reading { items, steps, calls, next }) ==> {
            let (after, action) = agent_loop::stepped(cfg, req, s, EventView::ToolRan(output));
            let heard = items.push(
                ItemView::ToolResult { call_id: calls[next].id, text: output },
            );
            &&& next + 1 < calls.len() ==> action == (ActionView::RunTool {
                purpose: Purpose::Overflow,
                call: calls[next + 1],
            }) && after.phase == (PhaseView::Reading { items: heard, steps, calls, next: next + 1 })
            &&& next + 1 == calls.len() && steps < 5 ==> after.phase == (PhaseView::Distilling {
                items: heard,
                steps: steps + 1,
            })
            &&& next + 1 == calls.len() && steps < 5 ==> (action matches ActionView::Call {
                purpose,
                items: sent,
                tools,
                ..
            } && purpose == Purpose::Overflow && sent == heard && tools == Menu::ReadOnly)
            &&& next + 1 == calls.len() && steps == 5 ==> after.phase is Awaiting
                || after.phase is Summarizing
            &&& after == (LoopView { phase: after.phase, ..s })
        },
{
}

/// The end of the summarizer: what it wrote takes the place of the digest where it is
/// accepted, and the digest stays where it is not or the call failed. The rest of the
/// conversation stays, and the run goes on.
pub proof fn law_the_precise_summary_takes_the_place_of_the_digest(
    cfg: AgentLoop,
    req: RequestView,
    s: LoopView,
    reply: Result<ReplyView, ErrorView>,
)
    requires
        agent_loop::sound(s),
        s.phase is Distilling,
        reply matches Ok(r) ==> r.tool_calls.len() == 0,
    ensures
        ({
            let (after, action) = agent_loop::stepped(cfg, req, s, EventView::Replied(reply));
            let written = match reply {
                Ok(r) => compaction::accepted(r.text, cfg.summary_max_chars as nat),
                Err(_) => None,
            };
            &&& after.items.len() == s.items.len()
            &&& after.items[0] is User
            &&& written is Some ==> text::ends(after.items[0].text(), written->0)
            &&& written is None ==> after.items[0] == s.items[0]
            &&& forall|i: int| 0 < i < s.items.len() ==> #[trigger] after.items[i] == s.items[i]
            &&& after.phase is Awaiting || after.phase is Summarizing
            &&& action is Call
            &&& after == (LoopView { items: after.items, phase: after.phase, ..s })
        }),
{
    let written = match reply {
        Ok(r) => compaction::accepted(r.text, cfg.summary_max_chars as nat),
        Err(_) => None,
    };
    if written is Some {
        let said = agent_loop::summary_message(written->0).text();
        assert(said.subrange(said.len() - written->0.len(), said.len() as int) =~= written->0);
    }
}

/// A conversation is taken to begin with a summary exactly where its first item is a user
/// message that begins with the mark of summaries; the summary is that message.
pub proof fn law_the_standing_summary_is_marked(items: Seq<ItemView>)
    ensures
        agent_loop::standing_in(items) is Some <==> items.len() > 0 && items[0] is User
            && text::begins(items[0].text(), "[Earlier conversation summary]"@),
        agent_loop::standing_in(items) is Some ==> agent_loop::standing_in(items)
            == Some(items[0].text()),
{
}

} // verus!
